//! Accounts and the account-lookup response.

use vstd::prelude::*;

verus! {

/// An API account: the tenant that owns users, calendars and services.
#[derive(Clone, Debug)]
pub struct Account {
    pub id: String,
    pub public_key_b64: Option<String>,
}

/// Request shape of the account lookup.
#[derive(Debug)]
pub struct GetAccountReq {
    pub public_key_b64: Option<String>,
}

/// Response shape of the account lookup.
#[derive(Debug)]
pub struct GetAccountRes {
    pub id: String,
    pub public_key_b64: Option<String>,
}

/// The response the account lookup returns for an authenticated account.
pub fn account_response(account: Account) -> (r: GetAccountRes)
    ensures
        r.id == account.id,
        r.public_key_b64 == account.public_key_b64,
{
    GetAccountRes { id: account.id, public_key_b64: account.public_key_b64 }
}

} // verus!
