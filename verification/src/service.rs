//! Services: named groups of users offering a joint booking surface, and
//! the use cases that delete a service or update one member's calendars.

use vstd::prelude::*;

use crate::id::ID;

verus! {

/// One member of a service: a user together with the calendars and
/// schedules that determine the member's availability.
#[derive(Clone, Debug, PartialEq)]
pub struct ServiceResource {
    pub id: ID,
    pub user_id: ID,
    pub calendar_ids: Vec<ID>,
    pub schedule_ids: Vec<ID>,
}

/// A service owned by one account, with its members.
#[derive(Clone, Debug)]
pub struct Service {
    pub id: ID,
    pub account_id: ID,
    pub users: Vec<ServiceResource>,
}

/// The position of the member with the given user id, or the member count
/// when no member matches.
pub open spec fn find_user_idx(users: Seq<ServiceResource>, user_id: ID) -> int
    decreases users.len(),
{
    if users.len() == 0 {
        0
    } else if users[0].user_id == user_id {
        0
    } else {
        1 + find_user_idx(users.drop_first(), user_id)
    }
}

/// Why a service deletion was rejected.
#[derive(Debug)]
pub enum DeleteServiceErrors {
    NotFound,
    StorageError,
}

/// A request to delete one service on behalf of one account.
#[derive(Debug)]
pub struct DeleteServiceUseCase {
    pub account_id: ID,
    pub service_id: ID,
}

impl DeleteServiceUseCase {
    /// Decides the deletion from the looked-up service: a service that
    /// does not exist or belongs to another account reports not-found; an
    /// owned service is released for deletion.
    pub fn decide(&self, service: Option<Service>) -> (r: Result<Service, DeleteServiceErrors>)
        ensures
            service is None || service->0.account_id != self.account_id ==> r matches Err(
                DeleteServiceErrors::NotFound,
            ),
            service is Some && service->0.account_id == self.account_id ==> r == Ok::<
                Service,
                DeleteServiceErrors,
            >(service->0),
    {
        match service {
            Some(service) if service.account_id == self.account_id => Ok(service),
            _ => Err(DeleteServiceErrors::NotFound),
        }
    }
}

} // verus!
