//! Request shapes of removing a user from a service.

use vstd::prelude::*;

verus! {

pub struct PathParams {
    pub service_id: String,
    pub user_id: String,
}

} // verus!
