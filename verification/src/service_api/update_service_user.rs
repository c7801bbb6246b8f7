//! Request shapes of the service-member update.

use vstd::prelude::*;

verus! {

pub struct PathParams {
    pub service_id: String,
    pub user_id: String,
}

} // verus!
