//! Request shapes of adding a user to a service.

use vstd::prelude::*;

verus! {

pub struct PathParams {
    pub service_id: String,
}

} // verus!
