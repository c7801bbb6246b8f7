//! Request shapes of the service lookup.

use vstd::prelude::*;

verus! {

pub struct PathParams {
    pub service_id: String,
}

} // verus!
