//! Request shapes of calendar deletion.

use vstd::prelude::*;

verus! {

pub struct PathParams {
    pub calendar_id: String,
}

} // verus!
