//! Request shapes of the calendar lookup.

use vstd::prelude::*;

verus! {

pub struct PathParams {
    pub calendar_id: String,
}

} // verus!
