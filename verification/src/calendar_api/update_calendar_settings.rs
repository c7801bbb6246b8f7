//! Request shapes of the calendar settings update.

use vstd::prelude::*;

verus! {

pub struct PathParams {
    pub calendar_id: String,
}

} // verus!
