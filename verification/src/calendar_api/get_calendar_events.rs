//! Request shapes of the calendar event listing.

use vstd::prelude::*;

verus! {

#[derive(Debug)]
pub struct PathParams {
    pub calendar_id: String,
}

#[derive(Debug)]
pub struct QueryParams {
    pub start_ts: i64,
    pub end_ts: i64,
}

} // verus!
