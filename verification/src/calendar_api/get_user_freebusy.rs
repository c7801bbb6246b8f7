//! Request shapes of the free/busy lookup.

use vstd::prelude::*;

verus! {

#[derive(Debug)]
pub struct PathParams {
    pub external_user_id: String,
}

#[derive(Debug)]
pub struct QueryParams {
    pub start_ts: i64,
    pub end_ts: i64,
    pub calendar_ids: Option<String>,
    pub schedule_ids: Option<String>,
}

} // verus!
