//! Request shapes of the service booking-slot lookup.

use vstd::prelude::*;

verus! {

#[derive(Debug)]
pub struct PathParams {
    pub service_id: String,
}

#[derive(Debug)]
pub struct QueryParams {
    pub iana_tz: Option<String>,
    pub duration: i64,
    pub interval: i64,
    pub date: String,
}

} // verus!
