//! Request shapes of calendar creation.

use vstd::prelude::*;

verus! {

pub struct PathParams {
    pub user_id: String,
}

} // verus!
