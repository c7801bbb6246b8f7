//! The schedule-deletion use case: only the owner may delete a schedule.

use vstd::prelude::*;

use crate::id::ID;
use crate::schedule::Schedule;

verus! {

/// Why a schedule deletion was rejected.
#[derive(Debug)]
pub enum UseCaseErrors {
    NotFound(ID),
    StorageError,
}

/// A request to delete one schedule on behalf of one user.
#[derive(Debug)]
pub struct DeleteScheduleUseCase {
    pub schedule_id: ID,
    pub user_id: ID,
}

impl DeleteScheduleUseCase {
    /// Decides the deletion from the looked-up schedule: a schedule that
    /// does not exist or belongs to another user reports not-found; an
    /// owned schedule is released for deletion.
    pub fn decide(&self, schedule: Option<Schedule>) -> (r: Result<Schedule, UseCaseErrors>)
        ensures
            schedule is None || schedule->0.user_id != self.user_id ==> (r matches Err(
            UseCaseErrors::NotFound(id)) && id == self.schedule_id),
            schedule is Some && schedule->0.user_id == self.user_id ==> r == Ok::<
                Schedule,
                UseCaseErrors,
            >(schedule->0),
    {
        match schedule {
            Some(schedule) if schedule.user_id == self.user_id => Ok(schedule),
            _ => Err(UseCaseErrors::NotFound(self.schedule_id)),
        }
    }
}

} // verus!
