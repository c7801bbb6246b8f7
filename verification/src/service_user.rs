//! The use case that replaces one service member's calendar selection,
//! after checking that every chosen calendar belongs to that user.

use vstd::prelude::*;

use crate::id::ID;
use crate::service::Service;
use crate::service::ServiceResource;
use crate::service::find_user_idx;

verus! {

/// Path parameters of the service-member update route.
pub struct PathParams {
    pub service_id: String,
    pub user_id: String,
}

/// Body of the service-member update route.
pub struct BodyParams {
    pub calendar_ids: Vec<String>,
}

/// Why a service-member update was rejected; the calendar variant carries
/// the first calendar that the user does not own.
#[derive(Debug)]
pub enum UsecaseErrors {
    StorageError,
    ServiceNotFoundError,
    UserNotFoundError,
    CalendarNotOwnedByUser(ID),
}

/// The position of the first calendar id that is not among the owned ones,
/// or the length when all are owned.
pub open spec fn first_unowned(calendar_ids: Seq<ID>, owned: Seq<ID>) -> int
    decreases calendar_ids.len(),
{
    if calendar_ids.len() == 0 {
        0
    } else if owned.contains(calendar_ids[0]) {
        1 + first_unowned(calendar_ids.drop_first(), owned)
    } else {
        0
    }
}

proof fn lemma_find_user_idx_at(users: Seq<ServiceResource>, uid: ID, k: int)
    requires
        0 <= k <= users.len(),
        forall|i: int| 0 <= i < k ==> (#[trigger] users[i]).user_id != uid,
        k < users.len() ==> users[k].user_id == uid,
    ensures
        find_user_idx(users, uid) == k,
    decreases k,
{
    if users.len() == 0 {
    } else if k == 0 {
    } else {
        let t = users.drop_first();
        assert(forall|i: int| 0 <= i < t.len() ==> #[trigger] t[i] == users[i + 1]);
        lemma_find_user_idx_at(t, uid, k - 1);
    }
}

proof fn lemma_first_unowned_at(calendar_ids: Seq<ID>, owned: Seq<ID>, k: int)
    requires
        0 <= k <= calendar_ids.len(),
        forall|i: int| 0 <= i < k ==> owned.contains(#[trigger] calendar_ids[i]),
        k < calendar_ids.len() ==> !owned.contains(calendar_ids[k]),
    ensures
        first_unowned(calendar_ids, owned) == k,
    decreases k,
{
    if calendar_ids.len() == 0 {
    } else if k == 0 {
    } else {
        let t = calendar_ids.drop_first();
        assert(forall|i: int| 0 <= i < t.len() ==> #[trigger] t[i] == calendar_ids[i + 1]);
        lemma_first_unowned_at(t, owned, k - 1);
    }
}

/// Whether `x` occurs in `v`.
fn contains_id(v: &Vec<ID>, x: ID) -> (r: bool)
    ensures
        r == v@.contains(x),
{
    let mut j: usize = 0;
    while j < v.len()
        invariant
            j <= v@.len(),
            forall|i: int| 0 <= i < j ==> #[trigger] v@[i] != x,
        decreases v@.len() - j,
    {
        if v[j] == x {
            return true;
        }
        j += 1;
    }
    false
}

/// Replaces the chosen member's calendars in the looked-up service: the
/// service must exist under the requesting account, the user must be a
/// member, and every chosen calendar must be among the user's own; the
/// error names the first calendar that is not.  Only the matched member's
/// calendar list changes.
pub fn update_service_user_usecase(
    service: Option<Service>,
    account_id: ID,
    user_id: ID,
    calendar_ids: Vec<ID>,
    user_calendars: &Vec<ID>,
) -> (r: Result<Service, UsecaseErrors>)
    ensures
        service is None || service->0.account_id != account_id ==> r matches Err(
            UsecaseErrors::ServiceNotFoundError,
        ),
        service is Some && service->0.account_id == account_id && find_user_idx(
            service->0.users@,
            user_id,
        ) >= service->0.users@.len() ==> r matches Err(UsecaseErrors::UserNotFoundError),
        service is Some && service->0.account_id == account_id && find_user_idx(
            service->0.users@,
            user_id,
        ) < service->0.users@.len() && first_unowned(calendar_ids@, user_calendars@)
            < calendar_ids@.len() ==> (r matches Err(UsecaseErrors::CalendarNotOwnedByUser(c)) && c
            == calendar_ids@[first_unowned(calendar_ids@, user_calendars@)]),
        service is Some && service->0.account_id == account_id && find_user_idx(
            service->0.users@,
            user_id,
        ) < service->0.users@.len() && first_unowned(calendar_ids@, user_calendars@)
            >= calendar_ids@.len() ==> (r matches Ok(s) && {
            let idx = find_user_idx(service->0.users@, user_id);
            &&& s.id == service->0.id
            &&& s.account_id == service->0.account_id
            &&& s.users@ == service->0.users@.update(
                idx,
                (ServiceResource { calendar_ids: calendar_ids, ..service->0.users@[idx] }),
            )
        }),
{
    let mut service = match service {
        Some(service) if service.account_id == account_id => service,
        _ => {
            return Err(UsecaseErrors::ServiceNotFoundError);
        },
    };
    let ghost users0 = service.users@;

    let mut idx: usize = 0;
    while idx < service.users.len() && service.users[idx].user_id != user_id
        invariant
            idx <= users0.len(),
            service.users@ == users0,
            forall|i: int| 0 <= i < idx ==> (#[trigger] users0[i]).user_id != user_id,
        decreases users0.len() - idx,
    {
        idx += 1;
    }
    proof {
        lemma_find_user_idx_at(users0, user_id, idx as int);
    }
    if idx >= service.users.len() {
        return Err(UsecaseErrors::UserNotFoundError);
    }

    let mut k: usize = 0;
    while k < calendar_ids.len() && contains_id(user_calendars, calendar_ids[k])
        invariant
            k <= calendar_ids@.len(),
            forall|i: int| 0 <= i < k ==> user_calendars@.contains(#[trigger] calendar_ids@[i]),
        decreases calendar_ids@.len() - k,
    {
        k += 1;
    }
    proof {
        lemma_first_unowned_at(calendar_ids@, user_calendars@, k as int);
    }
    if k < calendar_ids.len() {
        return Err(UsecaseErrors::CalendarNotOwnedByUser(calendar_ids[k]));
    }

    let ghost chosen = calendar_ids;
    let mut resource = service.users.remove(idx);
    resource.calendar_ids = calendar_ids;
    service.users.insert(idx, resource);
    proof {
        assert(service.users@ =~= users0.update(
            idx as int,
            (ServiceResource { calendar_ids: chosen, ..users0[idx as int] }),
        ));
    }

    Ok(service)
}

} // verus!
