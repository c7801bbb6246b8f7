//! Laws of the interval-set operations: ordering and coalescing guarantees
//! of normalization, disjointness after subtraction, and the idempotence
//! properties that make the free/busy pipeline stable.

use vstd::prelude::*;

use crate::event_instance::EventInstance;
use crate::event_instance::coalesce;
use crate::event_instance::coalesce_step;
use crate::event_instance::free_minus;
use crate::event_instance::insert_by_start;
use crate::event_instance::mergeable;
use crate::event_instance::normalized;
use crate::event_instance::right_piece;
use crate::event_instance::sort_by_start;
use crate::event_instance::subtract_all;

verus! {

/// Shorthand for building an instance in specifications.
pub open spec fn interval(start_ts: i64, end_ts: i64, busy: bool) -> EventInstance {
    EventInstance { start_ts, end_ts, busy }
}

/// `start_ts` never decreases along the sequence.
pub open spec fn sorted_by_start_ts(s: Seq<EventInstance>) -> bool {
    forall|i: int, j: int|
        #![trigger s[i], s[j]]
        0 <= i <= j < s.len() ==> s[i].start_ts <= s[j].start_ts
}

/// `start_ts` strictly increases along the sequence.
pub open spec fn strictly_ascending_start_ts(s: Seq<EventInstance>) -> bool {
    forall|i: int| #![trigger s[i]] 0 <= i < s.len() - 1 ==> s[i].start_ts < s[i + 1].start_ts
}

/// Each instance spans a non-negative amount of time.
pub open spec fn all_well_formed(s: Seq<EventInstance>) -> bool {
    forall|i: int| 0 <= i < s.len() ==> (#[trigger] s[i]).start_ts <= s[i].end_ts
}

/// Every instance carries the tag `t`.
pub open spec fn uniform_busy(s: Seq<EventInstance>, t: bool) -> bool {
    forall|i: int| 0 <= i < s.len() ==> (#[trigger] s[i]).busy == t
}

/// No instance reaches its successor when both carry the same tag: any two
/// same-tag neighbours are separated by a real gap.
pub open spec fn maximally_coalesced(s: Seq<EventInstance>) -> bool {
    forall|i: int|
        #![trigger s[i]]
        0 <= i < s.len() - 1 ==> (s[i].busy == s[i + 1].busy ==> s[i].end_ts < s[i + 1].start_ts)
}

/// No instance merges with its predecessor: folding the sequence through
/// `coalesce` again leaves it unchanged.
pub open spec fn refold_stable(s: Seq<EventInstance>) -> bool {
    forall|i: int|
        #![trigger s[i]]
        0 <= i < s.len() - 1 ==> (s[i + 1].busy != s[i].busy || s[i + 1].start_ts > s[i].end_ts
            || s[i + 1].end_ts < s[i].start_ts)
}

/// `f` and `b` share no time: `f` ends at or before `b` starts, or `b` ends
/// at or before `f` starts.
pub open spec fn disjoint(f: EventInstance, b: EventInstance) -> bool {
    f.end_ts <= b.start_ts || b.end_ts <= f.start_ts
}

proof fn lemma_insert_props(s: Seq<EventInstance>, x: EventInstance, t: bool)
    requires
        sorted_by_start_ts(s),
    ensures
        sorted_by_start_ts(insert_by_start(s, x)),
        insert_by_start(s, x).len() == s.len() + 1,
        insert_by_start(s, x)[0] == (if s.len() > 0 && s[0].start_ts <= x.start_ts {
            s[0]
        } else {
            x
        }),
        all_well_formed(s) && x.start_ts <= x.end_ts ==> all_well_formed(insert_by_start(s, x)),
        uniform_busy(s, t) && x.busy == t ==> uniform_busy(insert_by_start(s, x), t),
    decreases s.len(),
{
    let r = insert_by_start(s, x);
    if s.len() == 0 {
        assert(r =~= seq![x]);
    } else if s[0].start_ts <= x.start_ts {
        let sp = s.drop_first();
        assert(forall|i: int| 0 <= i < sp.len() ==> #[trigger] sp[i] == s[i + 1]);
        lemma_insert_props(sp, x, t);
        let rest = insert_by_start(sp, x);
        assert(r =~= seq![s[0]] + rest);
        assert(forall|i: int| 0 <= i < rest.len() ==> #[trigger] r[i + 1] == rest[i]);
        assert(s[0].start_ts <= rest[0].start_ts);
        assert forall|i: int, j: int|
            #![trigger r[i], r[j]]
            0 <= i <= j < r.len() implies r[i].start_ts <= r[j].start_ts by {
            if i == 0 {
                if j > 0 {
                    assert(rest[0].start_ts <= rest[j - 1].start_ts);
                }
            } else {
                assert(rest[i - 1].start_ts <= rest[j - 1].start_ts);
            }
        }
    } else {
        assert(r =~= seq![x] + s);
        assert(forall|i: int| 0 <= i < s.len() ==> #[trigger] r[i + 1] == s[i]);
    }
}

proof fn lemma_sort_props(s: Seq<EventInstance>, t: bool)
    ensures
        sorted_by_start_ts(sort_by_start(s)),
        sort_by_start(s).len() == s.len(),
        all_well_formed(s) ==> all_well_formed(sort_by_start(s)),
        uniform_busy(s, t) ==> uniform_busy(sort_by_start(s), t),
    decreases s.len(),
{
    if s.len() == 0 {
    } else {
        let sp = s.drop_last();
        lemma_sort_props(sp, t);
        lemma_insert_props(sort_by_start(sp), s.last(), t);
        if all_well_formed(s) {
            assert(forall|i: int| 0 <= i < sp.len() ==> #[trigger] sp[i] == s[i]);
            assert(all_well_formed(sp));
        }
        if uniform_busy(s, t) {
            assert(forall|i: int| 0 <= i < sp.len() ==> #[trigger] sp[i] == s[i]);
            assert(uniform_busy(sp, t));
        }
    }
}

proof fn lemma_coalesce_universal(s: Seq<EventInstance>)
    requires
        sorted_by_start_ts(s),
    ensures
        sorted_by_start_ts(coalesce(s)),
        refold_stable(coalesce(s)),
        coalesce(s).len() <= s.len(),
        s.len() == 0 ==> coalesce(s).len() == 0,
        s.len() > 0 ==> coalesce(s).len() > 0 && coalesce(s).last().start_ts <= s.last().start_ts,
    decreases s.len(),
{
    if s.len() == 0 {
    } else {
        let sp = s.drop_last();
        let x = s.last();
        assert(forall|i: int| 0 <= i < sp.len() ==> #[trigger] sp[i] == s[i]);
        lemma_coalesce_universal(sp);
        let acc = coalesce(sp);
        let r = coalesce_step(acc, x);
        assert(coalesce(s) == r);
        if acc.len() == 0 {
            assert(r =~= seq![x]);
        } else {
            let last = acc.last();
            assert(last.start_ts <= x.start_ts);
            if mergeable(x, last) {
                let m = crate::event_instance::merged(x, last);
                assert(m.start_ts == last.start_ts);
                assert(m.end_ts >= last.end_ts);
                assert(m.busy == last.busy);
                assert(r =~= acc.update(acc.len() - 1, m));
                assert forall|i: int, j: int|
                    #![trigger r[i], r[j]]
                    0 <= i <= j < r.len() implies r[i].start_ts <= r[j].start_ts by {
                    assert(acc[i].start_ts <= acc[j].start_ts);
                    assert(r[i].start_ts == acc[i].start_ts);
                    assert(r[j].start_ts == acc[j].start_ts);
                }
                assert forall|i: int|
                    #![trigger r[i]]
                    0 <= i < r.len() - 1 implies (r[i + 1].busy != r[i].busy || r[i + 1].start_ts
                    > r[i].end_ts || r[i + 1].end_ts < r[i].start_ts) by {
                    if i + 1 == r.len() - 1 {
                        let u = acc[i];
                        // Stability of the pair below the merged tail: the
                        // merge only extends the tail's end, and the third
                        // disjunct cannot be the live one when a merge is
                        // possible at all.
                        if last.busy != u.busy {
                        } else if last.start_ts > u.end_ts {
                        } else {
                            assert(last.end_ts < u.start_ts);
                            assert(u.start_ts <= last.start_ts);
                            assert(x.start_ts <= last.end_ts);
                            assert(last.start_ts <= x.start_ts);
                            assert(false);
                        }
                    }
                }
            } else {
                assert(r =~= acc.push(x));
                assert forall|i: int, j: int|
                    #![trigger r[i], r[j]]
                    0 <= i <= j < r.len() implies r[i].start_ts <= r[j].start_ts by {
                    if j < r.len() - 1 {
                        assert(acc[i].start_ts <= acc[j].start_ts);
                    } else if i < r.len() - 1 {
                        assert(acc[i].start_ts <= last.start_ts);
                    }
                }
            }
        }
    }
}

proof fn lemma_coalesce_tagged(s: Seq<EventInstance>, t: bool)
    requires
        sorted_by_start_ts(s),
        all_well_formed(s),
        uniform_busy(s, t),
    ensures
        strictly_ascending_start_ts(coalesce(s)),
        maximally_coalesced(coalesce(s)),
        all_well_formed(coalesce(s)),
        uniform_busy(coalesce(s), t),
        s.len() > 0 ==> coalesce(s).len() > 0 && coalesce(s).last().start_ts <= s.last().start_ts,
    decreases s.len(),
{
    if s.len() == 0 {
    } else {
        let sp = s.drop_last();
        let x = s.last();
        assert(forall|i: int| 0 <= i < sp.len() ==> #[trigger] sp[i] == s[i]);
        lemma_coalesce_tagged(sp, t);
        let acc = coalesce(sp);
        let r = coalesce_step(acc, x);
        assert(coalesce(s) == r);
        if acc.len() == 0 {
            assert(r =~= seq![x]);
        } else {
            let last = acc.last();
            assert(last.start_ts <= x.start_ts);
            if mergeable(x, last) {
                let m = crate::event_instance::merged(x, last);
                assert(m.start_ts == last.start_ts);
                assert(m.start_ts <= m.end_ts);
                assert(r =~= acc.update(acc.len() - 1, m));
                assert(forall|i: int|
                    0 <= i < r.len() - 1 ==> (#[trigger] r[i]) == acc[i]);
            } else {
                // Same tag everywhere, so the instances must be apart; with
                // well-formed instances only "x starts after last ends" is
                // possible, which keeps the ascent strict and the gap real.
                assert(x.busy == last.busy);
                assert(!(x.start_ts <= last.end_ts && x.end_ts >= last.start_ts));
                assert(x.start_ts <= x.end_ts);
                assert(x.start_ts > last.end_ts);
                assert(r =~= acc.push(x));
                assert(forall|i: int|
                    0 <= i < r.len() - 1 ==> (#[trigger] r[i]) == acc[i]);
            }
        }
    }
}

/// Normalization always sorts: whatever the input, the result's `start_ts`
/// values never decrease.
pub proof fn lemma_normalized_sorted(xs: Seq<EventInstance>)
    ensures
        sorted_by_start_ts(normalized(xs)),
{
    lemma_sort_props(xs, true);
    lemma_coalesce_universal(sort_by_start(xs));
}

/// Law: for well-formed inputs that all carry the same tag,
/// `CompatibleInstances::new` produces a sequence that is strictly
/// ascending by `start_ts` and maximally coalesced: no entry reaches its
/// successor, so no two entries could be merged further.
pub proof fn lemma_normalized_ascending_coalesced(xs: Seq<EventInstance>, t: bool)
    requires
        all_well_formed(xs),
        uniform_busy(xs, t),
    ensures
        strictly_ascending_start_ts(normalized(xs)),
        maximally_coalesced(normalized(xs)),
        all_well_formed(normalized(xs)),
        uniform_busy(normalized(xs), t),
        sorted_by_start_ts(normalized(xs)),
{
    lemma_sort_props(xs, t);
    lemma_coalesce_tagged(sort_by_start(xs), t);
    lemma_normalized_sorted(xs);
}

proof fn lemma_sort_of_sorted(s: Seq<EventInstance>)
    requires
        sorted_by_start_ts(s),
    ensures
        sort_by_start(s) == s,
    decreases s.len(),
{
    if s.len() == 0 {
        assert(sort_by_start(s) =~= s);
    } else {
        let sp = s.drop_last();
        assert(forall|i: int| 0 <= i < sp.len() ==> #[trigger] sp[i] == s[i]);
        lemma_sort_of_sorted(sp);
        crate::event_instance::lemma_insert_by_start_at(sp, s.last(), sp.len() as int);
        assert(sp.take(sp.len() as int) =~= sp);
        assert(sp.skip(sp.len() as int) =~= Seq::<EventInstance>::empty());
        assert(sp.take(sp.len() as int) + seq![s.last()] + sp.skip(sp.len() as int) =~= s);
    }
}

proof fn lemma_coalesce_of_stable(s: Seq<EventInstance>)
    requires
        refold_stable(s),
    ensures
        coalesce(s) == s,
    decreases s.len(),
{
    if s.len() == 0 {
        assert(coalesce(s) =~= s);
    } else {
        let sp = s.drop_last();
        let x = s.last();
        assert(forall|i: int| 0 <= i < sp.len() ==> #[trigger] sp[i] == s[i]);
        lemma_coalesce_of_stable(sp);
        if sp.len() == 0 {
            assert(coalesce_step(sp, x) =~= s);
        } else {
            assert(!mergeable(x, sp.last()));
            assert(coalesce_step(sp, x) =~= s);
        }
    }
}

/// Law: normalization is idempotent — rebuilding an interval set from the
/// entries of an already-normalized set changes nothing, for every input.
pub proof fn lemma_normalized_idempotent(xs: Seq<EventInstance>)
    ensures
        normalized(normalized(xs)) == normalized(xs),
{
    lemma_sort_props(xs, true);
    lemma_coalesce_universal(sort_by_start(xs));
    let ys = normalized(xs);
    lemma_sort_of_sorted(ys);
    lemma_coalesce_of_stable(ys);
}

proof fn lemma_free_minus_within(f: EventInstance, busy: Seq<EventInstance>, skip: int)
    ensures
        forall|i: int|
            0 <= i < free_minus(f, busy, skip).len() ==> f.start_ts <= (#[trigger] free_minus(
                f,
                busy,
                skip,
            )[i]).start_ts && free_minus(f, busy, skip)[i].end_ts <= f.end_ts,
    decreases busy.len() - skip,
{
    let r = free_minus(f, busy, skip);
    if skip < 0 || skip >= busy.len() {
        assert(r == seq![f]);
    } else {
        let b = busy[skip];
        if b.start_ts >= f.end_ts {
            assert(r == seq![f]);
        } else if crate::event_instance::subtract_no_overlap(f, b) {
            lemma_free_minus_within(f, busy, skip + 1);
            assert forall|i: int| 0 <= i < r.len() implies f.start_ts <= (#[trigger] r[i]).start_ts
                && r[i].end_ts <= f.end_ts by {
                assert(r[i] == free_minus(f, busy, skip + 1)[i]);
            }
        } else if b.start_ts <= f.start_ts && b.end_ts >= f.end_ts {
        } else if b.start_ts > f.start_ts && b.end_ts < f.end_ts {
            let right = right_piece(f, b);
            lemma_free_minus_within(right, busy, skip + 1);
            assert(f.start_ts < b.end_ts);
            assert(r == seq![crate::event_instance::left_piece(f, b)] + free_minus(
                right,
                busy,
                skip + 1,
            ));
            assert forall|i: int| 0 <= i < r.len() implies f.start_ts <= (#[trigger] r[i]).start_ts
                && r[i].end_ts <= f.end_ts by {
                if i > 0 {
                    assert(r[i] == free_minus(right, busy, skip + 1)[i - 1]);
                    assert(right.start_ts <= free_minus(right, busy, skip + 1)[i - 1].start_ts);
                }
            }
        } else if f.start_ts >= b.start_ts {
            let right = right_piece(f, b);
            lemma_free_minus_within(right, busy, skip + 1);
            assert(f.start_ts < b.end_ts);
            assert(r == free_minus(right, busy, skip + 1));
            assert forall|i: int| 0 <= i < r.len() implies f.start_ts <= (#[trigger] r[i]).start_ts
                && r[i].end_ts <= f.end_ts by {
                assert(r[i] == free_minus(right, busy, skip + 1)[i]);
                assert(right.start_ts <= free_minus(right, busy, skip + 1)[i].start_ts);
            }
        } else {
            assert(r == seq![crate::event_instance::left_piece(f, b)]);
        }
    }
}

proof fn lemma_free_minus_disjoint(f: EventInstance, busy: Seq<EventInstance>, skip: int)
    requires
        0 <= skip,
        sorted_by_start_ts(busy),
    ensures
        forall|i: int, j: int|
            #![trigger free_minus(f, busy, skip)[i], busy[j]]
            0 <= i < free_minus(f, busy, skip).len() && skip <= j < busy.len() ==> disjoint(
                free_minus(f, busy, skip)[i],
                busy[j],
            ),
    decreases busy.len() - skip,
{
    if skip >= busy.len() {
    } else {
        let b = busy[skip];
        let r = free_minus(f, busy, skip);
        if b.start_ts >= f.end_ts {
            assert forall|i: int, j: int|
                #![trigger r[i], busy[j]]
                0 <= i < r.len() && skip <= j < busy.len() implies disjoint(r[i], busy[j]) by {
                assert(busy[skip].start_ts <= busy[j].start_ts);
            }
        } else if crate::event_instance::subtract_no_overlap(f, b) {
            lemma_free_minus_disjoint(f, busy, skip + 1);
            lemma_free_minus_within(f, busy, skip + 1);
            assert forall|i: int, j: int|
                #![trigger r[i], busy[j]]
                0 <= i < r.len() && skip <= j < busy.len() implies disjoint(r[i], busy[j]) by {
                assert(r[i] == free_minus(f, busy, skip + 1)[i]);
                if j == skip {
                    assert(b.end_ts <= f.start_ts);
                    assert(f.start_ts <= free_minus(f, busy, skip + 1)[i].start_ts);
                } else {
                    assert(disjoint(free_minus(f, busy, skip + 1)[i], busy[j]));
                }
            }
        } else if b.start_ts <= f.start_ts && b.end_ts >= f.end_ts {
        } else if b.start_ts > f.start_ts && b.end_ts < f.end_ts {
            let right = right_piece(f, b);
            lemma_free_minus_disjoint(right, busy, skip + 1);
            lemma_free_minus_within(right, busy, skip + 1);
            assert(r == seq![crate::event_instance::left_piece(f, b)] + free_minus(
                right,
                busy,
                skip + 1,
            ));
            assert forall|i: int, j: int|
                #![trigger r[i], busy[j]]
                0 <= i < r.len() && skip <= j < busy.len() implies disjoint(r[i], busy[j]) by {
                if i == 0 {
                    assert(busy[skip].start_ts <= busy[j].start_ts);
                } else {
                    assert(r[i] == free_minus(right, busy, skip + 1)[i - 1]);
                    if j == skip {
                        assert(right.start_ts <= free_minus(right, busy, skip + 1)[i
                            - 1].start_ts);
                    } else {
                        assert(disjoint(free_minus(right, busy, skip + 1)[i - 1], busy[j]));
                    }
                }
            }
        } else if f.start_ts >= b.start_ts {
            let right = right_piece(f, b);
            lemma_free_minus_disjoint(right, busy, skip + 1);
            lemma_free_minus_within(right, busy, skip + 1);
            assert(r == free_minus(right, busy, skip + 1));
            assert forall|i: int, j: int|
                #![trigger r[i], busy[j]]
                0 <= i < r.len() && skip <= j < busy.len() implies disjoint(r[i], busy[j]) by {
                assert(r[i] == free_minus(right, busy, skip + 1)[i]);
                if j == skip {
                    assert(right.start_ts <= free_minus(right, busy, skip + 1)[i].start_ts);
                } else {
                    assert(disjoint(free_minus(right, busy, skip + 1)[i], busy[j]));
                }
            }
        } else {
            assert forall|i: int, j: int|
                #![trigger r[i], busy[j]]
                0 <= i < r.len() && skip <= j < busy.len() implies disjoint(r[i], busy[j]) by {
                assert(busy[skip].start_ts <= busy[j].start_ts);
            }
        }
    }
}

/// Law: after removing a sorted busy set from a free set, no remaining free
/// interval shares any time with any busy interval: each free interval ends
/// at or before the busy one starts, or starts at or after it ends.
pub proof fn lemma_subtract_all_disjoint(frees: Seq<EventInstance>, busy: Seq<EventInstance>)
    requires
        sorted_by_start_ts(busy),
    ensures
        forall|i: int, j: int|
            #![trigger subtract_all(frees, busy, 0)[i], busy[j]]
            0 <= i < subtract_all(frees, busy, 0).len() && 0 <= j < busy.len() ==> disjoint(
                subtract_all(frees, busy, 0)[i],
                busy[j],
            ),
    decreases frees.len(),
{
    if frees.len() == 0 {
    } else {
        let fp = frees.drop_last();
        lemma_subtract_all_disjoint(fp, busy);
        lemma_free_minus_disjoint(frees.last(), busy, 0);
        let prefix = subtract_all(fp, busy, 0);
        let tail = free_minus(frees.last(), busy, 0);
        assert(subtract_all(frees, busy, 0) == prefix + tail);
        assert forall|i: int, j: int|
            #![trigger subtract_all(frees, busy, 0)[i], busy[j]]
            0 <= i < subtract_all(frees, busy, 0).len() && 0 <= j < busy.len() implies disjoint(
            subtract_all(frees, busy, 0)[i],
            busy[j],
        ) by {
            if i < prefix.len() {
                assert(subtract_all(frees, busy, 0)[i] == prefix[i]);
                assert(disjoint(prefix[i], busy[j]));
            } else {
                assert(subtract_all(frees, busy, 0)[i] == tail[i - prefix.len()]);
                assert(disjoint(tail[i - prefix.len()], busy[j]));
            }
        }
    }
}

/// Law: subtracting an empty busy set (or one whose entries are all
/// skipped) leaves the free set unchanged.
pub proof fn lemma_subtract_nothing(frees: Seq<EventInstance>, busy: Seq<EventInstance>, skip: int)
    requires
        skip >= busy.len(),
    ensures
        subtract_all(frees, busy, skip) == frees,
    decreases frees.len(),
{
    if frees.len() == 0 {
        assert(subtract_all(frees, busy, skip) =~= frees);
    } else {
        lemma_subtract_nothing(frees.drop_last(), busy, skip);
        assert(free_minus(frees.last(), busy, skip) == seq![frees.last()]);
        assert(frees.drop_last() + seq![frees.last()] =~= frees);
    }
}

proof fn lemma_free_minus_of_disjoint(p: EventInstance, busy: Seq<EventInstance>, skip: int)
    requires
        0 <= skip,
        forall|j: int| skip <= j < busy.len() ==> disjoint(p, #[trigger] busy[j]),
    ensures
        free_minus(p, busy, skip) == seq![p],
    decreases busy.len() - skip,
{
    if skip >= busy.len() {
    } else {
        let b = busy[skip];
        assert(disjoint(p, b));
        if b.start_ts >= p.end_ts {
        } else {
            assert(b.end_ts <= p.start_ts);
            assert(crate::event_instance::subtract_no_overlap(p, b));
            lemma_free_minus_of_disjoint(p, busy, skip + 1);
        }
    }
}

proof fn lemma_subtract_all_of_disjoint(ys: Seq<EventInstance>, busy: Seq<EventInstance>)
    requires
        forall|i: int, j: int|
            #![trigger ys[i], busy[j]]
            0 <= i < ys.len() && 0 <= j < busy.len() ==> disjoint(ys[i], busy[j]),
    ensures
        subtract_all(ys, busy, 0) == ys,
    decreases ys.len(),
{
    if ys.len() == 0 {
        assert(subtract_all(ys, busy, 0) =~= ys);
    } else {
        let yp = ys.drop_last();
        assert(forall|i: int| 0 <= i < yp.len() ==> #[trigger] yp[i] == ys[i]);
        lemma_subtract_all_of_disjoint(yp, busy);
        lemma_free_minus_of_disjoint(ys.last(), busy, 0);
        assert(yp + seq![ys.last()] =~= ys);
    }
}

/// Law: subtracting the same sorted busy set twice gives the same result as
/// subtracting it once.
pub proof fn lemma_subtract_idempotent(frees: Seq<EventInstance>, busy: Seq<EventInstance>)
    requires
        sorted_by_start_ts(busy),
    ensures
        subtract_all(subtract_all(frees, busy, 0), busy, 0) == subtract_all(frees, busy, 0),
{
    lemma_subtract_all_disjoint(frees, busy);
    lemma_subtract_all_of_disjoint(subtract_all(frees, busy, 0), busy);
}

/// Law: two touching instances `[a, b)` and `[b, c)` with the same tag
/// coalesce into the single instance `[a, c)`.
pub proof fn lemma_touching_coalesce(a: i64, b: i64, c: i64, t: bool)
    requires
        a <= b,
        b <= c,
    ensures
        normalized(seq![interval(a, b, t), interval(b, c, t)]) == seq![interval(a, c, t)],
{
    let x1 = interval(a, b, t);
    let x2 = interval(b, c, t);
    let s = seq![x1, x2];
    assert(s.drop_last() =~= seq![x1]);
    assert(s.last() == x2);
    crate::event_instance::lemma_sort_singleton(x1);
    assert(sort_by_start(s) == insert_by_start(seq![x1], x2));
    assert(seq![x1].drop_first() =~= Seq::<EventInstance>::empty());
    assert(insert_by_start(Seq::<EventInstance>::empty(), x2) == seq![x2]);
    assert(insert_by_start(seq![x1], x2) =~= s);
    assert(coalesce(s) == coalesce_step(coalesce(seq![x1]), x2));
    assert(mergeable(x2, x1));
    assert(crate::event_instance::merged(x2, x1) == interval(a, c, t));
    assert(coalesce_step(seq![x1], x2) =~= seq![interval(a, c, t)]);
}

/// Law: a busy interval exactly equal to a (non-empty) free interval wipes
/// the free set out entirely.
pub proof fn lemma_exact_busy_empties_free(f: EventInstance, b: EventInstance)
    requires
        b.start_ts == f.start_ts,
        b.end_ts == f.end_ts,
        f.start_ts < f.end_ts,
    ensures
        subtract_all(seq![f], seq![b], 0) == Seq::<EventInstance>::empty(),
{
    let fs = seq![f];
    assert(fs.drop_last() =~= Seq::<EventInstance>::empty());
    assert(fs.last() == f);
    assert(subtract_all(Seq::<EventInstance>::empty(), seq![b], 0)
        == Seq::<EventInstance>::empty());
    assert(!crate::event_instance::subtract_no_overlap(f, b));
    assert(free_minus(f, seq![b], 0) == Seq::<EventInstance>::empty());
    assert(Seq::<EventInstance>::empty() + Seq::<EventInstance>::empty()
        =~= Seq::<EventInstance>::empty());
}

} // verus!
