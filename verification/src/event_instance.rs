//! Occurrences of calendar events and the sorted, coalesced interval set
//! (`CompatibleInstances`) that the free/busy pipeline is built on.

use std::collections::VecDeque;
use vstd::prelude::*;

verus! {

/// One concrete occurrence of a calendar event: the half-open time range
/// `[start_ts, end_ts)` in milliseconds since the epoch, tagged busy or free.
#[derive(Clone, Copy, Debug, PartialEq, Eq, Structural)]
pub struct EventInstance {
    pub start_ts: i64,
    pub end_ts: i64,
    pub busy: bool,
}

/// Overlap test used throughout: closed on both ends, so instances that
/// merely touch (`a.end_ts == b.start_ts`) still count as overlapping.
pub open spec fn overlaps(a: EventInstance, b: EventInstance) -> bool {
    a.start_ts <= b.end_ts && a.end_ts >= b.start_ts
}

/// Two instances coalesce into one interval when they carry the same tag and
/// overlap (or touch).
pub open spec fn mergeable(a: EventInstance, b: EventInstance) -> bool {
    a.busy == b.busy && overlaps(a, b)
}

/// The union interval of two mergeable instances.
pub open spec fn merged(a: EventInstance, b: EventInstance) -> EventInstance {
    EventInstance {
        start_ts: if a.start_ts <= b.start_ts {
            a.start_ts
        } else {
            b.start_ts
        },
        end_ts: if a.end_ts >= b.end_ts {
            a.end_ts
        } else {
            b.end_ts
        },
        busy: a.busy,
    }
}

/// `x` placed into `s` directly before the first entry whose `start_ts`
/// exceeds `x.start_ts`; among equal keys, entries already present stay first.
pub open spec fn insert_by_start(s: Seq<EventInstance>, x: EventInstance) -> Seq<EventInstance>
    decreases s.len(),
{
    if s.len() == 0 {
        seq![x]
    } else if s[0].start_ts <= x.start_ts {
        seq![s[0]] + insert_by_start(s.drop_first(), x)
    } else {
        seq![x] + s
    }
}

/// Stable sort of instances by ascending `start_ts`: the unique reordering
/// that a stable sort produces.
pub open spec fn sort_by_start(s: Seq<EventInstance>) -> Seq<EventInstance>
    decreases s.len(),
{
    if s.len() == 0 {
        Seq::<EventInstance>::empty()
    } else {
        insert_by_start(sort_by_start(s.drop_last()), s.last())
    }
}

/// One step of the coalescing fold: `x` either merges into the last entry of
/// the accumulator or is appended after it.
pub open spec fn coalesce_step(acc: Seq<EventInstance>, x: EventInstance) -> Seq<EventInstance> {
    if acc.len() == 0 {
        seq![x]
    } else if mergeable(x, acc.last()) {
        acc.update(acc.len() - 1, merged(x, acc.last()))
    } else {
        acc.push(x)
    }
}

/// Left fold of `coalesce_step` over a sequence.
pub open spec fn coalesce(s: Seq<EventInstance>) -> Seq<EventInstance>
    decreases s.len(),
{
    if s.len() == 0 {
        Seq::<EventInstance>::empty()
    } else {
        coalesce_step(coalesce(s.drop_last()), s.last())
    }
}

/// What `CompatibleInstances::new` computes: sort by `start_ts`, then fold,
/// merging each instance into the tail of the accumulator where possible.
pub open spec fn normalized(s: Seq<EventInstance>) -> Seq<EventInstance> {
    coalesce(sort_by_start(s))
}

/// The left remainder of removing `b` from `f`: what precedes `b`.
pub open spec fn left_piece(f: EventInstance, b: EventInstance) -> EventInstance {
    EventInstance { start_ts: f.start_ts, end_ts: b.start_ts, busy: false }
}

/// The right remainder of removing `b` from `f`: what follows `b`.
pub open spec fn right_piece(f: EventInstance, b: EventInstance) -> EventInstance {
    EventInstance { start_ts: b.end_ts, end_ts: f.end_ts, busy: false }
}

/// `f` and `b` do not share any time: they are disjoint, or touch exactly at
/// the boundary `f.start_ts == b.end_ts`.
pub open spec fn subtract_no_overlap(f: EventInstance, b: EventInstance) -> bool {
    !overlaps(f, b) || f.start_ts == b.end_ts
}

/// `b` covers all of `f`.
pub open spec fn subtract_empty(f: EventInstance, b: EventInstance) -> bool {
    !subtract_no_overlap(f, b) && b.start_ts <= f.start_ts && b.end_ts >= f.end_ts
}

/// `b` lies strictly inside `f`, leaving a remainder on both sides.
pub open spec fn subtract_split(f: EventInstance, b: EventInstance) -> bool {
    !subtract_no_overlap(f, b) && !subtract_empty(f, b) && b.start_ts > f.start_ts && b.end_ts
        < f.end_ts
}

/// `b` covers the beginning of `f`, leaving only the right remainder.
pub open spec fn subtract_overlap_beginning(f: EventInstance, b: EventInstance) -> bool {
    !subtract_no_overlap(f, b) && !subtract_empty(f, b) && !subtract_split(f, b) && f.start_ts
        >= b.start_ts
}

/// `b` covers the end of `f`, leaving only the left remainder.
pub open spec fn subtract_overlap_end(f: EventInstance, b: EventInstance) -> bool {
    !subtract_no_overlap(f, b) && !subtract_empty(f, b) && !subtract_split(f, b) && f.start_ts
        < b.start_ts
}

/// What remains of the single instance `f` after removing every instance of
/// `busy` from position `skip` on.  The scan stops as soon as a busy
/// instance starts at or after the end of `f`, relying on `busy` being
/// sorted by `start_ts`; a busy instance strictly inside the remainder
/// splits it, and the scan continues on the right half.
pub open spec fn free_minus(f: EventInstance, busy: Seq<EventInstance>, skip: int) -> Seq<
    EventInstance,
>
    decreases busy.len() - skip,
{
    if skip < 0 || skip >= busy.len() {
        seq![f]
    } else {
        let b = busy[skip];
        if b.start_ts >= f.end_ts {
            seq![f]
        } else if subtract_no_overlap(f, b) {
            free_minus(f, busy, skip + 1)
        } else if b.start_ts <= f.start_ts && b.end_ts >= f.end_ts {
            Seq::<EventInstance>::empty()
        } else if b.start_ts > f.start_ts && b.end_ts < f.end_ts {
            seq![left_piece(f, b)] + free_minus(right_piece(f, b), busy, skip + 1)
        } else if f.start_ts >= b.start_ts {
            free_minus(right_piece(f, b), busy, skip + 1)
        } else {
            seq![left_piece(f, b)]
        }
    }
}

/// `free_minus` applied to each instance of `frees` in turn, results
/// concatenated in order.
pub open spec fn subtract_all(
    frees: Seq<EventInstance>,
    busy: Seq<EventInstance>,
    skip: int,
) -> Seq<EventInstance>
    decreases frees.len(),
{
    if frees.len() == 0 {
        Seq::<EventInstance>::empty()
    } else {
        subtract_all(frees.drop_last(), busy, skip) + free_minus(frees.last(), busy, skip)
    }
}

/// A list of `EventInstance`s sorted by lowest `start_ts` first, in which
/// instances with the same tag never overlap: overlapping or touching
/// same-tag inputs have been coalesced into single intervals.
#[derive(Debug, PartialEq)]
pub struct CompatibleInstances {
    events: VecDeque<EventInstance>,
}

impl View for CompatibleInstances {
    type V = Seq<EventInstance>;

    closed spec fn view(&self) -> Seq<EventInstance> {
        self.events@
    }
}

impl EventInstance {
    pub fn has_overlap(instance1: &Self, instance2: &Self) -> (r: bool)
        ensures
            r == overlaps(*instance1, *instance2),
    {
        instance1.start_ts <= instance2.end_ts && instance1.end_ts >= instance2.start_ts
    }

    pub fn can_merge(instance1: &Self, instance2: &Self) -> (r: bool)
        ensures
            r == mergeable(*instance1, *instance2),
    {
        instance1.busy == instance2.busy && Self::has_overlap(instance1, instance2)
    }

    /// Merges two `EventInstance`s into a new `EventInstance` if they overlap
    /// and carry the same tag.
    pub fn merge(instance1: &Self, instance2: &Self) -> (r: Option<Self>)
        ensures
            mergeable(*instance1, *instance2) ==> r == Some(merged(*instance1, *instance2)),
            !mergeable(*instance1, *instance2) ==> r is None,
    {
        if !Self::can_merge(instance1, instance2) {
            return None;
        }
        Some(
            Self {
                start_ts: if instance1.start_ts <= instance2.start_ts {
                    instance1.start_ts
                } else {
                    instance2.start_ts
                },
                end_ts: if instance1.end_ts >= instance2.end_ts {
                    instance1.end_ts
                } else {
                    instance2.end_ts
                },
                busy: instance1.busy,
            },
        )
    }
}

/// `insert_by_start` is the identity on the surrounding entries: inserting at
/// the position `j` of the first entry with a larger `start_ts` splices `x`
/// between the prefix and the suffix.
pub(crate) proof fn lemma_insert_by_start_at(s: Seq<EventInstance>, x: EventInstance, j: int)
    requires
        0 <= j <= s.len(),
        forall|i: int| 0 <= i < j ==> #[trigger] s[i].start_ts <= x.start_ts,
        j < s.len() ==> s[j].start_ts > x.start_ts,
    ensures
        insert_by_start(s, x) == s.take(j) + seq![x] + s.skip(j),
    decreases j,
{
    if j == 0 {
        if s.len() == 0 {
            assert(s.take(0) + seq![x] + s.skip(0) =~= seq![x]);
        } else {
            assert(s.take(0) + seq![x] + s.skip(0) =~= seq![x] + s);
        }
    } else {
        let t = s.drop_first();
        assert(forall|i: int| 0 <= i < j - 1 ==> #[trigger] t[i].start_ts <= x.start_ts);
        lemma_insert_by_start_at(t, x, j - 1);
        assert(seq![s[0]] + (t.take(j - 1) + seq![x] + t.skip(j - 1)) =~= s.take(j) + seq![x]
            + s.skip(j));
    }
}

/// Unfolding of `coalesce` over a `push`.
proof fn lemma_coalesce_push(s: Seq<EventInstance>, x: EventInstance)
    ensures
        coalesce(s.push(x)) == coalesce_step(coalesce(s), x),
{
    assert(s.push(x).drop_last() =~= s);
    assert(s.push(x).last() == x);
}

impl CompatibleInstances {
    /// Normalizes arbitrary instances into a sorted, coalesced list: sorts by
    /// `start_ts` and merges each instance into its predecessor whenever the
    /// two carry the same tag and overlap or touch.
    pub fn new(events: Vec<EventInstance>) -> (res: Self)
        ensures
            res@ == normalized(events@),
    {
        let ghost all: Seq<EventInstance> = events@;
        // Stable insertion sort by start_ts.
        let mut sorted: Vec<EventInstance> = Vec::new();
        let mut k: usize = 0;
        while k < events.len()
            invariant
                k <= events.len(),
                events@ == all,
                sorted@ == sort_by_start(all.take(k as int)),
            decreases events.len() - k,
        {
            let x = events[k];
            let mut j: usize = 0;
            while j < sorted.len() && sorted[j].start_ts <= x.start_ts
                invariant
                    j <= sorted.len(),
                    forall|i: int| 0 <= i < j ==> #[trigger] sorted@[i].start_ts <= x.start_ts,
                decreases sorted.len() - j,
            {
                j += 1;
            }
            proof {
                lemma_insert_by_start_at(sorted@, x, j as int);
                assert(all.take(k + 1).drop_last() =~= all.take(k as int));
                assert(all.take(k + 1).last() == all[k as int]);
            }
            sorted.insert(j, x);
            proof {
                assert(sorted@ =~= sort_by_start(all.take(k as int)).take(j as int) + seq![x]
                    + sort_by_start(all.take(k as int)).skip(j as int));
            }
            k += 1;
        }
        proof {
            assert(all.take(all.len() as int) =~= all);
        }
        // Coalescing fold: merge each instance into the current tail where
        // the two are compatible.
        let mut compatible_events: VecDeque<EventInstance> = VecDeque::new();
        let mut k: usize = 0;
        while k < sorted.len()
            invariant
                k <= sorted.len(),
                sorted@ == sort_by_start(all),
                compatible_events@ == coalesce(sorted@.take(k as int)),
            decreases sorted.len() - k,
        {
            let x = sorted[k];
            proof {
                lemma_coalesce_push(sorted@.take(k as int), x);
                assert(sorted@.take(k + 1) =~= sorted@.take(k as int).push(x));
            }
            if compatible_events.len() == 0 {
                compatible_events.push_back(x);
            } else {
                let last = compatible_events[compatible_events.len() - 1];
                if let Some(m) = EventInstance::merge(&x, &last) {
                    compatible_events.pop_back();
                    compatible_events.push_back(m);
                    proof {
                        assert(compatible_events@ =~= coalesce(sorted@.take(k as int)).update(
                            coalesce(sorted@.take(k as int)).len() - 1,
                            m,
                        ));
                    }
                } else {
                    compatible_events.push_back(x);
                }
            }
            k += 1;
        }
        proof {
            assert(sorted@.take(sorted@.len() as int) =~= sorted@);
        }
        Self { events: compatible_events }
    }

    pub fn len(&self) -> (n: usize)
        ensures
            n == self@.len(),
    {
        self.events.len()
    }

    pub fn is_empty(&self) -> (r: bool)
        ensures
            r == (self@.len() == 0),
    {
        self.events.len() == 0
    }

    pub fn get(&self, index: usize) -> (r: Option<&EventInstance>)
        ensures
            index < self@.len() ==> r == Some(&self@[index as int]),
            index >= self@.len() ==> r is None,
    {
        if index < self.events.len() {
            Some(&self.events[index])
        } else {
            None
        }
    }

    /// The underlying list, sorted by lowest `start_ts` first.
    pub fn inner(self) -> (r: VecDeque<EventInstance>)
        ensures
            r@ == self@,
    {
        self.events
    }

    /// Prepends `instance` iff it ends before (or exactly where) the current
    /// first entry starts; never coalesces.
    pub fn push_front(&mut self, instance: EventInstance) -> (ok: bool)
        ensures
            ok == (old(self)@.len() == 0 || instance.end_ts <= old(self)@[0].start_ts),
            ok ==> final(self)@ == seq![instance] + old(self)@,
            !ok ==> final(self)@ == old(self)@,
    {
        if self.events.len() > 0 {
            let first = self.events[0];
            // There is overlap, so cannot be added
            if first.start_ts < instance.end_ts {
                return false;
            }
        }
        self.events.push_front(instance);
        true
    }

    /// Appends `instance` iff the current last entry ends before (or exactly
    /// where) it starts; never coalesces.
    pub fn push_back(&mut self, instance: EventInstance) -> (ok: bool)
        ensures
            ok == (old(self)@.len() == 0 || old(self)@.last().end_ts <= instance.start_ts),
            ok ==> final(self)@ == old(self)@.push(instance),
            !ok ==> final(self)@ == old(self)@,
    {
        if self.events.len() > 0 {
            let last_instance = self.events[self.events.len() - 1];
            // There is overlap, so cannot be added
            if last_instance.end_ts > instance.start_ts {
                return false;
            }
        }
        self.events.push_back(instance);
        true
    }
}

/// How one (busy) instance relates to one free instance under subtraction,
/// together with what remains of the free instance.
#[derive(PartialEq, Debug)]
pub enum SubtractInstanceResult {
    /// The instances do not share any time.
    NoOverlap,
    /// The busy instance covers the beginning of the free instance; the
    /// right remainder is kept.
    OverlapBeginning(CompatibleInstances),
    /// The busy instance covers the end of the free instance; the left
    /// remainder is kept.
    OverlapEnd(CompatibleInstances),
    /// The busy instance lies strictly inside the free instance; both the
    /// left and the right remainder are kept.
    Split(CompatibleInstances),
    /// The busy instance covers the whole free instance.
    Empty,
}

pub(crate) proof fn lemma_sort_singleton(x: EventInstance)
    ensures
        sort_by_start(seq![x]) == seq![x],
        coalesce(seq![x]) == seq![x],
{
    let empty = Seq::<EventInstance>::empty();
    assert(seq![x].drop_last() =~= empty);
    assert(seq![x].last() == x);
    assert(sort_by_start(empty) == empty);
    assert(insert_by_start(empty, x) == seq![x]);
    assert(sort_by_start(seq![x]) == insert_by_start(sort_by_start(seq![x].drop_last()), x));
    assert(coalesce(empty) == empty);
    assert(coalesce(seq![x]) == coalesce_step(coalesce(seq![x].drop_last()), x));
}

proof fn lemma_normalized_singleton(x: EventInstance)
    ensures
        normalized(seq![x]) == seq![x],
{
    lemma_sort_singleton(x);
}

proof fn lemma_normalized_pair(a: EventInstance, b: EventInstance)
    requires
        a.start_ts < b.start_ts,
        !mergeable(b, a),
    ensures
        normalized(seq![a, b]) == seq![a, b],
{
    let empty = Seq::<EventInstance>::empty();
    let s = seq![a, b];
    assert(s.drop_last() =~= seq![a]);
    assert(s.last() == b);
    lemma_sort_singleton(a);
    assert(sort_by_start(s) == insert_by_start(sort_by_start(s.drop_last()), b));
    assert(seq![a].drop_first() =~= empty);
    assert(insert_by_start(empty, b) == seq![b]);
    assert(insert_by_start(seq![a], b) == seq![seq![a][0]] + insert_by_start(
        seq![a].drop_first(),
        b,
    ));
    assert(insert_by_start(seq![a], b) =~= seq![a, b]);
    assert(coalesce(s) == coalesce_step(coalesce(s.drop_last()), b));
    assert(coalesce_step(seq![a], b) =~= seq![a, b]);
}

impl EventInstance {
    /// Classifies the removal of `instance` from `free_instance` and returns
    /// the remaining free time.  Touching at the boundary counts as no
    /// overlap; remainders carry the free tag.
    pub fn remove_instance(free_instance: &Self, instance: &Self) -> (r: SubtractInstanceResult)
        ensures
            subtract_no_overlap(*free_instance, *instance) ==> r
                == SubtractInstanceResult::NoOverlap,
            subtract_empty(*free_instance, *instance) ==> r == SubtractInstanceResult::Empty,
            subtract_split(*free_instance, *instance) ==> (r
                matches SubtractInstanceResult::Split(e) && e@ == normalized(
                seq![
                    left_piece(*free_instance, *instance),
                    right_piece(*free_instance, *instance),
                ],
            )),
            subtract_split(*free_instance, *instance) && instance.start_ts < instance.end_ts ==> (r
                matches SubtractInstanceResult::Split(e) && e@ == seq![
                    left_piece(*free_instance, *instance),
                    right_piece(*free_instance, *instance),
                ]),
            subtract_overlap_beginning(*free_instance, *instance) ==> (r
                matches SubtractInstanceResult::OverlapBeginning(e) && e@ == seq![
                    right_piece(*free_instance, *instance),
                ]),
            subtract_overlap_end(*free_instance, *instance) ==> (r
                matches SubtractInstanceResult::OverlapEnd(e) && e@ == seq![
                    left_piece(*free_instance, *instance),
                ]),
    {
        if !Self::has_overlap(free_instance, instance) || free_instance.start_ts
            == instance.end_ts {
            return SubtractInstanceResult::NoOverlap;
        }
        if instance.start_ts <= free_instance.start_ts && instance.end_ts
            >= free_instance.end_ts {
            return SubtractInstanceResult::Empty;
        }
        if instance.start_ts > free_instance.start_ts && instance.end_ts < free_instance.end_ts {
            let free_instance_1 = Self {
                start_ts: free_instance.start_ts,
                end_ts: instance.start_ts,
                busy: false,
            };
            let free_instance_2 = Self {
                start_ts: instance.end_ts,
                end_ts: free_instance.end_ts,
                busy: false,
            };
            let mut items: Vec<EventInstance> = Vec::new();
            items.push(free_instance_1);
            items.push(free_instance_2);
            proof {
                assert(items@ =~= seq![
                    left_piece(*free_instance, *instance),
                    right_piece(*free_instance, *instance),
                ]);
            }
            let events = CompatibleInstances::new(items);
            proof {
                if instance.start_ts < instance.end_ts {
                    lemma_normalized_pair(
                        left_piece(*free_instance, *instance),
                        right_piece(*free_instance, *instance),
                    );
                }
            }
            return SubtractInstanceResult::Split(events);
        }
        if free_instance.start_ts >= instance.start_ts {
            let mut items: Vec<EventInstance> = Vec::new();
            items.push(
                Self { start_ts: instance.end_ts, end_ts: free_instance.end_ts, busy: false },
            );
            let e = CompatibleInstances::new(items);
            proof {
                lemma_normalized_singleton(right_piece(*free_instance, *instance));
            }
            SubtractInstanceResult::OverlapBeginning(e)
        } else {
            let mut items: Vec<EventInstance> = Vec::new();
            items.push(
                Self { start_ts: free_instance.start_ts, end_ts: instance.start_ts, busy: false },
            );
            let e = CompatibleInstances::new(items);
            proof {
                lemma_normalized_singleton(left_piece(*free_instance, *instance));
            }
            SubtractInstanceResult::OverlapEnd(e)
        }
    }

    /// Removes every instance of `intances` from position `skip` on out of
    /// `self`, returning the remaining free time in order.
    pub fn remove_instances(&self, intances: &CompatibleInstances, skip: usize) -> (r:
        CompatibleInstances)
        ensures
            r@ == free_minus(*self, intances@, skip as int),
    {
        let ghost target = free_minus(*self, intances@, skip as int);
        let mut out: VecDeque<EventInstance> = VecDeque::new();
        let mut cur: EventInstance = *self;
        let mut i: usize = skip;
        loop
            invariant_except_break
                skip <= i <= intances@.len() || (i == skip && skip >= intances@.len()),
                target == out@ + free_minus(cur, intances@, i as int),
            ensures
                target == out@,
            decreases intances@.len() - i + 1,
        {
            if i >= intances.events.len() {
                out.push_back(cur);
                break;
            }
            let b = intances.events[i];
            if b.start_ts >= cur.end_ts {
                out.push_back(cur);
                break;
            }
            let res = Self::remove_instance(&cur, &b);
            match res {
                SubtractInstanceResult::NoOverlap => {
                    i += 1;
                },
                SubtractInstanceResult::Empty => {
                    break;
                },
                SubtractInstanceResult::Split(_) => {
                    let left = EventInstance {
                        start_ts: cur.start_ts,
                        end_ts: b.start_ts,
                        busy: false,
                    };
                    let right = EventInstance {
                        start_ts: b.end_ts,
                        end_ts: cur.end_ts,
                        busy: false,
                    };
                    proof {
                        assert(out@.push(left) + free_minus(right, intances@, i + 1) =~= out@ + (
                        seq![left] + free_minus(right, intances@, i + 1)));
                    }
                    out.push_back(left);
                    cur = right;
                    i += 1;
                },
                SubtractInstanceResult::OverlapBeginning(_) => {
                    cur = EventInstance { start_ts: b.end_ts, end_ts: cur.end_ts, busy: false };
                    i += 1;
                },
                SubtractInstanceResult::OverlapEnd(_) => {
                    let left = EventInstance {
                        start_ts: cur.start_ts,
                        end_ts: b.start_ts,
                        busy: false,
                    };
                    proof {
                        assert(out@.push(left) =~= out@ + seq![left]);
                    }
                    out.push_back(left);
                    break;
                },
            }
        }
        CompatibleInstances { events: out }
    }
}

impl CompatibleInstances {
    /// Removes every instance of `instances` from position `skip` on out of
    /// each entry of `self`, keeping the order of the remainders.
    pub fn remove_intances(&mut self, instances: &CompatibleInstances, skip: usize)
        ensures
            final(self)@ == subtract_all(old(self)@, instances@, skip as int),
    {
        let ghost orig = self@;
        let mut out: VecDeque<EventInstance> = VecDeque::new();
        let mut k: usize = 0;
        while k < self.events.len()
            invariant
                k <= orig.len(),
                self@ == orig,
                out@ == subtract_all(orig.take(k as int), instances@, skip as int),
            decreases orig.len() - k,
        {
            let f = self.events[k];
            let pieces = f.remove_instances(instances, skip);
            let pd = pieces.inner();
            let ghost pieces_view = pd@;
            let mut j: usize = 0;
            while j < pd.len()
                invariant
                    j <= pd@.len(),
                    pd@ == pieces_view,
                    out@ == subtract_all(orig.take(k as int), instances@, skip as int)
                        + pieces_view.take(j as int),
                decreases pd@.len() - j,
            {
                proof {
                    assert(pieces_view.take(j + 1) =~= pieces_view.take(j as int).push(
                        pieces_view[j as int],
                    ));
                    assert((subtract_all(orig.take(k as int), instances@, skip as int)
                        + pieces_view.take(j as int)).push(pieces_view[j as int]) =~= subtract_all(
                        orig.take(k as int),
                        instances@,
                        skip as int,
                    ) + pieces_view.take(j + 1));
                }
                out.push_back(pd[j]);
                j += 1;
            }
            proof {
                assert(pieces_view.take(pieces_view.len() as int) =~= pieces_view);
                assert(orig.take(k + 1).drop_last() =~= orig.take(k as int));
                assert(orig.take(k + 1).last() == orig[k as int]);
            }
            k += 1;
        }
        proof {
            assert(orig.take(orig.len() as int) =~= orig);
        }
        self.events = out;
    }

    /// What one attempted `push_back` leaves behind: the instance is kept
    /// iff it starts at or after the end of the current last entry.
    pub open spec fn push_back_step(s: Seq<EventInstance>, x: EventInstance) -> Seq<
        EventInstance,
    > {
        if s.len() == 0 || s.last().end_ts <= x.start_ts {
            s.push(x)
        } else {
            s
        }
    }

    /// `push_back_step` folded over `items` in order.
    pub open spec fn extend_fold(s: Seq<EventInstance>, items: Seq<EventInstance>) -> Seq<
        EventInstance,
    >
        decreases items.len(),
    {
        if items.len() == 0 {
            s
        } else {
            Self::push_back_step(Self::extend_fold(s, items.drop_last()), items.last())
        }
    }

    /// Appends each entry of `instances` through `push_back`, silently
    /// dropping entries that would overlap the current last entry.
    pub fn extend(&mut self, instances: CompatibleInstances)
        ensures
            final(self)@ == Self::extend_fold(old(self)@, instances@),
    {
        let ghost orig = self@;
        let items = instances.inner();
        let ghost items_view = items@;
        let mut k: usize = 0;
        while k < items.len()
            invariant
                k <= items_view.len(),
                items@ == items_view,
                self@ == Self::extend_fold(orig, items_view.take(k as int)),
            decreases items_view.len() - k,
        {
            proof {
                assert(items_view.take(k + 1).drop_last() =~= items_view.take(k as int));
                assert(items_view.take(k + 1).last() == items_view[k as int]);
            }
            self.push_back(items[k]);
            k += 1;
        }
        proof {
            assert(items_view.take(items_view.len() as int) =~= items_view);
        }
    }
}

/// The subsequence of instances that are not busy, in order.
pub open spec fn free_part(s: Seq<EventInstance>) -> Seq<EventInstance>
    decreases s.len(),
{
    if s.len() == 0 {
        Seq::<EventInstance>::empty()
    } else if !s.last().busy {
        free_part(s.drop_last()).push(s.last())
    } else {
        free_part(s.drop_last())
    }
}

/// The subsequence of instances that are busy, in order.
pub open spec fn busy_part(s: Seq<EventInstance>) -> Seq<EventInstance>
    decreases s.len(),
{
    if s.len() == 0 {
        Seq::<EventInstance>::empty()
    } else if s.last().busy {
        busy_part(s.drop_last()).push(s.last())
    } else {
        busy_part(s.drop_last())
    }
}

/// Partitions instances by their tag, keeping the free ones first and the
/// busy ones second, each in input order.
pub fn seperate_free_busy_events(instances: Vec<EventInstance>) -> (r: (
    Vec<EventInstance>,
    Vec<EventInstance>,
))
    ensures
        r.0@ == free_part(instances@),
        r.1@ == busy_part(instances@),
{
    let ghost all = instances@;
    let mut free_instances: Vec<EventInstance> = Vec::new();
    let mut busy_instances: Vec<EventInstance> = Vec::new();
    let mut k: usize = 0;
    while k < instances.len()
        invariant
            k <= all.len(),
            instances@ == all,
            free_instances@ == free_part(all.take(k as int)),
            busy_instances@ == busy_part(all.take(k as int)),
        decreases all.len() - k,
    {
        proof {
            assert(all.take(k + 1).drop_last() =~= all.take(k as int));
            assert(all.take(k + 1).last() == all[k as int]);
        }
        let instance = instances[k];
        if instance.busy {
            busy_instances.push(instance);
        } else {
            free_instances.push(instance);
        }
        k += 1;
    }
    proof {
        assert(all.take(all.len() as int) =~= all);
    }
    (free_instances, busy_instances)
}

/// A stored event together with its occurrences within a window.
#[derive(Debug)]
pub struct EventWithInstances {
    pub event: crate::calendar_event::CalendarEvent,
    pub instances: Vec<EventInstance>,
}

/// A user's availability over a window: the free set left after removing
/// the busy set, together with the busy set itself.
pub struct FreeBusy {
    pub free: CompatibleInstances,
    pub busy: CompatibleInstances,
}

/// Builds the free and the busy interval set from raw instances and removes
/// the busy time from the free time: afterwards no free interval shares any
/// time with a busy one.
pub fn get_free_busy(instances: Vec<EventInstance>) -> (r: FreeBusy)
    ensures
        r.busy@ == normalized(busy_part(instances@)),
        r.free@ == subtract_all(
            normalized(free_part(instances@)),
            normalized(busy_part(instances@)),
            0,
        ),
{
    let (free_instances, busy_instances) = seperate_free_busy_events(instances);

    let mut free_instances = CompatibleInstances::new(free_instances);
    let busy_instances = CompatibleInstances::new(busy_instances);

    free_instances.remove_intances(&busy_instances, 0);

    FreeBusy { free: free_instances, busy: busy_instances }
}

} // verus!
