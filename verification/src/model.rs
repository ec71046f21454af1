//! The mathematical model behind the book's invariants: sums of remaining
//! volume over a level's queue, occurrence counts of an id in a queue, and
//! the first queued id that still exists in the order map.

use vstd::prelude::*;
use crate::level::Level;
use crate::primitives::{LimitOrder, Oid, remaining_of};

verus! {

/// Every order in the map has a sound fill counter: nothing filled beyond
/// the order's volume, and something still resting.
pub open spec fn orders_sound(m: Map<u64, LimitOrder>) -> bool {
    forall|k: u64| #[trigger] m.contains_key(k) ==> 0 < remaining_of(m[k]) <= u64::MAX
}

/// The live volume of a queue: the remaining volume of each queued id that
/// still exists in the order map; stale ids count nothing.
pub open spec fn live_sum(q: Seq<Oid>, m: Map<u64, LimitOrder>) -> int
    decreases q.len(),
{
    if q.len() == 0 {
        0
    } else {
        (if m.contains_key(q[0].spec_value()) {
            remaining_of(m[q[0].spec_value()])
        } else {
            0
        }) + live_sum(q.drop_first(), m)
    }
}

/// How often an id occurs in a queue.
pub open spec fn count_id(q: Seq<Oid>, id: u64) -> int
    decreases q.len(),
{
    if q.len() == 0 {
        0
    } else {
        (if q[0].spec_value() == id {
            1int
        } else {
            0
        }) + count_id(q.drop_first(), id)
    }
}

/// The first queued id that still exists in the order map.
pub open spec fn first_live(q: Seq<Oid>, m: Map<u64, LimitOrder>) -> Option<Oid>
    decreases q.len(),
{
    if q.len() == 0 {
        None
    } else if m.contains_key(q[0].spec_value()) {
        Some(q[0])
    } else {
        first_live(q.drop_first(), m)
    }
}

pub proof fn lemma_live_sum_push(q: Seq<Oid>, m: Map<u64, LimitOrder>, x: Oid)
    ensures
        live_sum(q.push(x), m) == live_sum(q, m) + (if m.contains_key(x.spec_value()) {
            remaining_of(m[x.spec_value()])
        } else {
            0
        }),
    decreases q.len(),
{
    reveal_with_fuel(live_sum, 3);
    if q.len() == 0 {
        assert(q.push(x).drop_first() =~= Seq::<Oid>::empty());
        assert(q.push(x)[0] == x);
    } else {
        assert(q.push(x).drop_first() =~= q.drop_first().push(x));
        assert(q.push(x)[0] == q[0]);
        lemma_live_sum_push(q.drop_first(), m, x);
    }
}

pub proof fn lemma_count_push(q: Seq<Oid>, id: u64, x: Oid)
    ensures
        count_id(q.push(x), id) == count_id(q, id) + (if x.spec_value() == id {
            1int
        } else {
            0
        }),
    decreases q.len(),
{
    reveal_with_fuel(count_id, 3);
    if q.len() == 0 {
        assert(q.push(x).drop_first() =~= Seq::<Oid>::empty());
        assert(q.push(x)[0] == x);
    } else {
        assert(q.push(x).drop_first() =~= q.drop_first().push(x));
        assert(q.push(x)[0] == q[0]);
        lemma_count_push(q.drop_first(), id, x);
    }
}

pub proof fn lemma_count_nonneg(q: Seq<Oid>, id: u64)
    ensures
        count_id(q, id) >= 0,
    decreases q.len(),
{
    if q.len() > 0 {
        lemma_count_nonneg(q.drop_first(), id);
    }
}

/// A map change away from every id in the queue leaves the live volume as
/// it was: inserting or removing a key that the queue does not hold.
pub proof fn lemma_live_sum_same(q: Seq<Oid>, m1: Map<u64, LimitOrder>, m2: Map<u64, LimitOrder>, k: u64)
    requires
        count_id(q, k) == 0,
        forall|j: u64| j != k ==> (#[trigger] m1.contains_key(j) <==> m2.contains_key(j)),
        forall|j: u64| j != k && #[trigger] m1.contains_key(j) ==> m1[j] == m2[j],
    ensures
        live_sum(q, m1) == live_sum(q, m2),
    decreases q.len(),
{
    if q.len() > 0 {
        lemma_count_nonneg(q.drop_first(), k);
        assert(q[0].spec_value() != k);
        lemma_live_sum_same(q.drop_first(), m1, m2, k);
    }
}

/// Removing from the map an id the queue holds exactly once takes exactly
/// that order's remaining volume out of the queue's live volume.
pub proof fn lemma_live_sum_remove_once(q: Seq<Oid>, m: Map<u64, LimitOrder>, k: u64)
    requires
        count_id(q, k) == 1,
        m.contains_key(k),
    ensures
        live_sum(q, m.remove(k)) == live_sum(q, m) - remaining_of(m[k]),
    decreases q.len(),
{
    if q.len() > 0 {
        if q[0].spec_value() == k {
            lemma_count_nonneg(q.drop_first(), k);
            assert(count_id(q.drop_first(), k) == 0);
            lemma_live_sum_same(q.drop_first(), m, m.remove(k), k);
        } else {
            lemma_live_sum_remove_once(q.drop_first(), m, k);
        }
    }
}

/// Overwriting in the map an id the queue holds exactly once shifts the
/// queue's live volume by the difference of the two remaining volumes.
pub proof fn lemma_live_sum_update_once(
    q: Seq<Oid>,
    m: Map<u64, LimitOrder>,
    k: u64,
    o: LimitOrder,
)
    requires
        count_id(q, k) == 1,
        m.contains_key(k),
    ensures
        live_sum(q, m.insert(k, o)) == live_sum(q, m) - remaining_of(m[k]) + remaining_of(o),
    decreases q.len(),
{
    if q.len() > 0 {
        if q[0].spec_value() == k {
            lemma_count_nonneg(q.drop_first(), k);
            assert(count_id(q.drop_first(), k) == 0);
            lemma_live_sum_same(q.drop_first(), m, m.insert(k, o), k);
        } else {
            lemma_live_sum_update_once(q.drop_first(), m, k, o);
        }
    }
}

pub proof fn lemma_live_sum_nonneg(q: Seq<Oid>, m: Map<u64, LimitOrder>)
    requires
        orders_sound(m),
    ensures
        live_sum(q, m) >= 0,
    decreases q.len(),
{
    if q.len() > 0 {
        lemma_live_sum_nonneg(q.drop_first(), m);
    }
}

/// A queue with live volume holds a live id, so the first live id exists;
/// and the first live id always exists in the map, is queued, and the
/// queue's live volume covers its remaining volume.
pub proof fn lemma_first_live(q: Seq<Oid>, m: Map<u64, LimitOrder>)
    requires
        orders_sound(m),
    ensures
        live_sum(q, m) > 0 ==> first_live(q, m) is Some,
        first_live(q, m) matches Some(x) ==> m.contains_key(x.spec_value()) && count_id(
            q,
            x.spec_value(),
        ) >= 1 && live_sum(q, m) >= remaining_of(m[x.spec_value()]),
    decreases q.len(),
{
    if q.len() > 0 {
        lemma_first_live(q.drop_first(), m);
        lemma_live_sum_nonneg(q.drop_first(), m);
        if m.contains_key(q[0].spec_value()) {
            lemma_count_nonneg(q.drop_first(), q[0].spec_value());
        }
    }
}

/// The volume held in an arena slot; an empty slot holds nothing.
pub open spec fn slot_vol(s: Option<Level>) -> int {
    match s {
        Some(l) => l.spec_volume() as int,
        None => 0,
    }
}

/// The total volume resting on a side: the sum over all arena slots.
pub open spec fn slots_vol_sum(s: Seq<Option<Level>>) -> int
    decreases s.len(),
{
    if s.len() == 0 {
        0
    } else {
        slot_vol(s[0]) + slots_vol_sum(s.drop_first())
    }
}

pub proof fn lemma_slots_vol_sum_update(s: Seq<Option<Level>>, i: int, x: Option<Level>)
    requires
        0 <= i < s.len(),
    ensures
        slots_vol_sum(s.update(i, x)) == slots_vol_sum(s) - slot_vol(s[i]) + slot_vol(x),
    decreases s.len(),
{
    if i == 0 {
        assert(s.update(0, x).drop_first() =~= s.drop_first());
        assert(s.update(0, x)[0] == x);
    } else {
        assert(s.update(i, x).drop_first() =~= s.drop_first().update(i - 1, x));
        assert(s.update(i, x)[0] == s[0]);
        lemma_slots_vol_sum_update(s.drop_first(), i - 1, x);
    }
}

pub proof fn lemma_slots_vol_sum_nonneg(s: Seq<Option<Level>>)
    ensures
        slots_vol_sum(s) >= 0,
    decreases s.len(),
{
    if s.len() > 0 {
        lemma_slots_vol_sum_nonneg(s.drop_first());
    }
}

/// A queue with its stale prefix dropped: front ids that no longer exist in
/// the order map are pruned away until a live id heads the queue or nothing
/// is left. Stale ids behind the first live one stay put; only a walk that
/// reaches them prunes them.
pub open spec fn pruned(q: Seq<Oid>, m: Map<u64, LimitOrder>) -> Seq<Oid>
    decreases q.len(),
{
    if q.len() == 0 {
        q
    } else if m.contains_key(q[0].spec_value()) {
        q
    } else {
        pruned(q.drop_first(), m)
    }
}

} // verus!
