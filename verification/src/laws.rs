//! Laws that span several operations, stated over the transition predicates
//! that the operations' own contracts promise.

use vstd::prelude::*;
use crate::book::{fill_map_update, CancelOrderError, CancellationReport, OrderBook};
use crate::limits::{add_transition, reduce_transition, Limits};
use crate::model::{count_id, first_live, pruned, lemma_count_nonneg};
use crate::primitives::{filled_of, remaining_of, LimitOrder, Oid};

verus! {

/// Time priority within a level: the order a fill selects — the first
/// queued id still on the book — is the oldest resting order of its level.
/// It sits at some queue position before which every id has already left
/// the book, so of any two resting orders at one price on one side, the one
/// queued (and hence submitted) earlier is filled first.
pub proof fn lemma_time_priority(q: Seq<Oid>, m: Map<u64, LimitOrder>, x: Oid)
    requires
        first_live(q, m) == Some(x),
    ensures
        exists|i: int|
            0 <= i < q.len() && q[i] == x && (forall|j: int|
                0 <= j < i ==> !m.contains_key((#[trigger] q[j]).spec_value())),
    decreases q.len(),
{
    if q.len() > 0 {
        if m.contains_key(q[0].spec_value()) {
            assert(q[0] == x && (forall|j: int|
                0 <= j < 0 ==> !m.contains_key((#[trigger] q[j]).spec_value())));
        } else {
            lemma_time_priority(q.drop_first(), m, x);
            let i0 = choose|i: int|
                0 <= i < q.drop_first().len() && q.drop_first()[i] == x && (forall|j: int|
                    0 <= j < i ==> !m.contains_key(
                        (#[trigger] q.drop_first()[j]).spec_value(),
                    ));
            assert(q[i0 + 1] == x && (forall|j: int|
                0 <= j < i0 + 1 ==> !m.contains_key((#[trigger] q[j]).spec_value()))) by {
                assert forall|j: int| 0 <= j < i0 + 1 implies !m.contains_key(
                    (#[trigger] q[j]).spec_value(),
                ) by {
                    if j > 0 {
                        assert(q.drop_first()[j - 1] == q[j]);
                    }
                }
            }
        }
    }
}

/// Idempotence of cancel: cancelling a resting id succeeds with a
/// `Cancelled` report, and cancelling the same id again reports `NotFound`
/// and leaves the book exactly as the first cancel left it.
pub proof fn lemma_cancel_idempotent(
    b0: OrderBook,
    b1: OrderBook,
    b2: OrderBook,
    id: Oid,
    r1: Result<CancellationReport, CancelOrderError>,
    r2: Result<CancellationReport, CancelOrderError>,
)
    requires
        b0.orders@.contains_key(id.spec_value()),
        OrderBook::cancel_post(b0, b1, id, r1),
        OrderBook::cancel_post(b1, b2, id, r2),
    ensures
        r1 matches Ok(rep) && rep.order_id == id && rep.status is Cancelled,
        r2 matches Err(e) && e == CancelOrderError::NotFound(id),
        b2.orders@ == b1.orders@,
        b2.bids == b1.bids,
        b2.asks == b1.asks,
        b2.spread == b1.spread,
{
    assert(!b1.orders@.contains_key(id.spec_value()));
}

/// No level is ever removed from the arena by an add: the arena only grows,
/// and every slot keeps a level at its price.
pub proof fn lemma_arena_stable_add(pre: Limits, post: Limits, order: LimitOrder)
    requires
        pre.wf(),
        post.wf(),
        add_transition(pre, post, order),
    ensures
        pre.slots().len() <= post.slots().len(),
        forall|j: int| 0 <= j < pre.slots().len() ==> (#[trigger] post.slots()[j]) is Some,
        forall|j: int|
            0 <= j < pre.slots().len() ==> (#[trigger] post.level_of(j)).spec_price()
                == pre.level_of(j).spec_price(),
{
}

/// No level is ever removed from the arena by a cancel or a fill either: a
/// drained level only moves to the holding map; the arena keeps its length
/// and every slot its level.
pub proof fn lemma_arena_stable_reduce(pre: Limits, post: Limits, i: int, v: int)
    requires
        pre.wf(),
        post.wf(),
        0 <= i < pre.slots().len(),
        reduce_transition(pre, post, i, v),
    ensures
        post.slots().len() == pre.slots().len(),
        forall|j: int| 0 <= j < pre.slots().len() ==> (#[trigger] post.slots()[j]) is Some,
        forall|j: int|
            0 <= j < pre.slots().len() ==> (#[trigger] post.level_of(j)).spec_price()
                == pre.level_of(j).spec_price(),
{
}

/// Conservation of volume at the order: a fill of volume `v` against a
/// resting order raises its fill counter by exactly `v` and lowers its
/// remaining volume by exactly `v`; a fill of its whole remaining volume
/// takes the order out of the map.
pub proof fn lemma_fill_conserves(m: Map<u64, LimitOrder>, k: u64, v: int)
    requires
        m.contains_key(k),
        0 <= filled_of(m[k]),
        m[k].volume.spec_value() <= u64::MAX,
        0 <= v <= remaining_of(m[k]),
    ensures
        v < remaining_of(m[k]) ==> {
            let m1 = fill_map_update(m, k, v);
            &&& m1.contains_key(k)
            &&& filled_of(m1[k]) == filled_of(m[k]) + v
            &&& remaining_of(m1[k]) == remaining_of(m[k]) - v
            &&& m1[k].id == m[k].id
            &&& m1[k].side == m[k].side
            &&& m1[k].price == m[k].price
            &&& m1[k].volume == m[k].volume
        },
        v == remaining_of(m[k]) ==> !fill_map_update(m, k, v).contains_key(k),
{
}

/// Pruning introduces no ids: a queue free of an id stays free of it after
/// its stale prefix is dropped, and after the head is popped too. This is
/// what lets a caller re-establish the freshness of an unused id across a
/// fill and rest new orders on the book it left behind.
pub proof fn lemma_pruned_count_zero(q: Seq<Oid>, m: Map<u64, LimitOrder>, k: u64)
    requires
        count_id(q, k) == 0,
    ensures
        count_id(pruned(q, m), k) == 0,
        pruned(q, m).len() > 0 ==> count_id(pruned(q, m).drop_first(), k) == 0,
    decreases q.len(),
{
    lemma_count_nonneg(q, k);
    if q.len() > 0 {
        lemma_count_nonneg(q.drop_first(), k);
        if !m.contains_key(q[0].spec_value()) {
            lemma_pruned_count_zero(q.drop_first(), m, k);
        }
    }
}

} // verus!
