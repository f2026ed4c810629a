//! The idle queue in scheduling order: most urgent state first, and among
//! processes in the same state the lower cell first.

use vstd::prelude::*;
use vstd::relations::{sorted_by, total_ordering};
use vstd::seq_lib::{lemma_sorted_unique, to_multiset_build, to_multiset_insert};
use crate::process::IdleProcess;

verus! {

/// The scheduling order as a relation.
pub open spec fn urgency_order() -> spec_fn(IdleProcess, IdleProcess) -> bool {
    |a: IdleProcess, b: IdleProcess| a.precedes(b)
}

/// Whether a queue stands in scheduling order.
pub open spec fn in_urgency_order(queue: Seq<IdleProcess>) -> bool {
    forall|i: int, j: int| 0 <= i < j < queue.len() ==> (#[trigger] queue[i]).precedes(
        #[trigger] queue[j],
    )
}

/// The processes of a queue in scheduling order.
pub open spec fn by_urgency(queue: Seq<IdleProcess>) -> Seq<IdleProcess> {
    queue.sort_by(urgency_order())
}

/// The scheduling order is total: any two processes compare, two that
/// precede each other are the same, and the relation is transitive.
pub proof fn lemma_urgency_order_total()
    ensures
        total_ordering(urgency_order()),
        forall|a: IdleProcess, b: IdleProcess| a.precedes(b) || b.precedes(a),
        forall|a: IdleProcess, b: IdleProcess| a.precedes(b) && b.precedes(a) ==> a == b,
        forall|a: IdleProcess, b: IdleProcess, c: IdleProcess|
            a.precedes(b) && b.precedes(c) ==> a.precedes(c),
{
    assert forall|a: IdleProcess, b: IdleProcess| a.precedes(b) && b.precedes(a) implies a
        == b by {
        assert(a.state.rank() == b.state.rank());
        assert(a.state == b.state);
    }
    let order = urgency_order();
    assert forall|a: IdleProcess, b: IdleProcess| #[trigger]
        order(a, b) && #[trigger] order(b, a) implies a == b by {
        assert(a.precedes(b) && b.precedes(a));
    }
    assert forall|a: IdleProcess, b: IdleProcess, c: IdleProcess| #[trigger]
        order(a, b) && #[trigger] order(b, c) implies order(a, c) by {
        assert(a.precedes(b) && b.precedes(c));
    }
    assert forall|a: IdleProcess, b: IdleProcess| #[trigger]
        order(a, b) || #[trigger] order(b, a) by {
        assert(a.precedes(b) || b.precedes(a));
    }
    assert forall|a: IdleProcess| #[trigger] order(a, a) by {
        assert(a.precedes(a));
    }
}

/// A queue in scheduling order holds the same processes as before, each as
/// often as before, and stands in order; it is the only queue that does.
pub proof fn lemma_by_urgency(queue: Seq<IdleProcess>)
    ensures
        in_urgency_order(by_urgency(queue)),
        by_urgency(queue).to_multiset() == queue.to_multiset(),
        by_urgency(queue).len() == queue.len(),
        forall|other: Seq<IdleProcess>|
            in_urgency_order(other) && other.to_multiset() == queue.to_multiset() ==> other
                == by_urgency(queue),
{
    lemma_urgency_order_total();
    queue.lemma_sort_by_ensures(urgency_order());
    let sorted = by_urgency(queue);
    assert(in_urgency_order(sorted)) by {
        assert forall|i: int, j: int| 0 <= i < j < sorted.len() implies (
        #[trigger] sorted[i]).precedes(#[trigger] sorted[j]) by {
            assert(urgency_order()(sorted[i], sorted[j]));
        }
    }
    queue.to_multiset_ensures();
    sorted.to_multiset_ensures();
    assert forall|other: Seq<IdleProcess>|
        in_urgency_order(other) && other.to_multiset() == queue.to_multiset() implies other
        == sorted by {
        lemma_in_order_unique(other, sorted);
    }
}

/// Two queues in scheduling order that hold the same processes are equal.
pub proof fn lemma_in_order_unique(a: Seq<IdleProcess>, b: Seq<IdleProcess>)
    requires
        in_urgency_order(a),
        in_urgency_order(b),
        a.to_multiset() == b.to_multiset(),
    ensures
        a == b,
{
    lemma_urgency_order_total();
    assert(sorted_by(a, urgency_order()));
    assert(sorted_by(b, urgency_order()));
    lemma_sorted_unique(a, b, urgency_order());
}

/// Puts a queue into scheduling order.
pub fn sort_idle(queue: &mut Vec<IdleProcess>)
    ensures
        final(queue)@ == by_urgency(old(queue)@),
{
    let mut sorted: Vec<IdleProcess> = Vec::new();
    let mut i: usize = 0;
    proof {
        lemma_urgency_order_total();
        assert(queue@.take(0) == sorted@);
    }
    while i < queue.len()
        invariant
            i <= queue.len(),
            *queue == *old(queue),
            in_urgency_order(sorted@),
            sorted@.to_multiset() == queue@.take(i as int).to_multiset(),
        decreases queue.len() - i,
    {
        let p = queue[i];
        let mut j: usize = 0;
        while j < sorted.len() && sorted[j].comes_before(&p)
            invariant
                j <= sorted.len(),
                forall|k: int| 0 <= k < j ==> (#[trigger] sorted@[k]).precedes(p),
            decreases sorted.len() - j,
        {
            j += 1;
        }
        proof {
            let before = sorted@;
            let after = before.insert(j as int, p);
            to_multiset_insert(before, j as int, p);
            to_multiset_build(queue@.take(i as int), p);
            assert(queue@.take(i + 1) == queue@.take(i as int).push(p));
            assert forall|a: int, b: int| 0 <= a < b < after.len() implies (
            #[trigger] after[a]).precedes(#[trigger] after[b]) by {
                if b == j {
                    assert(after[a] == before[a]);
                } else if a == j {
                    assert(after[b] == before[b - 1]);
                    assert(!before[j as int].precedes(p));
                    assert(p.precedes(before[j as int]));
                    if b - 1 > j {
                        assert(before[j as int].precedes(before[b - 1]));
                    }
                } else {
                    let a0 = if a < j { a } else { a - 1 };
                    let b0 = if b < j { b } else { b - 1 };
                    assert(after[a] == before[a0] && after[b] == before[b0]);
                }
            }
        }
        sorted.insert(j, p);
        i += 1;
    }
    proof {
        assert(queue@.take(i as int) == queue@);
        lemma_by_urgency(queue@);
        lemma_in_order_unique(sorted@, by_urgency(queue@));
    }
    *queue = sorted;
}

} // verus!
