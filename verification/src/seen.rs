//! A bounded memory of the message ids a node has already handled, so that
//! a message that reaches it twice (through two relays, or around a loop of
//! federated relays) is handled once.

use vstd::prelude::*;
use std::collections::{HashSet, VecDeque};

verus! {

broadcast use vstd::std_specs::hash::group_hash_axioms;

/// How many ids the cache can hold: its bound, or one when the bound is zero
/// (the newest id is always kept).
pub open spec fn window(max: nat) -> nat {
    if max == 0 {
        1
    } else {
        max
    }
}

/// The answer of `is_new` and the remembered ids afterwards (oldest first):
/// an id already remembered is not new and changes nothing; a new id is
/// appended, and when the cache is full the oldest id is forgotten first.
pub open spec fn record_id(ids: Seq<u64>, max: nat, id: u64) -> (bool, Seq<u64>) {
    if ids.contains(id) {
        (false, ids)
    } else if ids.len() >= max && ids.len() > 0 {
        (true, ids.drop_first().push(id))
    } else {
        (true, ids.push(id))
    }
}

/// Cache of the ids already handled, oldest first, holding at most `max` ids.
pub struct SeenIds {
    set: HashSet<u64>,
    queue: VecDeque<u64>,
    max: usize,
}

impl View for SeenIds {
    type V = Seq<u64>;

    /// The remembered ids, oldest first.
    closed spec fn view(&self) -> Seq<u64> {
        self.queue@
    }
}

impl SeenIds {
    /// The bound the cache was made with.
    pub closed spec fn max(&self) -> nat {
        self.max as nat
    }

    /// The set and the queue hold the same ids, no id twice, and no more than the window.
    pub closed spec fn wf(&self) -> bool {
        &&& forall|x: u64| self.set@.contains(x) <==> self.queue@.contains(x)
        &&& self.queue@.no_duplicates()
        &&& self.queue@.len() <= window(self.max as nat)
    }

    /// What the invariant tells of the remembered ids: no id twice, and no
    /// more than the window.
    pub proof fn lemma_wf(&self)
        requires
            self.wf(),
        ensures
            self@.no_duplicates(),
            self@.len() <= window(self.max()),
    {
    }

    /// An empty cache that remembers at most `max` ids.
    pub fn new(max: usize) -> (s: SeenIds)
        ensures
            s.wf(),
            s@ == Seq::<u64>::empty(),
            s.max() == max,
    {
        SeenIds { set: HashSet::new(), queue: VecDeque::new(), max }
    }

    /// Records `id`; true when it was not remembered already.
    pub fn is_new(&mut self, id: u64) -> (fresh: bool)
        requires
            old(self).wf(),
        ensures
            final(self).wf(),
            final(self).max() == old(self).max(),
            (fresh, final(self)@) == record_id(old(self)@, old(self).max(), id),
    {
        broadcast use vstd::std_specs::vecdeque::group_vec_dequeue_axioms;
        if self.set.contains(&id) {
            return false;
        }
        let ghost q0 = self.queue@;
        if self.queue.len() >= self.max {
            if let Some(oldest) = self.queue.pop_front() {
                self.set.remove(&oldest);
                proof {
                    assert(self.queue@ == q0.drop_first());
                    assert forall|x: u64| self.set@.contains(x) <==> self.queue@.contains(x) by {
                        if x == oldest {
                            assert(q0[0] == oldest);
                            if self.queue@.contains(x) {
                                let k = choose|k: int| 0 <= k < self.queue@.len() && self.queue@[k] == x;
                                assert(q0[k + 1] == q0[0]);
                            }
                        } else {
                            if q0.contains(x) {
                                let k = choose|k: int| 0 <= k < q0.len() && q0[k] == x;
                                assert(k != 0);
                                assert(self.queue@[k - 1] == x);
                            }
                            if self.queue@.contains(x) {
                                let k = choose|k: int| 0 <= k < self.queue@.len() && self.queue@[k] == x;
                                assert(q0[k + 1] == x);
                            }
                        }
                    }
                }
            }
        }
        let ghost q1 = self.queue@;
        self.set.insert(id);
        self.queue.push_back(id);
        proof {
            assert forall|x: u64| self.set@.contains(x) <==> self.queue@.contains(x) by {
                if q1.contains(x) {
                    let k = choose|k: int| 0 <= k < q1.len() && q1[k] == x;
                    assert(self.queue@[k] == x);
                }
                if self.queue@.contains(x) && x != id {
                    let k = choose|k: int| 0 <= k < self.queue@.len() && self.queue@[k] == x;
                    assert(k < q1.len());
                    assert(q1[k] == x);
                }
                assert(self.queue@[self.queue@.len() - 1] == id);
            }
            assert(!q1.contains(id));
            assert forall|i: int, j: int| 0 <= i < j < self.queue@.len() implies self.queue@[i] != self.queue@[j] by {
                if j == self.queue@.len() - 1 {
                    assert(self.queue@[i] == q1[i]);
                    assert(q1.contains(q1[i]));
                }
            }
        }
        true
    }
}

/// Once `is_new` has seen an id, asking again answers that it is not new,
/// and changes nothing.
pub proof fn lemma_repeat_is_not_new(ids: Seq<u64>, max: nat, id: u64)
    ensures
        record_id(ids, max, id).1.contains(id),
        record_id(record_id(ids, max, id).1, max, id) == (false, record_id(ids, max, id).1),
{
    let after = record_id(ids, max, id).1;
    if !ids.contains(id) {
        assert(after[after.len() - 1] == id);
    }
}

/// Recording an id forgets no other id but the oldest, and that one only
/// when the recorded id is new and the cache already held `max` ids.
pub proof fn lemma_only_oldest_forgotten(ids: Seq<u64>, max: nat, id: u64, x: u64)
    requires
        ids.contains(x),
        x != ids[0] || ids.len() < max || ids.contains(id),
    ensures
        record_id(ids, max, id).1.contains(x),
{
    let k = choose|k: int| 0 <= k < ids.len() && ids[k] == x;
    let after = record_id(ids, max, id).1;
    if !ids.contains(id) && ids.len() >= max && ids.len() > 0 {
        assert(k != 0);
        assert(after[k - 1] == x);
    } else if !ids.contains(id) {
        assert(after[k] == x);
    }
}

/// A cache keeps at most `window(max)` ids: recording an id never makes it exceed that.
pub proof fn lemma_bounded(ids: Seq<u64>, max: nat, id: u64)
    requires
        ids.len() <= window(max),
    ensures
        record_id(ids, max, id).1.len() <= window(max),
{
}

/// The remembered ids after recording each id of `xs` in turn.
pub open spec fn record_all(ids: Seq<u64>, max: nat, xs: Seq<u64>) -> Seq<u64>
    decreases xs.len(),
{
    if xs.len() == 0 {
        ids
    } else {
        record_all(record_id(ids, max, xs[0]).1, max, xs.drop_first())
    }
}

/// How many ids of `xs`, recorded in turn, are admitted as new.
pub open spec fn admitted_count(ids: Seq<u64>, max: nat, xs: Seq<u64>) -> nat
    decreases xs.len(),
{
    if xs.len() == 0 {
        0
    } else {
        (if record_id(ids, max, xs[0]).0 { 1nat } else { 0nat }) + admitted_count(
            record_id(ids, max, xs[0]).1,
            max,
            xs.drop_first(),
        )
    }
}

/// An id at position `k` survives as many admissions as there are free
/// places in the cache plus ids older than it.
proof fn lemma_survives(ids: Seq<u64>, max: nat, xs: Seq<u64>, id: u64, k: int)
    requires
        ids.no_duplicates(),
        ids.len() <= max,
        0 <= k < ids.len(),
        ids[k] == id,
        admitted_count(ids, max, xs) <= k + max - ids.len(),
    ensures
        record_all(ids, max, xs).contains(id),
    decreases xs.len(),
{
    if xs.len() == 0 {
        assert(ids[k] == id);
    } else {
        let x = xs[0];
        let next = record_id(ids, max, x).1;
        if ids.contains(x) {
            lemma_survives(next, max, xs.drop_first(), id, k);
        } else if ids.len() >= max && ids.len() > 0 {
            assert(next[k - 1] == id);
            assert(next.no_duplicates()) by {
                assert forall|i: int, j: int| 0 <= i < j < next.len() implies next[i] != next[j] by {
                    if j == next.len() - 1 {
                        assert(next[i] == ids[i + 1]);
                    } else {
                        assert(next[i] == ids[i + 1] && next[j] == ids[j + 1]);
                    }
                }
            }
            lemma_survives(next, max, xs.drop_first(), id, k - 1);
        } else {
            assert(next[k] == id);
            assert(next.no_duplicates()) by {
                assert forall|i: int, j: int| 0 <= i < j < next.len() implies next[i] != next[j] by {
                    if j == next.len() - 1 {
                        assert(next[i] == ids[i]);
                    }
                }
            }
            lemma_survives(next, max, xs.drop_first(), id, k);
        }
    }
}

/// A duplicate within the window is always rejected: once an id has been
/// admitted into a cache of bound `max` (at least 1), it is still refused
/// after any run of later ids of which fewer than `max` were admitted.
pub proof fn lemma_duplicate_within_window(ids: Seq<u64>, max: nat, id: u64, later: Seq<u64>)
    requires
        ids.no_duplicates(),
        ids.len() <= max,
        max >= 1,
        record_id(ids, max, id).0,
        admitted_count(record_id(ids, max, id).1, max, later) < max,
    ensures
        record_all(record_id(ids, max, id).1, max, later).contains(id),
        !record_id(record_all(record_id(ids, max, id).1, max, later), max, id).0,
{
    let after = record_id(ids, max, id).1;
    assert(after[after.len() - 1] == id);
    assert(after.len() <= max);
    assert(after.no_duplicates()) by {
        assert forall|i: int, j: int| 0 <= i < j < after.len() implies after[i] != after[j] by {
            if ids.len() >= max && ids.len() > 0 {
                if j == after.len() - 1 {
                    assert(after[i] == ids[i + 1]);
                } else {
                    assert(after[i] == ids[i + 1] && after[j] == ids[j + 1]);
                }
            } else if j == after.len() - 1 {
                assert(after[i] == ids[i]);
            }
        }
    }
    lemma_survives(after, max, later, id, after.len() - 1);
}

} // verus!
