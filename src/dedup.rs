//! A bounded first-in, first-out cache of packet fingerprints.
use vstd::prelude::*;
use std::collections::{HashSet, VecDeque};

verus! {

broadcast use {vstd::std_specs::hash::group_hash_axioms, vstd::std_specs::vecdeque::group_vec_dequeue_axioms};

/// The fingerprints held after offering `fp` to a cache holding `order`
/// (oldest first) with room for `capacity`: a new fingerprint is appended,
/// and the oldest leaves when the cache is over its capacity.
pub open spec fn cache_step(order: Seq<u64>, fp: u64, capacity: nat) -> Seq<u64> {
    if order.contains(fp) {
        order
    } else if order.len() + 1 > capacity {
        order.push(fp).drop_first()
    } else {
        order.push(fp)
    }
}

/// The fingerprints held after offering each of `fps` in turn to an empty
/// cache.
pub open spec fn cache_run(fps: Seq<u64>, capacity: nat) -> Seq<u64>
    decreases fps.len(),
{
    if fps.len() == 0 {
        Seq::empty()
    } else {
        cache_step(cache_run(fps.drop_last(), capacity), fps.last(), capacity)
    }
}

/// Fingerprints of recently seen packets, at most `capacity` of them, the
/// oldest leaving first.
pub struct DupeCache {
    set: HashSet<u64>,
    order: VecDeque<u64>,
    capacity: usize,
}

impl DupeCache {
    /// The fingerprints held, oldest first.
    pub closed spec fn order(&self) -> Seq<u64> {
        self.order@
    }

    /// The fingerprints held, as a set.
    pub closed spec fn members(&self) -> Set<u64> {
        self.set@
    }

    /// The most fingerprints held at once.
    pub closed spec fn cap(&self) -> nat {
        self.capacity as nat
    }

    /// The set and the queue hold the same fingerprints, each once, and no
    /// more than the capacity.
    pub open spec fn wf(&self) -> bool {
        &&& self.cap() >= 1
        &&& self.order().no_duplicates()
        &&& self.order().len() <= self.cap()
        &&& self.members() == self.order().to_set()
    }

    /// An empty cache with room for `capacity` fingerprints.
    pub fn new(capacity: usize) -> (r: DupeCache)
        requires
            capacity >= 1,
        ensures
            r.wf(),
            r.order() == Seq::<u64>::empty(),
            r.cap() == capacity,
    {
        let r = DupeCache { set: HashSet::new(), order: VecDeque::new(), capacity };
        assert(r.order().to_set() =~= Set::<u64>::empty());
        r
    }

    /// How many fingerprints are held.
    pub fn len(&self) -> (r: usize)
        requires
            self.wf(),
        ensures
            r == self.order().len(),
            r == self.members().len(),
    {
        proof {
            self.order().unique_seq_to_set();
        }
        self.order.len()
    }

    /// Whether `fp` is held.
    pub fn contains(&self, fp: u64) -> (r: bool)
        requires
            self.wf(),
        ensures
            r == self.order().contains(fp),
    {
        self.set.contains(&fp)
    }

    /// Offers `fp`: returns whether it was already held (a duplicate);
    /// otherwise it is appended and, over capacity, the oldest is evicted.
    pub fn check_and_insert(&mut self, fp: u64) -> (r: bool)
        requires
            old(self).wf(),
        ensures
            final(self).wf(),
            final(self).cap() == old(self).cap(),
            r == old(self).order().contains(fp),
            r ==> *final(self) == *old(self),
            final(self).order() == cache_step(old(self).order(), fp, old(self).cap()),
            final(self).order().contains(fp),
    {
        if self.set.contains(&fp) {
            return true;
        }
        let ghost before = self.order@;
        self.set.insert(fp);
        self.order.push_back(fp);
        assert(self.order@ == before.push(fp));
        assert(self.set@ =~= self.order@.to_set()) by {
            before.lemma_push_to_set_commute(fp);
        }
        if self.order.len() > self.capacity {
            let oldest = self.order.pop_front();
            match oldest {
                Some(o) => {
                    self.set.remove(&o);
                    let ghost full = before.push(fp);
                    assert(self.order@ =~= full.drop_first());
                    assert(self.set@ =~= self.order@.to_set()) by {
                        assert forall|x: u64| self.set@.contains(x) <==> self.order@.to_set().contains(x) by {
                            if x == o {
                                assert(full[0] == o);
                                if self.order@.contains(x) {
                                    let k = choose|k: int| 0 <= k < self.order@.len() && self.order@[k] == x;
                                    assert(full[k + 1] == x);
                                }
                            } else {
                                if full.contains(x) {
                                    let k = choose|k: int| 0 <= k < full.len() && full[k] == x;
                                    assert(k != 0);
                                    assert(self.order@[k - 1] == x);
                                }
                                if self.order@.contains(x) {
                                    let k = choose|k: int| 0 <= k < self.order@.len() && self.order@[k] == x;
                                    assert(full[k + 1] == x);
                                }
                            }
                        }
                    }
                    assert(self.order@[self.order@.len() - 1] == fp);
                },
                None => {},
            }
        }
        assert(self.order@[self.order@.len() - 1] == fp);
        false
    }
}

/// Offered distinct fingerprints one after another, an empty cache holds
/// the last `min(n, capacity)` of them, in order, each once.
pub proof fn lemma_cache_fill(fps: Seq<u64>, capacity: nat)
    requires
        capacity >= 1,
        fps.no_duplicates(),
    ensures
        cache_run(fps, capacity).len() == if fps.len() < capacity {
            fps.len()
        } else {
            capacity
        },
        cache_run(fps, capacity) == fps.subrange(
            fps.len() - cache_run(fps, capacity).len(),
            fps.len() as int,
        ),
        cache_run(fps, capacity).no_duplicates(),
        cache_run(fps, capacity).to_set().len() == cache_run(fps, capacity).len(),
    decreases fps.len(),
{
    if fps.len() == 0 {
        assert(fps.subrange(0, 0) =~= Seq::<u64>::empty());
    } else {
        let pre = fps.drop_last();
        assert(pre.no_duplicates());
        lemma_cache_fill(pre, capacity);
        let held = cache_run(pre, capacity);
        let n = fps.len();
        let fp = fps.last();
        assert(!held.contains(fp)) by {
            if held.contains(fp) {
                let k = choose|k: int| 0 <= k < held.len() && held[k] == fp;
                assert(pre[pre.len() - held.len() + k] == fp);
                assert(fps[pre.len() - held.len() + k] == fp);
            }
        }
        if held.len() + 1 > capacity {
            assert(held.push(fp).drop_first() =~= fps.subrange(n - capacity, n as int));
        } else {
            assert(held.push(fp) =~= fps.subrange(n - held.len() - 1, n as int));
        }
    }
    cache_run(fps, capacity).unique_seq_to_set();
}

/// A held fingerprint stays held when another is offered, unless it is
/// the oldest and the new one pushes the cache over its capacity; a
/// fingerprint that is not held stays out unless it is the one offered.
pub proof fn lemma_residency(order: Seq<u64>, held: u64, offered: u64, capacity: nat)
    requires
        order.no_duplicates(),
    ensures
        order.contains(held) ==> (cache_step(order, offered, capacity).contains(held) <==> !(
        held == order[0] && !order.contains(offered) && order.len() + 1 > capacity)),
        !order.contains(held) && held != offered ==> !cache_step(
            order,
            offered,
            capacity,
        ).contains(held),
{
    let next = cache_step(order, offered, capacity);
    if order.contains(held) {
        let k = choose|k: int| 0 <= k < order.len() && order[k] == held;
        if !order.contains(offered) && order.len() + 1 > capacity {
            if held == order[0] {
                assert(k == 0);
                if next.contains(held) {
                    let m = choose|m: int| 0 <= m < next.len() && next[m] == held;
                    assert(order.push(offered)[m + 1] == held);
                    if m + 1 < order.len() {
                        assert(order[m + 1] == held);
                    }
                }
            } else {
                assert(k > 0);
                assert(next[k - 1] == held);
            }
        } else if !order.contains(offered) {
            assert(next[k] == held);
        }
    } else if held != offered {
        if next.contains(held) {
            let m = choose|m: int| 0 <= m < next.len() && next[m] == held;
            if !order.contains(offered) && order.len() + 1 > capacity {
                assert(order.push(offered)[m + 1] == held);
                if m + 1 < order.len() {
                    assert(order[m + 1] == held);
                }
            } else if !order.contains(offered) {
                if m < order.len() {
                    assert(order[m] == held);
                }
            }
        }
    }
}

/// The fingerprints held after offering each of `fps` in turn to a cache
/// holding `order`.
pub open spec fn cache_run_from(order: Seq<u64>, fps: Seq<u64>, capacity: nat) -> Seq<u64>
    decreases fps.len(),
{
    if fps.len() == 0 {
        order
    } else {
        cache_step(cache_run_from(order, fps.drop_last(), capacity), fps.last(), capacity)
    }
}

/// How many of `fps` were new (reported as not held) when offered in turn
/// to a cache holding `order`.
pub open spec fn fresh_count(order: Seq<u64>, fps: Seq<u64>, capacity: nat) -> nat
    decreases fps.len(),
{
    if fps.len() == 0 {
        0
    } else {
        fresh_count(order, fps.drop_last(), capacity) + if cache_run_from(
            order,
            fps.drop_last(),
            capacity,
        ).contains(fps.last()) {
            0nat
        } else {
            1nat
        }
    }
}

proof fn lemma_step_wf(order: Seq<u64>, x: u64, capacity: nat)
    requires
        capacity >= 1,
        order.no_duplicates(),
        order.len() <= capacity,
    ensures
        cache_step(order, x, capacity).no_duplicates(),
        cache_step(order, x, capacity).len() <= capacity,
{
    if !order.contains(x) {
        let full = order.push(x);
        assert forall|i: int, j: int| 0 <= i < j < full.len() implies full[i] != full[j] by {
            if j == order.len() {
                assert(full[i] == order[i]);
            } else {
                assert(full[i] == order[i] && full[j] == order[j]);
            }
        }
        if order.len() + 1 > capacity {
            let next = full.drop_first();
            assert forall|i: int, j: int| 0 <= i < j < next.len() implies next[i] != next[j] by {
                assert(next[i] == full[i + 1] && next[j] == full[j + 1]);
            }
        }
    }
}

proof fn lemma_window(start: Seq<u64>, fp: u64, fps: Seq<u64>, capacity: nat)
    requires
        capacity >= 1,
        start.no_duplicates(),
        1 <= start.len() <= capacity,
        start.last() == fp,
        forall|i: int| 0 <= i < fps.len() ==> fps[i] != fp,
    ensures
        cache_run_from(start, fps, capacity).no_duplicates(),
        cache_run_from(start, fps, capacity).len() <= capacity,
        fresh_count(start, fps, capacity) < capacity ==> {
            let s = cache_run_from(start, fps, capacity);
            &&& s.len() >= fresh_count(start, fps, capacity) + 1
            &&& s[s.len() - 1 - fresh_count(start, fps, capacity)] == fp
        },
        fresh_count(start, fps, capacity) >= capacity ==> !cache_run_from(
            start,
            fps,
            capacity,
        ).contains(fp),
    decreases fps.len(),
{
    if fps.len() > 0 {
        let pre = fps.drop_last();
        lemma_window(start, fp, pre, capacity);
        let s = cache_run_from(start, pre, capacity);
        let m = fresh_count(start, pre, capacity);
        let x = fps.last();
        assert(x != fp);
        lemma_step_wf(s, x, capacity);
        let next = cache_step(s, x, capacity);
        if !s.contains(x) {
            let full = s.push(x);
            if m < capacity {
                let k = s.len() - 1 - m;
                if s.len() + 1 > capacity {
                    if k == 0 {
                        assert forall|j: int| 0 <= j < next.len() implies next[j] != fp by {
                            assert(next[j] == full[j + 1]);
                            if j + 1 < s.len() {
                                assert(s[j + 1] != s[0]);
                            }
                        }
                    } else {
                        assert(next[k - 1] == full[k]);
                    }
                } else {
                    assert(next[k] == s[k]);
                }
            } else {
                lemma_residency(s, fp, x, capacity);
            }
        }
    }
}

/// A fingerprint reported new stays held, and is reported as a duplicate,
/// until `capacity` further fingerprints have been reported new; from then
/// on it is no longer held, so offering it again reports it new once more.
pub proof fn lemma_eviction_window(order: Seq<u64>, fp: u64, fps: Seq<u64>, capacity: nat)
    requires
        capacity >= 1,
        order.no_duplicates(),
        order.len() <= capacity,
        !order.contains(fp),
        forall|i: int| 0 <= i < fps.len() ==> fps[i] != fp,
    ensures
        cache_run_from(cache_step(order, fp, capacity), fps, capacity).contains(fp) <==> fresh_count(
            cache_step(order, fp, capacity),
            fps,
            capacity,
        ) < capacity,
{
    let start = cache_step(order, fp, capacity);
    lemma_step_wf(order, fp, capacity);
    assert(start.last() == fp);
    lemma_window(start, fp, fps, capacity);
    let s = cache_run_from(start, fps, capacity);
    let m = fresh_count(start, fps, capacity);
    if m < capacity {
        assert(s[s.len() - 1 - m] == fp);
    }
}

/// A run of calls, each leaving the cache at `cache_step` of the one
/// before (as `DupeCache::check_and_insert` and the hub's checks state),
/// ends where offering the fingerprints in turn does; from an empty cache
/// that is `cache_run`, which `lemma_cache_fill` describes.
pub proof fn lemma_calls_are_run(orders: Seq<Seq<u64>>, fps: Seq<u64>, capacity: nat)
    requires
        orders.len() == fps.len() + 1,
        forall|i: int|
            0 <= i < fps.len() ==> #[trigger] orders[i + 1] == cache_step(orders[i], fps[i], capacity),
    ensures
        orders.last() == cache_run_from(orders[0], fps, capacity),
        orders[0] == Seq::<u64>::empty() ==> orders.last() == cache_run(fps, capacity),
    decreases fps.len(),
{
    if fps.len() > 0 {
        let pre = orders.drop_last();
        assert forall|i: int| 0 <= i < fps.drop_last().len() implies #[trigger] pre[i + 1]
            == cache_step(pre[i], fps.drop_last()[i], capacity) by {
            assert(orders[i + 1] == cache_step(orders[i], fps[i], capacity));
        }
        lemma_calls_are_run(pre, fps.drop_last(), capacity);
        assert(orders[orders.len() - 1] == cache_step(
            orders[fps.len() - 1],
            fps[fps.len() - 1],
            capacity,
        ));
    }
    if orders[0] == Seq::<u64>::empty() {
        lemma_run_from_empty(fps, capacity);
    }
}

proof fn lemma_run_from_empty(fps: Seq<u64>, capacity: nat)
    ensures
        cache_run_from(Seq::<u64>::empty(), fps, capacity) == cache_run(fps, capacity),
    decreases fps.len(),
{
    if fps.len() > 0 {
        lemma_run_from_empty(fps.drop_last(), capacity);
    }
}

} // verus!
