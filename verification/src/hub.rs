//! The live-update hub: a fan-out broadcaster. Every newly created
//! product is published to every current subscriber; each subscriber owns
//! an independent bounded queue, read oldest-first. A full queue drops its
//! oldest pending item rather than block the publisher. A new subscriber
//! starts with an empty queue: it never sees products published before it
//! subscribed.

use vstd::prelude::*;
use crate::models::clone_products;
use crate::models::Product;

verus! {

/// One subscriber's registration: its handle and its pending deliveries,
/// oldest first.
struct Subscriber {
    handle: u64,
    queue: Vec<Product>,
}

/// What one publish does to one queue: append the product, dropping the
/// oldest pending item when the queue is already at capacity.
pub open spec fn push_drop(q: Seq<Product>, p: Product, capacity: int) -> Seq<Product> {
    if q.len() < capacity {
        q.push(p)
    } else {
        q.skip(1).push(p)
    }
}

/// Some subscriber in `v` carries `handle`.
pub open spec fn has_handle(v: Seq<(u64, Seq<Product>)>, handle: u64) -> bool {
    exists|i: int| 0 <= i < v.len() && v[i].0 == handle
}

/// The index of the subscriber carrying `handle` (meaningful when
/// `has_handle`).
pub open spec fn handle_index(v: Seq<(u64, Seq<Product>)>, handle: u64) -> int {
    choose|i: int| 0 <= i < v.len() && v[i].0 == handle
}

/// The hub: a registry of per-subscriber queues. Its view is the
/// sequence of (handle, pending deliveries) pairs in subscription order.
pub struct LiveUpdateHub {
    subscribers: Vec<Subscriber>,
    next_handle: u64,
    capacity: usize,
}

impl View for LiveUpdateHub {
    type V = Seq<(u64, Seq<Product>)>;

    closed spec fn view(&self) -> Seq<(u64, Seq<Product>)> {
        self.subscribers@.map_values(|s: Subscriber| (s.handle, s.queue@))
    }
}

impl LiveUpdateHub {
    /// The queue bound every subscriber was registered with.
    pub closed spec fn spec_capacity(&self) -> int {
        self.capacity as int
    }

    /// How many handles have ever been given out.
    pub closed spec fn handles_spent(&self) -> int {
        self.next_handle as int
    }

    #[verifier::type_invariant]
    spec fn wf(&self) -> bool {
        &&& self.capacity >= 1
        &&& forall|i: int, j: int|
            0 <= i < j < self.subscribers@.len() ==> self.subscribers@[i].handle
                != self.subscribers@[j].handle
        &&& forall|i: int|
            0 <= i < self.subscribers@.len() ==> #[trigger] self.subscribers@[i].handle
                < self.next_handle
        &&& forall|i: int|
            0 <= i < self.subscribers@.len() ==> #[trigger] self.subscribers@[i].queue@.len()
                <= self.capacity
    }

    /// How many handles have ever been given out, as a value a caller
    /// can test before subscribing.
    pub fn handles_used(&self) -> (h: u64)
        ensures
            h == self.handles_spent(),
    {
        self.next_handle
    }

    /// A hub with no subscribers; every future queue is bounded by
    /// `capacity`.
    pub fn new(capacity: usize) -> (h: Self)
        requires
            capacity >= 1,
        ensures
            h@ == Seq::<(u64, Seq<Product>)>::empty(),
            h.spec_capacity() == capacity,
            h.handles_spent() == 0,
    {
        let h = LiveUpdateHub { subscribers: Vec::new(), next_handle: 0, capacity };
        proof {
            assert(h@ =~= Seq::<(u64, Seq<Product>)>::empty());
        }
        h
    }

    /// Registers a new subscriber: a fresh handle with an empty queue is
    /// appended; nobody else's queue changes. The fresh queue being
    /// empty is what keeps earlier publishes invisible to a late
    /// subscriber.
    pub fn subscribe(&mut self) -> (handle: u64)
        requires
            old(self).handles_spent() < u64::MAX,
        ensures
            final(self)@ == old(self)@.push((handle, Seq::<Product>::empty())),
            forall|i: int| 0 <= i < old(self)@.len() ==> (#[trigger] old(self)@[i]).0 != handle,
            final(self).spec_capacity() == old(self).spec_capacity(),
            final(self).handles_spent() == old(self).handles_spent() + 1,
    {
        proof {
            use_type_invariant(&*self);
        }
        let handle = self.next_handle;
        let mut subscribers: Vec<Subscriber> = Vec::new();
        std::mem::swap(&mut subscribers, &mut self.subscribers);
        self.next_handle = handle + 1;
        subscribers.push(Subscriber { handle, queue: Vec::new() });
        proof {
            let s = subscribers@;
            let o = old(self).subscribers@;
            assert(s.len() == o.len() + 1);
            assert(s[s.len() - 1].handle == handle);
            assert(s[s.len() - 1].queue@.len() == 0);
            assert forall|a: int, b: int| 0 <= a < b < s.len() implies s[a].handle
                != s[b].handle by {
                if b == s.len() - 1 {
                    assert(s[a] == o[a]);
                    assert(o[a].handle < handle);
                }
            }
            assert forall|k: int| 0 <= k < s.len() implies (#[trigger] s[k]).handle < handle
                + 1 by {
                if k < s.len() - 1 {
                    assert(s[k] == o[k]);
                }
            }
            assert forall|k: int| 0 <= k < s.len() implies (#[trigger] s[k]).queue@.len()
                <= self.capacity by {
                if k < s.len() - 1 {
                    assert(s[k] == o[k]);
                    assert(o[k].queue@.len() <= old(self).capacity);
                }
            }
        }
        self.subscribers = subscribers;
        proof {
            assert(self@ =~= old(self)@.push((handle, Seq::<Product>::empty())));
        }
        handle
    }

    /// Publishes one product: every subscriber's queue receives it,
    /// dropping that subscriber's oldest pending item if its queue is
    /// full. No subscriber joins or leaves, and publishing never blocks
    /// on anyone.
    pub fn publish(&mut self, p: &Product)
        ensures
            final(self)@.len() == old(self)@.len(),
            forall|i: int|
                0 <= i < old(self)@.len() ==> final(self)@[i] == ((#[trigger] old(self)@[i]).0,
                push_drop(old(self)@[i].1, *p, old(self).spec_capacity())),
            final(self).spec_capacity() == old(self).spec_capacity(),
            final(self).handles_spent() == old(self).handles_spent(),
    {
        proof {
            use_type_invariant(&*self);
        }
        let capacity = self.capacity;
        let mut subscribers: Vec<Subscriber> = Vec::new();
        std::mem::swap(&mut subscribers, &mut self.subscribers);
        let mut updated: Vec<Subscriber> = Vec::new();
        let mut i: usize = 0;
        while i < subscribers.len()
            invariant
                0 <= i <= subscribers@.len(),
                updated@.len() == i,
                capacity >= 1,
                forall|k: int|
                    0 <= k < i ==> (#[trigger] updated@[k]).handle == subscribers@[k].handle,
                forall|k: int|
                    0 <= k < i ==> (#[trigger] updated@[k]).queue@ == push_drop(
                        subscribers@[k].queue@,
                        *p,
                        capacity as int,
                    ),
                forall|k: int|
                    0 <= k < i ==> (#[trigger] updated@[k]).queue@.len() <= capacity,
                forall|k: int|
                    0 <= k < subscribers@.len() ==> (#[trigger] subscribers@[k].queue@.len())
                        <= capacity,
            decreases subscribers@.len() - i,
        {
            let sub = &subscribers[i];
            let mut queue = clone_products(&sub.queue);
            if queue.len() >= capacity {
                queue.remove(0);
                proof {
                    assert(queue@ =~= subscribers@[i as int].queue@.skip(1));
                }
            }
            queue.push(p.clone());
            updated.push(Subscriber { handle: sub.handle, queue });
            i = i + 1;
        }
        self.subscribers = updated;
        proof {
            assert(self@.len() == old(self)@.len());
        }
    }

    /// The index of the subscriber carrying `handle`.
    fn find_handle(&self, handle: u64) -> (r: Option<usize>)
        ensures
            match r {
                Option::Some(i) => i < self@.len() && self@[i as int].0 == handle,
                Option::None => !has_handle(self@, handle),
            },
    {
        let mut i: usize = 0;
        while i < self.subscribers.len()
            invariant
                0 <= i <= self@.len(),
                self@.len() == self.subscribers@.len(),
                forall|k: int| 0 <= k < i ==> (#[trigger] self@[k]).0 != handle,
            decreases self@.len() - i,
        {
            proof {
                assert(self@[i as int].0 == self.subscribers@[i as int].handle);
            }
            if self.subscribers[i].handle == handle {
                return Option::Some(i);
            }
            i = i + 1;
        }
        Option::None
    }

    /// Takes the oldest pending delivery of the given subscriber:
    /// deliveries come out in the order they were published. An empty
    /// queue or an unknown handle yields nothing and changes nothing.
    pub fn poll(&mut self, handle: u64) -> (r: Option<Product>)
        ensures
            final(self).spec_capacity() == old(self).spec_capacity(),
            final(self).handles_spent() == old(self).handles_spent(),
            ({
                if has_handle(old(self)@, handle) {
                    let i = handle_index(old(self)@, handle);
                    if old(self)@[i].1.len() > 0 {
                        &&& r == Option::Some(old(self)@[i].1[0])
                        &&& final(self)@ == old(self)@.update(
                            i,
                            (handle, old(self)@[i].1.drop_first()),
                        )
                    } else {
                        r is None && final(self)@ == old(self)@
                    }
                } else {
                    r is None && final(self)@ == old(self)@
                }
            }),
    {
        proof {
            use_type_invariant(&*self);
        }
        match self.find_handle(handle) {
            Option::Some(i) => {
                proof {
                    lemma_handle_index_unique(self@, handle, i as int);
                }
                if self.subscribers[i].queue.len() == 0 {
                    proof {
                        assert(old(self)@[i as int].1.len() == 0);
                    }
                    return Option::None;
                }
                let mut subscribers: Vec<Subscriber> = Vec::new();
                std::mem::swap(&mut subscribers, &mut self.subscribers);
                let ghost before = subscribers@;
                let sub = &subscribers[i];
                let h = sub.handle;
                let mut queue = clone_products(&sub.queue);
                let front = queue.remove(0);
                proof {
                    assert(queue@ =~= before[i as int].queue@.drop_first());
                }
                subscribers.set(i, Subscriber { handle: h, queue });
                proof {
                    let s = subscribers@;
                    assert(s.len() == before.len());
                    assert forall|k: int| 0 <= k < s.len() implies (#[trigger] s[k]).handle
                        == before[k].handle by {
                        if k != i as int {
                            assert(s[k] == before[k]);
                        }
                    }
                    assert forall|a: int, b: int| 0 <= a < b < s.len() implies s[a].handle
                        != s[b].handle by {
                        assert(s[a].handle == before[a].handle);
                        assert(s[b].handle == before[b].handle);
                    }
                    assert forall|k: int| 0 <= k < s.len() implies (#[trigger] s[k]).queue@.len()
                        <= self.capacity by {
                        assert(before[k].queue@.len() <= old(self).capacity);
                        if k != i as int {
                            assert(s[k] == before[k]);
                        }
                    }
                }
                self.subscribers = subscribers;
                proof {
                    assert(self@ =~= old(self)@.update(
                        i as int,
                        (handle, old(self)@[i as int].1.drop_first()),
                    ));
                }
                Option::Some(front)
            },
            Option::None => Option::None,
        }
    }

    /// Removes the subscriber carrying `handle` and discards its queue;
    /// reports whether it was present. Everyone else is untouched.
    pub fn unsubscribe(&mut self, handle: u64) -> (r: bool)
        ensures
            final(self).spec_capacity() == old(self).spec_capacity(),
            final(self).handles_spent() == old(self).handles_spent(),
            r == has_handle(old(self)@, handle),
            ({
                if has_handle(old(self)@, handle) {
                    final(self)@ == old(self)@.remove(handle_index(old(self)@, handle))
                } else {
                    final(self)@ == old(self)@
                }
            }),
    {
        proof {
            use_type_invariant(&*self);
        }
        match self.find_handle(handle) {
            Option::Some(i) => {
                proof {
                    lemma_handle_index_unique(self@, handle, i as int);
                }
                let mut subscribers: Vec<Subscriber> = Vec::new();
                std::mem::swap(&mut subscribers, &mut self.subscribers);
                let ghost before = subscribers@;
                subscribers.remove(i);
                proof {
                    before.remove_ensures(i as int);
                    let s = subscribers@;
                    assert forall|k: int| 0 <= k < s.len() implies (#[trigger] s[k]) == (
                    if k < i as int {
                        before[k]
                    } else {
                        before[k + 1]
                    }) by {}
                    assert forall|a: int, b: int| 0 <= a < b < s.len() implies s[a].handle
                        != s[b].handle by {
                        let a2 = if a < i as int {
                            a
                        } else {
                            a + 1
                        };
                        let b2 = if b < i as int {
                            b
                        } else {
                            b + 1
                        };
                        assert(s[a] == before[a2] && s[b] == before[b2] && a2 < b2);
                    }
                    assert forall|k: int| 0 <= k < s.len() implies (#[trigger] s[k]).handle
                        < self.next_handle by {
                        let k2 = if k < i as int {
                            k
                        } else {
                            k + 1
                        };
                        assert(s[k] == before[k2]);
                        assert(before[k2].handle < old(self).next_handle);
                    }
                    assert forall|k: int| 0 <= k < s.len() implies (#[trigger] s[k]).queue@.len()
                        <= self.capacity by {
                        let k2 = if k < i as int {
                            k
                        } else {
                            k + 1
                        };
                        assert(s[k] == before[k2]);
                        assert(before[k2].queue@.len() <= old(self).capacity);
                    }
                }
                self.subscribers = subscribers;
                proof {
                    assert(self@ =~= old(self)@.remove(handle_index(old(self)@, handle)));
                }
                true
            },
            Option::None => false,
        }
    }
}

/// With distinct handles, the index found for `handle` is the only one.
proof fn lemma_handle_index_unique(v: Seq<(u64, Seq<Product>)>, handle: u64, i: int)
    requires
        forall|a: int, b: int| 0 <= a < b < v.len() ==> (#[trigger] v[a]).0 != (#[trigger] v[b]).0,
        0 <= i < v.len(),
        v[i].0 == handle,
    ensures
        has_handle(v, handle),
        handle_index(v, handle) == i,
{
    assert(has_handle(v, handle));
    let j = handle_index(v, handle);
    assert(0 <= j < v.len() && v[j].0 == handle);
}

/// One queue after a whole sequence of publishes, oldest first.
pub open spec fn publish_seq(q: Seq<Product>, ps: Seq<Product>, capacity: int) -> Seq<Product>
    decreases ps.len(),
{
    if ps.len() == 0 {
        q
    } else {
        publish_seq(push_drop(q, ps[0], capacity), ps.drop_first(), capacity)
    }
}

/// A subscriber that was present for every publish and read nothing in
/// between holds exactly the published products, in publish order, as
/// long as they fit its queue: nothing is dropped, reordered, lost or
/// invented.
pub proof fn lemma_fifo_within_capacity(q: Seq<Product>, ps: Seq<Product>, capacity: int)
    requires
        q.len() + ps.len() <= capacity,
    ensures
        publish_seq(q, ps, capacity) == q + ps,
    decreases ps.len(),
{
    if ps.len() == 0 {
        assert(q + ps =~= q);
    } else {
        assert(push_drop(q, ps[0], capacity) == q.push(ps[0]));
        lemma_fifo_within_capacity(q.push(ps[0]), ps.drop_first(), capacity);
        assert(q.push(ps[0]) + ps.drop_first() =~= q + ps);
    }
}

/// Two successive publishes into one queue land in publish order: the
/// last two pending deliveries are the first and the second product, in
/// that order, whenever the queue can hold at least two items.
pub proof fn lemma_publish_order(q: Seq<Product>, x: Product, y: Product, capacity: int)
    requires
        capacity >= 2,
    ensures
        ({
            let q2 = push_drop(push_drop(q, x, capacity), y, capacity);
            &&& q2.len() >= 2
            &&& q2[q2.len() - 2] == x
            &&& q2[q2.len() - 1] == y
        }),
{
}

} // verus!
