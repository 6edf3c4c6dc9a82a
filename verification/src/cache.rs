//! A bounded first-in first-out cache of packet payloads.

use bytes::Bytes;
use std::collections::vec_deque::Iter;
use std::collections::VecDeque;
use vstd::std_specs::iter::IteratorSpec;
use vstd::prelude::*;

verus! {

/// `bytes::Bytes`, carried through the cache without being looked into.
#[verifier::external_type_specification]
#[verifier::external_body]
pub struct ExBytes(Bytes);

/// The smallest capacity a cache is given.
pub const MIN_CAPACITY: usize = 1;

/// The largest capacity a cache is given.
pub const MAX_CAPACITY: usize = 1000;

/// The capacity of `PacketCache::default()`.
pub const DEFAULT_CAPACITY: usize = 100;

/// The capacity a cache gets when `requested` is asked for.
pub open spec fn clamp_capacity(requested: int) -> int {
    if requested < MIN_CAPACITY {
        MIN_CAPACITY as int
    } else if requested > MAX_CAPACITY {
        MAX_CAPACITY as int
    } else {
        requested
    }
}

/// What a cache bounded by `capacity` holds after `packet` is pushed onto `packets`:
/// the oldest packet leaves first when the cache is full.
pub open spec fn pushed(packets: Seq<Bytes>, capacity: int, packet: Bytes) -> Seq<Bytes> {
    if packets.len() >= capacity && packets.len() > 0 {
        packets.drop_first().push(packet)
    } else {
        packets.push(packet)
    }
}

/// The newest `capacity` packets of `history`, oldest first.
pub open spec fn window(history: Seq<Bytes>, capacity: int) -> Seq<Bytes> {
    if history.len() <= capacity {
        history
    } else {
        history.subrange(history.len() - capacity, history.len() as int)
    }
}

/// What a cache bounded by `capacity` and holding `packets` holds after each packet
/// of `history` is pushed, in order.
pub open spec fn pushed_all(packets: Seq<Bytes>, capacity: int, history: Seq<Bytes>) -> Seq<Bytes>
    decreases history.len(),
{
    if history.len() == 0 {
        packets
    } else {
        pushed(pushed_all(packets, capacity, history.drop_last()), capacity, history.last())
    }
}

/// Pushing a packet onto the newest `capacity` packets of a history gives the newest
/// `capacity` packets of the history extended by that packet.
pub proof fn lemma_push_window(history: Seq<Bytes>, capacity: int, packet: Bytes)
    requires
        capacity >= 1,
    ensures
        pushed(window(history, capacity), capacity, packet) == window(history.push(packet), capacity),
{
    assert(pushed(window(history, capacity), capacity, packet) =~= window(
        history.push(packet),
        capacity,
    ));
}

/// A cache that starts empty and receives the packets of `history` one by one holds the
/// newest `capacity` of them, oldest first: older ones were dropped in arrival order.
pub proof fn lemma_pushed_all_is_window(history: Seq<Bytes>, capacity: int)
    requires
        capacity >= 1,
    ensures
        pushed_all(Seq::<Bytes>::empty(), capacity, history) == window(history, capacity),
    decreases history.len(),
{
    if history.len() > 0 {
        lemma_pushed_all_is_window(history.drop_last(), capacity);
        lemma_push_window(history.drop_last(), capacity, history.last());
        assert(history.drop_last().push(history.last()) =~= history);
    } else {
        assert(window(history, capacity) =~= history);
    }
}

/// After a push the newest packet is the one pushed, and a cache within its capacity
/// grows by one until it is full, then keeps its size.
pub proof fn lemma_push_latest_and_len(packets: Seq<Bytes>, capacity: int, packet: Bytes)
    requires
        1 <= capacity,
        packets.len() <= capacity,
    ensures
        pushed(packets, capacity, packet).last() == packet,
        pushed(packets, capacity, packet).len() == if packets.len() < capacity {
            packets.len() + 1int
        } else {
            capacity
        },
        pushed(packets, capacity, packet).len() <= capacity,
{
}

/// A cache of packet payloads, oldest first, that keeps at most `capacity` of them.
#[derive(Debug)]
pub struct PacketCache {
    pub packets: VecDeque<Bytes>,
    pub capacity: usize,
}

impl PacketCache {
    /// The capacity lies in `MIN_CAPACITY..=MAX_CAPACITY` and is not exceeded.
    pub open spec fn wf(&self) -> bool {
        &&& MIN_CAPACITY <= self.capacity <= MAX_CAPACITY
        &&& self.packets@.len() <= self.capacity
    }

    /// An empty cache whose capacity is `capacity` clamped to `MIN_CAPACITY..=MAX_CAPACITY`.
    pub fn new(capacity: usize) -> (cache: Self)
        ensures
            cache.capacity == clamp_capacity(capacity as int),
            1 <= capacity <= 1000 ==> cache.capacity == capacity,
            capacity < 1 ==> cache.capacity == 1,
            capacity > 1000 ==> cache.capacity == 1000,
            cache.packets@ == Seq::<Bytes>::empty(),
            cache.wf(),
    {
        let safe_capacity = if capacity < MIN_CAPACITY {
            MIN_CAPACITY
        } else if capacity > MAX_CAPACITY {
            MAX_CAPACITY
        } else {
            capacity
        };
        PacketCache { packets: VecDeque::with_capacity(safe_capacity), capacity: safe_capacity }
    }

    /// Appends `packet` as the newest entry, first dropping the oldest one when the
    /// cache already holds `capacity` packets.
    pub fn push(&mut self, packet: Bytes)
        ensures
            final(self).capacity == old(self).capacity,
            final(self).packets@ == pushed(old(self).packets@, old(self).capacity as int, packet),
            old(self).wf() ==> final(self).wf(),
    {
        broadcast use vstd::std_specs::vecdeque::group_vec_dequeue_axioms;
        if self.packets.len() >= self.capacity {
            self.packets.pop_front();
        }
        self.packets.push_back(packet);
    }

    /// The number of cached packets.
    pub fn len(&self) -> (n: usize)
        ensures
            n == self.packets@.len(),
    {
        broadcast use vstd::std_specs::vecdeque::group_vec_dequeue_axioms;
        self.packets.len()
    }

    /// Whether no packet is cached.
    pub fn is_empty(&self) -> (b: bool)
        ensures
            b == (self.packets@.len() == 0),
    {
        broadcast use vstd::std_specs::vecdeque::group_vec_dequeue_axioms;
        self.packets.len() == 0
    }

    /// Walks the cached packets, oldest first.
    pub fn iter(&self) -> (it: Iter<'_, Bytes>)
        ensures
            IteratorSpec::remaining(&it) == self.packets@.as_ref(),
    {
        broadcast use vstd::std_specs::vecdeque::group_vec_dequeue_axioms;
        self.packets.iter()
    }

    /// Drops every cached packet; the capacity stays.
    pub fn clear(&mut self)
        ensures
            final(self).capacity == old(self).capacity,
            final(self).packets@ == Seq::<Bytes>::empty(),
            old(self).wf() ==> final(self).wf(),
    {
        self.packets.clear();
    }

    /// The newest cached packet, if any.
    pub fn latest(&self) -> (r: Option<&Bytes>)
        ensures
            self.packets@.len() == 0 ==> r is None,
            self.packets@.len() > 0 ==> r == Some(&self.packets@.last()),
    {
        broadcast use vstd::std_specs::vecdeque::group_vec_dequeue_axioms;
        let n = self.packets.len();
        if n == 0 {
            None
        } else {
            Some(&self.packets[n - 1])
        }
    }

    /// The oldest cached packet, if any.
    pub fn oldest(&self) -> (r: Option<&Bytes>)
        ensures
            self.packets@.len() == 0 ==> r is None,
            self.packets@.len() > 0 ==> r == Some(&self.packets@[0]),
    {
        broadcast use vstd::std_specs::vecdeque::group_vec_dequeue_axioms;
        if self.packets.len() == 0 {
            None
        } else {
            Some(&self.packets[0])
        }
    }
}

impl Default for PacketCache {
    /// An empty cache of capacity `DEFAULT_CAPACITY`.
    fn default() -> (cache: Self)
        ensures
            cache.capacity == DEFAULT_CAPACITY,
            cache.packets@ == Seq::<Bytes>::empty(),
            cache.wf(),
    {
        Self::new(DEFAULT_CAPACITY)
    }
}

} // verus!
