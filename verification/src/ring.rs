//! The ring that moves frame descriptors between a producer and a consumer.
//!
//! A ring has a fixed number of slots, a power of two, and two cursors that
//! only ever move forward, modulo 2^64. The producer writes at its cursor and
//! advances it; the consumer reads at its own and advances that. What lies
//! between the two cursors is the queue, oldest entry first.

use crate::frame::{FrameDesc, ResourceError};
use vstd::arithmetic::power2::{lemma2_to64, pow2};
use vstd::prelude::*;

verus! {

/// Whether `n` is a power of two: 2 to the power of some `k` below 32.
pub open spec fn is_pow_of_two(n: u32) -> bool {
    exists|k: nat| k < 32 && n == #[trigger] pow2(k)
}

/// Whether exactly one bit of `n` is set: `n` is not zero, and taking one
/// away from it leaves no bit standing where `n` has one.
pub open spec fn single_bit(n: u32) -> bool {
    n != 0 && n & ((n - 1) as u32) == 0
}

/// The powers of two are the numbers with exactly one bit set.
pub proof fn lemma_pow_of_two_is_single_bit(n: u32)
    ensures
        is_pow_of_two(n) == single_bit(n),
{
    lemma2_to64();
    assert(single_bit(n) <==> (n == 0x1 || n == 0x2 || n == 0x4 || n == 0x8 || n == 0x10 || n
        == 0x20 || n == 0x40 || n == 0x80 || n == 0x100 || n == 0x200 || n == 0x400 || n == 0x800
        || n == 0x1000 || n == 0x2000 || n == 0x4000 || n == 0x8000 || n == 0x10000 || n
        == 0x20000 || n == 0x40000 || n == 0x80000 || n == 0x100000 || n == 0x200000 || n
        == 0x400000 || n == 0x800000 || n == 0x1000000 || n == 0x2000000 || n == 0x4000000 || n
        == 0x8000000 || n == 0x10000000 || n == 0x20000000 || n == 0x40000000 || n
        == 0x80000000)) by (bit_vector);
    if is_pow_of_two(n) {
        let k = choose|k: nat| k < 32 && n == #[trigger] pow2(k);
        assert(k == 0 || k == 1 || k == 2 || k == 3 || k == 4 || k == 5 || k == 6 || k == 7 || k
            == 8 || k == 9 || k == 10 || k == 11 || k == 12 || k == 13 || k == 14 || k == 15 || k
            == 16 || k == 17 || k == 18 || k == 19 || k == 20 || k == 21 || k == 22 || k == 23
            || k == 24 || k == 25 || k == 26 || k == 27 || k == 28 || k == 29 || k == 30 || k
            == 31);
        assert(single_bit(n));
    }
    if single_bit(n) {
        assert(is_pow_of_two(n));
    }
}

/// Decides whether `n` is a power of two.
pub fn check_pow_of_two(n: u32) -> (b: bool)
    ensures
        b == is_pow_of_two(n),
{
    proof {
        lemma_pow_of_two_is_single_bit(n);
    }
    n != 0 && (n & (n - 1)) == 0
}

/// `cursor` moved forward by `steps`, modulo 2^64.
pub open spec fn advance(cursor: u64, steps: int) -> u64 {
    ((cursor + steps) % 0x1_0000_0000_0000_0000) as u64
}

/// How far `producer` is ahead of `consumer`, modulo 2^64.
pub open spec fn distance(producer: u64, consumer: u64) -> int {
    (producer - consumer) % 0x1_0000_0000_0000_0000
}

/// The smaller of two integers.
pub open spec fn min(a: int, b: int) -> int {
    if a <= b {
        a
    } else {
        b
    }
}

/// How many of `offered` descriptors a ring of `capacity` slots takes when
/// `queued` of its slots are in use.
pub open spec fn accepted(queued: int, capacity: int, offered: int) -> int {
    min(offered, capacity - queued)
}

/// The queue after `descs` were offered to a ring of `capacity` slots: as many
/// of them as fit are appended, in the order given.
pub open spec fn after_produce(queue: Seq<FrameDesc>, capacity: int, descs: Seq<FrameDesc>) -> Seq<
    FrameDesc,
> {
    queue + descs.take(accepted(queue.len() as int, capacity, descs.len() as int))
}

/// What a consumer with room for `room` descriptors takes out: the oldest
/// entries, oldest first.
pub open spec fn taken(queue: Seq<FrameDesc>, room: int) -> Seq<FrameDesc> {
    queue.take(min(room, queue.len() as int))
}

/// The queue that such a consumer leaves behind.
pub open spec fn after_consume(queue: Seq<FrameDesc>, room: int) -> Seq<FrameDesc> {
    queue.skip(min(room, queue.len() as int))
}

/// The slot that holds the entry at `cursor` in a ring of `capacity` slots.
pub closed spec fn slot_of(cursor: u64, capacity: u32) -> int {
    (cursor & ((capacity - 1) as u64)) as int
}

/// A slot index lies inside the ring.
proof fn lemma_slot_in_bounds(cursor: u64, capacity: u32)
    requires
        capacity != 0,
    ensures
        0 <= slot_of(cursor, capacity) < capacity,
{
    let mask: u64 = (capacity - 1) as u64;
    assert((cursor & mask) <= mask) by (bit_vector);
}

/// Cursors less than a capacity apart use different slots.
proof fn lemma_slots_distinct(base: u64, i: int, j: int, capacity: u32)
    requires
        is_pow_of_two(capacity),
        0 <= i < j < capacity,
    ensures
        slot_of(advance(base, i), capacity) != slot_of(advance(base, j), capacity),
{
    lemma_pow_of_two_is_single_bit(capacity);
    let mask: u64 = (capacity - 1) as u64;
    let cap: u64 = capacity as u64;
    let a: u64 = i as u64;
    let b: u64 = j as u64;
    assert(cap & mask == 0 && mask == cap - 1) by (bit_vector)
        requires
            capacity != 0,
            capacity & ((capacity - 1) as u32) == 0,
            mask == (capacity - 1) as u64,
            cap == capacity as u64,
    ;
    assert(((((base + a) % 0x1_0000_0000_0000_0000) as u64) & mask) != ((((base + b)
        % 0x1_0000_0000_0000_0000) as u64) & mask)) by (bit_vector)
        requires
            cap != 0,
            cap & mask == 0,
            mask == cap - 1,
            a < b,
            b < cap,
    ;
}

/// Moving a cursor forward twice is moving it forward once by the sum.
proof fn lemma_advance_twice(cursor: u64, a: int, b: int)
    requires
        0 <= a,
        0 <= b,
    ensures
        advance(advance(cursor, a), b) == advance(cursor, a + b),
{
    vstd::arithmetic::div_mod::lemma_add_mod_noop(
        cursor + a,
        b,
        0x1_0000_0000_0000_0000,
    );
    vstd::arithmetic::div_mod::lemma_small_mod(b as nat % 0x1_0000_0000_0000_0000, 0x1_0000_0000_0000_0000);
    vstd::arithmetic::div_mod::lemma_mod_twice(cursor + a, 0x1_0000_0000_0000_0000);
    vstd::arithmetic::div_mod::lemma_add_mod_noop(
        ((cursor + a) % 0x1_0000_0000_0000_0000),
        b,
        0x1_0000_0000_0000_0000,
    );
}

/// A cursor that is `n` ahead of another, with `n` below 2^64, is at distance `n`.
proof fn lemma_distance_of_advance(cursor: u64, n: int)
    requires
        0 <= n < 0x1_0000_0000_0000_0000,
    ensures
        distance(advance(cursor, n), cursor) == n,
{
    let m = 0x1_0000_0000_0000_0000int;
    let p = advance(cursor, n) as int;
    assert(p == (cursor + n) % m);
    if cursor + n < m {
        vstd::arithmetic::div_mod::lemma_small_mod((cursor + n) as nat, m as nat);
        vstd::arithmetic::div_mod::lemma_small_mod(n as nat, m as nat);
    } else {
        vstd::arithmetic::div_mod::lemma_mod_sub_multiples_vanish(cursor + n, m);
        vstd::arithmetic::div_mod::lemma_small_mod((cursor + n - m) as nat, m as nat);
        assert(p == cursor + n - m);
        vstd::arithmetic::div_mod::lemma_mod_add_multiples_vanish(p - cursor, m);
        vstd::arithmetic::div_mod::lemma_small_mod(n as nat, m as nat);
    }
}

/// A cursor is where the other cursor ends up after moving forward by their distance.
proof fn lemma_cursor_from_distance(producer: u64, consumer: u64)
    ensures
        0 <= distance(producer, consumer) < 0x1_0000_0000_0000_0000,
        advance(consumer, distance(producer, consumer)) == producer,
{
    let m = 0x1_0000_0000_0000_0000int;
    if producer >= consumer {
        vstd::arithmetic::div_mod::lemma_small_mod((producer - consumer) as nat, m as nat);
        vstd::arithmetic::div_mod::lemma_small_mod(producer as nat, m as nat);
    } else {
        vstd::arithmetic::div_mod::lemma_mod_add_multiples_vanish(producer - consumer, m);
        vstd::arithmetic::div_mod::lemma_small_mod((producer - consumer + m) as nat, m as nat);
        vstd::arithmetic::div_mod::lemma_mod_add_multiples_vanish(producer as int, m);
        vstd::arithmetic::div_mod::lemma_small_mod(producer as nat, m as nat);
    }
}

/// Moving a cursor forward by nothing leaves it where it is.
proof fn lemma_advance_zero(cursor: u64)
    ensures
        advance(cursor, 0) == cursor,
{
    vstd::arithmetic::div_mod::lemma_small_mod(cursor as nat, 0x1_0000_0000_0000_0000);
}

/// A single-producer, single-consumer queue of frame descriptors.
pub struct Ring {
    capacity: u32,
    producer_index: u64,
    consumer_index: u64,
    slots: Vec<FrameDesc>,
    wakeup_flag: bool,
    wakeup_count: u64,
}

impl View for Ring {
    type V = Seq<FrameDesc>;

    /// The queued descriptors, oldest first.
    closed spec fn view(&self) -> Seq<FrameDesc> {
        Seq::new(
            distance(self.producer_index, self.consumer_index) as nat,
            |i: int| self.slots@[slot_of(advance(self.consumer_index, i), self.capacity)],
        )
    }
}

impl Ring {
    /// Number of slots.
    pub closed spec fn cap(&self) -> int {
        self.capacity as int
    }

    /// The producer's cursor.
    pub closed spec fn producer(&self) -> u64 {
        self.producer_index
    }

    /// The consumer's cursor.
    pub closed spec fn consumer(&self) -> u64 {
        self.consumer_index
    }

    /// Whether the peer has asked to be woken.
    pub closed spec fn wants_wakeup(&self) -> bool {
        self.wakeup_flag
    }

    /// How often the peer has been woken, saturating.
    pub closed spec fn wakeups_sent(&self) -> int {
        self.wakeup_count as int
    }

    /// There are as many slots as the capacity says, and the capacity is a
    /// power of two.
    pub closed spec fn slots_wf(&self) -> bool {
        &&& is_pow_of_two(self.capacity)
        &&& self.slots@.len() == self.capacity
    }

    /// The ring's invariant: the capacity is a power of two, and the producer
    /// is ahead of the consumer by no more than the capacity, modulo 2^64.
    pub open spec fn wf(&self) -> bool {
        &&& self.slots_wf()
        &&& 0 < self.cap() <= u32::MAX
        &&& self@.len() == distance(self.producer(), self.consumer())
        &&& self@.len() <= self.cap()
    }

    /// A ring of `capacity` slots as it is when newly made: well formed and
    /// empty, both cursors at zero, no wakeup asked for and none sent.
    pub open spec fn fresh(&self, capacity: u32) -> bool {
        &&& self.wf()
        &&& self.cap() == capacity
        &&& self@ == Seq::<FrameDesc>::empty()
        &&& self.producer() == 0
        &&& self.consumer() == 0
        &&& !self.wants_wakeup()
        &&& self.wakeups_sent() == 0
    }

    /// Moving the consumer's cursor forward by `n` drops the `n` oldest entries.
    proof fn lemma_view_after_consume(self, after: Ring, n: int)
        requires
            self.wf(),
            0 <= n <= self@.len(),
            after.capacity == self.capacity,
            after.slots == self.slots,
            after.producer_index == self.producer_index,
            after.consumer_index == advance(self.consumer_index, n),
        ensures
            after.wf(),
            after@ == self@.skip(n),
    {
        let queued = self@.len() as int;
        lemma_cursor_from_distance(self.producer_index, self.consumer_index);
        lemma_advance_twice(self.consumer_index, n, queued - n);
        lemma_distance_of_advance(after.consumer_index, queued - n);
        assert(after@.len() == queued - n);
        assert forall|i: int| 0 <= i < after@.len() implies after@[i] == self@.skip(n)[i] by {
            lemma_advance_twice(self.consumer_index, n, i);
        }
        assert(after@ =~= self@.skip(n));
    }

    /// Writing `n` descriptors behind the queue and moving the producer's
    /// cursor forward by `n` appends them.
    proof fn lemma_view_after_produce(self, after: Ring, descs: Seq<FrameDesc>, n: int)
        requires
            self.wf(),
            0 <= n <= descs.len(),
            self@.len() + n <= self.capacity,
            after.capacity == self.capacity,
            after.slots@.len() == self.capacity,
            after.consumer_index == self.consumer_index,
            after.producer_index == advance(self.producer_index, n),
            forall|i: int|
                0 <= i < self@.len() ==> after.slots@[slot_of(
                    #[trigger] advance(self.consumer_index, i),
                    self.capacity,
                )] == self@[i],
            forall|j: int|
                0 <= j < n ==> after.slots@[slot_of(
                    #[trigger] advance(self.consumer_index, self@.len() + j),
                    self.capacity,
                )] == descs[j],
        ensures
            after.wf(),
            after@ == self@ + descs.take(n),
    {
        let queued = self@.len() as int;
        let consumer = self.consumer_index;
        lemma_cursor_from_distance(self.producer_index, consumer);
        lemma_advance_twice(consumer, queued, n);
        lemma_distance_of_advance(consumer, queued + n);
        assert(after@.len() == queued + n);
        let want = self@ + descs.take(n);
        assert forall|i: int| 0 <= i < after@.len() implies after@[i] == want[i] by {
            if i >= queued {
                assert(advance(consumer, queued + (i - queued)) == advance(consumer, i));
            }
        }
        assert(after@ =~= want);
    }

    /// Creates an empty ring of `capacity` slots.
    ///
    /// Fails with `UnsupportedSize` exactly when `capacity` is no power of two.
    pub fn new(capacity: u32) -> (r: Result<Ring, ResourceError>)
        ensures
            !is_pow_of_two(capacity) ==> r == Err::<Ring, ResourceError>(
                ResourceError::UnsupportedSize,
            ),
            is_pow_of_two(capacity) ==> r is Ok,
            r matches Ok(ring) ==> ring.fresh(capacity),
    {
        if !check_pow_of_two(capacity) {
            return Err(ResourceError::UnsupportedSize);
        }
        let slots: Vec<FrameDesc> = vec![FrameDesc { addr: 0, len: 0, options: 0 }; capacity as usize];
        let ring = Ring {
            capacity,
            producer_index: 0,
            consumer_index: 0,
            slots,
            wakeup_flag: false,
            wakeup_count: 0,
        };
        proof {
            lemma_pow_of_two_is_single_bit(capacity);
            assert(ring@ =~= Seq::<FrameDesc>::empty());
        }
        Ok(ring)
    }

    /// Number of slots.
    pub fn capacity(&self) -> (n: u32)
        ensures
            n == self.cap(),
    {
        self.capacity
    }

    /// The producer's cursor.
    pub fn producer_index(&self) -> (p: u64)
        ensures
            p == self.producer(),
    {
        self.producer_index
    }

    /// The consumer's cursor.
    pub fn consumer_index(&self) -> (c: u64)
        ensures
            c == self.consumer(),
    {
        self.consumer_index
    }

    /// Number of queued descriptors.
    pub fn len(&self) -> (n: usize)
        requires
            self.wf(),
        ensures
            n == self@.len(),
    {
        self.producer_index.wrapping_sub(self.consumer_index) as usize
    }

    /// Number of slots that a producer can still fill.
    pub fn free(&self) -> (n: usize)
        requires
            self.wf(),
        ensures
            n == self.cap() - self@.len(),
    {
        self.capacity as usize - self.len()
    }

    /// Whether nothing is queued.
    pub fn is_empty(&self) -> (b: bool)
        requires
            self.wf(),
        ensures
            b == (self@.len() == 0),
    {
        self.len() == 0
    }

    /// Whether every slot is in use.
    pub fn is_full(&self) -> (b: bool)
        requires
            self.wf(),
        ensures
            b == (self@.len() == self.cap()),
    {
        self.len() == self.capacity as usize
    }

    /// Appends as many of `descs` as fit, in the order given, and returns how
    /// many that was. Never waits; a full ring takes none.
    pub fn produce(&mut self, descs: &[FrameDesc]) -> (n: usize)
        requires
            old(self).wf(),
        ensures
            final(self).wf(),
            final(self).cap() == old(self).cap(),
            final(self).consumer() == old(self).consumer(),
            final(self).wants_wakeup() == old(self).wants_wakeup(),
            final(self).wakeups_sent() == old(self).wakeups_sent(),
            n == accepted(old(self)@.len() as int, old(self).cap(), descs@.len() as int),
            final(self)@ == after_produce(old(self)@, old(self).cap(), descs@),
            final(self).producer() == advance(old(self).producer(), n as int),
    {
        let free: usize = self.free();
        let n: usize = if descs.len() < free {
            descs.len()
        } else {
            free
        };
        let ghost before = self@;
        let ghost queued = self@.len() as int;
        let ghost consumer = self.consumer_index;
        proof {
            lemma_cursor_from_distance(self.producer_index, self.consumer_index);
        }
        let mut k: usize = 0;
        while k < n
            invariant
                is_pow_of_two(self.capacity),
                self.slots@.len() == self.capacity,
                self.capacity == old(self).capacity,
                self.producer_index == old(self).producer_index,
                self.consumer_index == consumer,
                self.wakeup_flag == old(self).wakeup_flag,
                self.wakeup_count == old(self).wakeup_count,
                self.producer_index == advance(consumer, queued),
                0 <= queued,
                k <= n <= descs@.len(),
                queued + n <= self.capacity,
                before.len() == queued,
                forall|i: int|
                    0 <= i < queued ==> self.slots@[slot_of(
                        #[trigger] advance(consumer, i),
                        self.capacity,
                    )] == before[i],
                forall|j: int|
                    0 <= j < k ==> self.slots@[slot_of(
                        #[trigger] advance(consumer, queued + j),
                        self.capacity,
                    )] == descs@[j],
            decreases n - k,
        {
            let cursor: u64 = self.producer_index.wrapping_add(k as u64);
            let slot: usize = (cursor & (self.capacity as u64 - 1)) as usize;
            proof {
                lemma_advance_twice(consumer, queued, k as int);
                assert(cursor == advance(consumer, queued + k));
                lemma_slot_in_bounds(cursor, self.capacity);
                assert(slot == slot_of(cursor, self.capacity));
                assert forall|i: int| 0 <= i < queued + k implies {
                    &&& slot_of(#[trigger] advance(consumer, i), self.capacity) != slot
                    &&& 0 <= slot_of(advance(consumer, i), self.capacity) < self.capacity
                } by {
                    lemma_slots_distinct(consumer, i, queued + k, self.capacity);
                    lemma_slot_in_bounds(advance(consumer, i), self.capacity);
                }
            }
            self.slots[slot] = descs[k];
            k = k + 1;
        }
        self.producer_index = self.producer_index.wrapping_add(n as u64);
        proof {
            old(self).lemma_view_after_produce(*self, descs@, n as int);
        }
        n
    }

    /// Moves the oldest descriptors out into the front of `out`, as many as
    /// `out` has room for, and returns how many that was. Never waits. On an
    /// empty ring it returns 0 and changes neither the ring nor `out`.
    pub fn consume(&mut self, out: &mut Vec<FrameDesc>) -> (n: usize)
        requires
            old(self).wf(),
        ensures
            final(self).wf(),
            final(self).cap() == old(self).cap(),
            final(self).producer() == old(self).producer(),
            final(self).wants_wakeup() == old(self).wants_wakeup(),
            final(self).wakeups_sent() == old(self).wakeups_sent(),
            n == min(old(out)@.len() as int, old(self)@.len() as int),
            final(out)@ == taken(old(self)@, old(out)@.len() as int) + old(out)@.skip(n as int),
            final(self)@ == after_consume(old(self)@, old(out)@.len() as int),
            final(self).consumer() == advance(old(self).consumer(), n as int),
            old(self)@.len() == 0 ==> n == 0 && *final(self) == *old(self) && *final(out) == *old(
                out,
            ),
    {
        let queued: usize = self.len();
        let n: usize = if out.len() < queued {
            out.len()
        } else {
            queued
        };
        if n == 0 {
            proof {
                lemma_advance_zero(self.consumer_index);
                assert(final(out)@ =~= taken(self@, out@.len() as int) + out@.skip(0));
                assert(self@ =~= after_consume(self@, out@.len() as int));
            }
            return 0;
        }
        let ghost before = self@;
        let ghost consumer = self.consumer_index;
        let mut k: usize = 0;
        while k < n
            invariant
                *self == *old(self),
                self.wf(),
                self@ == before,
                consumer == self.consumer_index,
                k <= n <= out@.len(),
                n <= before.len(),
                out@.len() == old(out)@.len(),
                forall|j: int| 0 <= j < k ==> out@[j] == before[j],
                forall|j: int| k <= j < out@.len() ==> out@[j] == old(out)@[j],
            decreases n - k,
        {
            let cursor: u64 = self.consumer_index.wrapping_add(k as u64);
            let slot: usize = (cursor & (self.capacity as u64 - 1)) as usize;
            proof {
                assert(cursor == advance(consumer, k as int));
                lemma_slot_in_bounds(cursor, self.capacity);
                assert(self.slots@[slot as int] == before[k as int]);
            }
            out[k] = self.slots[slot];
            k = k + 1;
        }
        self.consumer_index = self.consumer_index.wrapping_add(n as u64);
        proof {
            old(self).lemma_view_after_consume(*self, n as int);
            assert(out@ =~= taken(before, old(out)@.len() as int) + old(out)@.skip(n as int));
        }
        n
    }

    /// Whether the peer has gone idle and must be woken before it looks at
    /// the ring again.
    pub fn needs_wakeup(&self) -> (b: bool)
        ensures
            b == self.wants_wakeup(),
    {
        self.wakeup_flag
    }

    /// How often the peer has been woken.
    pub fn wakeups(&self) -> (n: u64)
        ensures
            n == self.wakeups_sent(),
    {
        self.wakeup_count
    }

    /// Wakes the peer: the request is answered and counted, the queue stays
    /// as it is.
    pub fn wakeup(&mut self)
        requires
            old(self).wf(),
        ensures
            final(self).wf(),
            !final(self).wants_wakeup(),
            final(self).wakeups_sent() == min(old(self).wakeups_sent() + 1, u64::MAX as int),
            final(self)@ == old(self)@,
            final(self).cap() == old(self).cap(),
            final(self).producer() == old(self).producer(),
            final(self).consumer() == old(self).consumer(),
    {
        self.wakeup_flag = false;
        self.wakeup_count = self.wakeup_count.saturating_add(1);
        assert(self@ =~= old(self)@);
    }

    /// The peer's side of `needs_wakeup`: asks for a wakeup, or takes the
    /// request back.
    pub fn set_needs_wakeup(&mut self, wanted: bool)
        requires
            old(self).wf(),
        ensures
            final(self).wf(),
            final(self).wants_wakeup() == wanted,
            final(self).wakeups_sent() == old(self).wakeups_sent(),
            final(self)@ == old(self)@,
            final(self).cap() == old(self).cap(),
            final(self).producer() == old(self).producer(),
            final(self).consumer() == old(self).consumer(),
    {
        self.wakeup_flag = wanted;
        assert(self@ =~= old(self)@);
    }

    /// Waits until a descriptor is queued or `timeout_ms` is over, then
    /// consumes as `consume` does. A timeout gives 0 and is no error.
    ///
    /// Nobody but the caller can reach a ring that lives in the caller's own
    /// memory, so here the wait ends at once: what is queued now is all that
    /// will be.
    pub fn poll_and_consume(&mut self, out: &mut Vec<FrameDesc>, timeout_ms: i32) -> (n: usize)
        requires
            old(self).wf(),
        ensures
            final(self).wf(),
            final(self).cap() == old(self).cap(),
            final(self).producer() == old(self).producer(),
            final(self).wants_wakeup() == old(self).wants_wakeup(),
            final(self).wakeups_sent() == old(self).wakeups_sent(),
            n == min(old(out)@.len() as int, old(self)@.len() as int),
            final(out)@ == taken(old(self)@, old(out)@.len() as int) + old(out)@.skip(n as int),
            final(self)@ == after_consume(old(self)@, old(out)@.len() as int),
            final(self).consumer() == advance(old(self).consumer(), n as int),
            old(self)@.len() == 0 ==> n == 0 && *final(self) == *old(self) && *final(out) == *old(
                out,
            ),
    {
        self.consume(out)
    }
}

/// The queue after each of `batches` was offered in turn.
pub open spec fn produce_all(
    queue: Seq<FrameDesc>,
    capacity: int,
    batches: Seq<Seq<FrameDesc>>,
) -> Seq<FrameDesc>
    decreases batches.len(),
{
    if batches.len() == 0 {
        queue
    } else {
        produce_all(after_produce(queue, capacity, batches[0]), capacity, batches.skip(1))
    }
}

/// All descriptors of `batches`, in the order in which they were offered.
pub open spec fn concat(batches: Seq<Seq<FrameDesc>>) -> Seq<FrameDesc>
    decreases batches.len(),
{
    if batches.len() == 0 {
        Seq::empty()
    } else {
        batches[0] + concat(batches.skip(1))
    }
}

/// What consecutive `consume` calls hand out, in order, when call `i` has
/// room for `rooms[i]` descriptors.
pub open spec fn consume_all(queue: Seq<FrameDesc>, rooms: Seq<int>) -> Seq<FrameDesc>
    decreases rooms.len(),
{
    if rooms.len() == 0 {
        Seq::empty()
    } else {
        taken(queue, rooms[0]) + consume_all(after_consume(queue, rooms[0]), rooms.skip(1))
    }
}

/// What those calls leave in the queue.
pub open spec fn left_after(queue: Seq<FrameDesc>, rooms: Seq<int>) -> Seq<FrameDesc>
    decreases rooms.len(),
{
    if rooms.len() == 0 {
        queue
    } else {
        left_after(after_consume(queue, rooms[0]), rooms.skip(1))
    }
}

/// The sum of `rooms`.
pub open spec fn total(rooms: Seq<int>) -> int
    decreases rooms.len(),
{
    if rooms.len() == 0 {
        0
    } else {
        rooms[0] + total(rooms.skip(1))
    }
}

/// Rooms that are none of them negative do not sum to less than nothing.
proof fn lemma_total_nonnegative(rooms: Seq<int>)
    requires
        forall|i: int| 0 <= i < rooms.len() ==> rooms[i] >= 0,
    ensures
        total(rooms) >= 0,
    decreases rooms.len(),
{
    if rooms.len() > 0 {
        let rest = rooms.skip(1);
        assert forall|i: int| 0 <= i < rest.len() implies rest[i] >= 0 by {
            assert(rest[i] == rooms[i + 1]);
        }
        lemma_total_nonnegative(rest);
    }
}

/// Batches that together fit into the free slots are all taken whole, in order.
pub proof fn lemma_produce_all_fits(
    queue: Seq<FrameDesc>,
    capacity: int,
    batches: Seq<Seq<FrameDesc>>,
)
    requires
        queue.len() + concat(batches).len() <= capacity,
    ensures
        produce_all(queue, capacity, batches) == queue + concat(batches),
    decreases batches.len(),
{
    if batches.len() == 0 {
        assert(queue + concat(batches) =~= queue);
    } else {
        let first = batches[0];
        let rest = batches.skip(1);
        assert(first.take(first.len() as int) =~= first);
        let next = after_produce(queue, capacity, first);
        assert(next == queue + first);
        lemma_produce_all_fits(next, capacity, rest);
        assert((queue + first) + concat(rest) =~= queue + (first + concat(rest)));
    }
}

/// Whatever room the consumer brings, what it takes out followed by what it
/// leaves is the queue as it was: nothing is lost, doubled or reordered.
pub proof fn lemma_consume_all_in_order(queue: Seq<FrameDesc>, rooms: Seq<int>)
    requires
        forall|i: int| 0 <= i < rooms.len() ==> rooms[i] >= 0,
    ensures
        consume_all(queue, rooms) + left_after(queue, rooms) == queue,
        total(rooms) >= queue.len() ==> consume_all(queue, rooms) == queue && left_after(
            queue,
            rooms,
        ).len() == 0,
    decreases rooms.len(),
{
    if rooms.len() == 0 {
        assert(consume_all(queue, rooms) + left_after(queue, rooms) =~= queue);
    } else {
        let head = taken(queue, rooms[0]);
        let tail = after_consume(queue, rooms[0]);
        let rest = rooms.skip(1);
        assert forall|i: int| 0 <= i < rest.len() implies rest[i] >= 0 by {
            assert(rest[i] == rooms[i + 1]);
        }
        lemma_consume_all_in_order(tail, rest);
        assert(head + tail =~= queue);
        assert((head + consume_all(tail, rest)) + left_after(tail, rest) =~= head + (consume_all(
            tail,
            rest,
        ) + left_after(tail, rest)));
        if total(rooms) >= queue.len() {
            lemma_total_nonnegative(rest);
            assert(total(rest) >= tail.len());
            assert(left_after(queue, rooms).len() == 0);
            assert(consume_all(queue, rooms) =~= queue);
        }
    }
}

/// First in, first out, exactly once: when the batches offered fit into the
/// free slots, every descriptor of every batch is queued; and consuming with
/// enough room in total hands out the queue as it stood before the first
/// batch, then every descriptor offered, in the order offered, and leaves the
/// ring empty.
pub proof fn lemma_fifo_exactly_once(
    queue: Seq<FrameDesc>,
    capacity: int,
    batches: Seq<Seq<FrameDesc>>,
    rooms: Seq<int>,
)
    requires
        queue.len() + concat(batches).len() <= capacity,
        forall|i: int| 0 <= i < rooms.len() ==> rooms[i] >= 0,
        total(rooms) >= queue.len() + concat(batches).len(),
    ensures
        consume_all(produce_all(queue, capacity, batches), rooms) == queue + concat(batches),
        left_after(produce_all(queue, capacity, batches), rooms).len() == 0,
{
    lemma_produce_all_fits(queue, capacity, batches);
    lemma_consume_all_in_order(queue + concat(batches), rooms);
}

} // verus!
