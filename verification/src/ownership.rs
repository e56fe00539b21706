//! Who holds which frame.
//!
//! Every frame of a pool is held by exactly one party at a time: one of the
//! four rings, or user code, which keeps its frames on the free list. Moving
//! a descriptor from one to another changes who holds the frame, never how
//! many hold it. The functions of the engine and of the driver model state
//! that they keep it so; the lemmas here are what they rest on.

use crate::af_xdp::Xsk;
use crate::engine::with_len;
use crate::frame::{frame_addr, pool_descriptors, FrameDesc, FramePool};
use crate::kernel::{completion_desc, rx_desc};
use crate::ring::{accepted, after_consume, after_produce, taken};
use crate::loopback::completions;
use vstd::multiset::Multiset;
use vstd::prelude::*;

verus! {

/// The frames that `descs` name, each as often as it is named.
pub open spec fn addrs(descs: Seq<FrameDesc>) -> Multiset<usize> {
    descs.map_values(|d: FrameDesc| d.addr).to_multiset()
}

/// The frames that a free list and four rings hold together, each as often
/// as it is held.
pub open spec fn held_of(
    free: Seq<FrameDesc>,
    fq: Seq<FrameDesc>,
    rx: Seq<FrameDesc>,
    tx: Seq<FrameDesc>,
    cq: Seq<FrameDesc>,
) -> Multiset<usize> {
    addrs(free).add(addrs(fq)).add(addrs(rx)).add(addrs(tx)).add(addrs(cq))
}

impl Xsk {
    /// The frames that the free list and the rings hold, each as often as
    /// it is held.
    pub open spec fn held(&self) -> Multiset<usize> {
        held_of(self.descs@, self.fq@, self.rx_q@, self.tx_q@, self.cq@)
    }

    /// Every frame of the pool is held exactly once, and nothing else is.
    pub open spec fn partitioned(&self) -> bool {
        self.held() == addrs(pool_descriptors(self.umem.frame_bytes(), self.umem.frames()))
    }
}

/// Descriptors named one after another are named together.
pub proof fn lemma_addrs_concat(a: Seq<FrameDesc>, b: Seq<FrameDesc>)
    ensures
        addrs(a + b) == addrs(a).add(addrs(b)),
{
    let f = |d: FrameDesc| d.addr;
    assert((a + b).map_values(f) =~= a.map_values(f) + b.map_values(f));
    vstd::seq_lib::lemma_multiset_commutative(a.map_values(f), b.map_values(f));
}

/// Cutting a list in two loses no frame and adds none.
pub proof fn lemma_addrs_split(s: Seq<FrameDesc>, n: int)
    requires
        0 <= n <= s.len(),
    ensures
        addrs(s) == addrs(s.take(n)).add(addrs(s.skip(n))),
        addrs(s) == addrs(s.subrange(0, n)).add(addrs(s.subrange(n, s.len() as int))),
{
    assert(s =~= s.take(n) + s.skip(n));
    assert(s.take(n) =~= s.subrange(0, n));
    assert(s.skip(n) =~= s.subrange(n, s.len() as int));
    lemma_addrs_concat(s.take(n), s.skip(n));
}

/// No list names no frame.
pub proof fn lemma_addrs_empty(s: Seq<FrameDesc>)
    requires
        s.len() == 0,
    ensures
        addrs(s) == Multiset::<usize>::empty(),
{
    let f = |d: FrameDesc| d.addr;
    vstd::seq_lib::to_multiset_len(s.map_values(f));
    vstd::multiset::lemma_multiset_empty_len(addrs(s));
}

/// One more descriptor names one more frame.
pub proof fn lemma_addrs_push(s: Seq<FrameDesc>, d: FrameDesc)
    ensures
        addrs(s.push(d)) == addrs(s).insert(d.addr),
{
    let f = |d: FrameDesc| d.addr;
    assert(s.push(d).map_values(f) =~= s.map_values(f).push(d.addr));
    vstd::seq_lib::to_multiset_build(s.map_values(f), d.addr);
}

/// A list names the frame of its first descriptor and those of the rest.
pub proof fn lemma_addrs_first(s: Seq<FrameDesc>)
    requires
        s.len() > 0,
    ensures
        addrs(s) == addrs(s.skip(1)).insert(s[0].addr),
{
    lemma_addrs_split(s, 1);
    assert(s.take(1) =~= Seq::<FrameDesc>::empty().push(s[0]));
    lemma_addrs_push(Seq::<FrameDesc>::empty(), s[0]);
    lemma_addrs_empty(Seq::<FrameDesc>::empty());
    assert(addrs(s) =~= addrs(s.skip(1)).insert(s[0].addr));
}

/// Another valid length names the same frame.
pub proof fn lemma_addrs_with_len(s: Seq<FrameDesc>, width: int)
    ensures
        addrs(with_len(s, width)) == addrs(s),
{
    let f = |d: FrameDesc| d.addr;
    assert(with_len(s, width).map_values(f) =~= s.map_values(f));
}

/// A frame reported as sent is the frame that was sent.
pub proof fn lemma_addrs_completions(s: Seq<FrameDesc>)
    ensures
        addrs(completions(s)) == addrs(s),
{
    let f = |d: FrameDesc| d.addr;
    assert(completions(s).map_values(f) =~= s.map_values(f));
}

/// A cycle of the sender moves frames from the free list to the Tx ring and
/// from the Completion ring to the free list, and holds on to every one.
pub proof fn lemma_tx_cycle_keeps_frames(
    free: Seq<FrameDesc>,
    fq: Seq<FrameDesc>,
    rx: Seq<FrameDesc>,
    tx: Seq<FrameDesc>,
    cq: Seq<FrameDesc>,
    tx_cap: int,
    k: int,
    width: int,
    room: int,
)
    requires
        0 <= k <= free.len(),
        tx.len() <= tx_cap,
        0 <= room,
    ensures
        ({
            let keep = free.len() - k;
            let batch = with_len(free.subrange(keep, free.len() as int), width);
            let a = accepted(tx.len() as int, tx_cap, k);
            let back = taken(cq, room);
            held_of(
                free.subrange(0, keep) + batch.skip(a) + back,
                fq,
                rx,
                tx + batch.take(a),
                after_consume(cq, room),
            ) == held_of(free, fq, rx, tx, cq)
        }),
{
    let keep = free.len() - k;
    let chosen = free.subrange(keep, free.len() as int);
    let batch = with_len(chosen, width);
    let a = accepted(tx.len() as int, tx_cap, k);
    let back = taken(cq, room);
    let c = back.len() as int;
    assert(back == cq.take(c));
    lemma_addrs_split(free, keep);
    lemma_addrs_with_len(chosen, width);
    lemma_addrs_split(batch, a);
    lemma_addrs_split(cq, c);
    lemma_addrs_concat(tx, batch.take(a));
    lemma_addrs_concat(free.subrange(0, keep), batch.skip(a));
    lemma_addrs_concat(free.subrange(0, keep) + batch.skip(a), back);
    assert(held_of(
        free.subrange(0, keep) + batch.skip(a) + back,
        fq,
        rx,
        tx + batch.take(a),
        after_consume(cq, room),
    ) =~= held_of(free, fq, rx, tx, cq));
}

/// A cycle of the receiver moves frames from the free list to the Fill ring
/// and from the Rx ring to the Fill ring or the free list, and holds on to
/// every one.
pub proof fn lemma_rx_cycle_keeps_frames(
    free: Seq<FrameDesc>,
    fq: Seq<FrameDesc>,
    rx: Seq<FrameDesc>,
    tx: Seq<FrameDesc>,
    cq: Seq<FrameDesc>,
    fq_cap: int,
    room: int,
)
    requires
        fq.len() <= fq_cap,
        0 <= room,
    ensures
        ({
            let donated = accepted(fq.len() as int, fq_cap, free.len() as int);
            let filled = after_produce(fq, fq_cap, free);
            let got = taken(rx, room);
            let again = accepted(filled.len() as int, fq_cap, got.len() as int);
            held_of(
                free.skip(donated) + got.skip(again),
                after_produce(filled, fq_cap, got),
                after_consume(rx, room),
                tx,
                cq,
            ) == held_of(free, fq, rx, tx, cq)
        }),
{
    let donated = accepted(fq.len() as int, fq_cap, free.len() as int);
    let filled = after_produce(fq, fq_cap, free);
    let got = taken(rx, room);
    let again = accepted(filled.len() as int, fq_cap, got.len() as int);
    lemma_addrs_split(free, donated);
    lemma_addrs_concat(fq, free.take(donated));
    lemma_addrs_split(rx, got.len() as int);
    lemma_addrs_split(got, again);
    lemma_addrs_concat(filled, got.take(again));
    lemma_addrs_concat(free.skip(donated), got.skip(again));
    assert(held_of(
        free.skip(donated) + got.skip(again),
        after_produce(filled, fq_cap, got),
        after_consume(rx, room),
        tx,
        cq,
    ) =~= held_of(free, fq, rx, tx, cq));
}

/// Sending a frame moves it from the Tx ring to the Completion ring.
pub proof fn lemma_transmit_keeps_frames(
    free: Seq<FrameDesc>,
    fq: Seq<FrameDesc>,
    rx: Seq<FrameDesc>,
    tx: Seq<FrameDesc>,
    cq: Seq<FrameDesc>,
)
    requires
        tx.len() > 0,
    ensures
        held_of(free, fq, rx, tx.skip(1), cq.push(completion_desc(tx[0].addr))) == held_of(
            free,
            fq,
            rx,
            tx,
            cq,
        ),
{
    lemma_addrs_first(tx);
    lemma_addrs_push(cq, completion_desc(tx[0].addr));
    assert(held_of(free, fq, rx, tx.skip(1), cq.push(completion_desc(tx[0].addr))) =~= held_of(
        free,
        fq,
        rx,
        tx,
        cq,
    ));
}

/// Delivering a packet moves a frame from the Fill ring to the Rx ring.
pub proof fn lemma_receive_keeps_frames(
    free: Seq<FrameDesc>,
    fq: Seq<FrameDesc>,
    rx: Seq<FrameDesc>,
    tx: Seq<FrameDesc>,
    cq: Seq<FrameDesc>,
    len: usize,
)
    requires
        fq.len() > 0,
    ensures
        held_of(free, fq.skip(1), rx.push(rx_desc(fq[0].addr, len)), tx, cq) == held_of(
            free,
            fq,
            rx,
            tx,
            cq,
        ),
{
    lemma_addrs_first(fq);
    lemma_addrs_push(rx, rx_desc(fq[0].addr, len));
    assert(held_of(free, fq.skip(1), rx.push(rx_desc(fq[0].addr, len)), tx, cq) =~= held_of(
        free,
        fq,
        rx,
        tx,
        cq,
    ));
}

/// Sending several frames moves them from the Tx ring to the Completion ring.
pub proof fn lemma_transmit_all_keeps_frames(
    free: Seq<FrameDesc>,
    fq: Seq<FrameDesc>,
    rx: Seq<FrameDesc>,
    tx: Seq<FrameDesc>,
    cq: Seq<FrameDesc>,
    n: int,
)
    requires
        0 <= n <= tx.len(),
    ensures
        held_of(free, fq, rx, tx.skip(n), cq + completions(tx.take(n))) == held_of(
            free,
            fq,
            rx,
            tx,
            cq,
        ),
{
    lemma_addrs_split(tx, n);
    lemma_addrs_completions(tx.take(n));
    lemma_addrs_concat(cq, completions(tx.take(n)));
    assert(held_of(free, fq, rx, tx.skip(n), cq + completions(tx.take(n))) =~= held_of(
        free,
        fq,
        rx,
        tx,
        cq,
    ));
}

/// In a socket whose frames are partitioned, no frame is held twice, and the
/// addresses held are the starts of the pool's frames and nothing else. So
/// no frame can be on two rings at once, nor on a ring and free.
pub proof fn lemma_each_frame_held_once(xsk: Xsk, addr: usize)
    requires
        xsk.umem.wf(),
        xsk.partitioned(),
    ensures
        xsk.held().count(addr) <= 1,
        xsk.held().count(addr) == 1 <==> xsk.umem.owns(FrameDesc { addr, len: 0, options: 0 }),
{
    lemma_pool_addresses(xsk.umem, addr);
}

/// The descriptors of a fresh pool name every frame once.
pub proof fn lemma_pool_addresses(umem: FramePool, addr: usize)
    requires
        umem.wf(),
    ensures
        ({
            let all = addrs(pool_descriptors(umem.frame_bytes(), umem.frames()));
            &&& all.count(addr) <= 1
            &&& all.count(addr) == 1 <==> umem.owns(FrameDesc { addr, len: 0, options: 0 })
        }),
{
    let fs = umem.frame_bytes();
    let fc = umem.frames();
    let f = |d: FrameDesc| d.addr;
    let starts = pool_descriptors(fs, fc).map_values(f);
    assert forall|i: int| 0 <= i < fc implies 0 <= #[trigger] frame_addr(i, fs) <= usize::MAX
        && starts[i] == frame_addr(i, fs) by {
        assert(0 <= i * fs && i * fs + fs <= fs * fc) by (nonlinear_arith)
            requires
                0 < fs,
                0 <= i < fc,
        ;
    }
    assert forall|i: int, j: int| 0 <= i < starts.len() && 0 <= j < starts.len() && i != j implies starts[i]
        != starts[j] by {
        assert(frame_addr(i, fs) != frame_addr(j, fs)) by (nonlinear_arith)
            requires
                0 < fs,
                i != j,
        ;
    }
    assert(starts.no_duplicates());
    starts.lemma_multiset_has_no_duplicates();
    vstd::seq_lib::to_multiset_contains(starts, addr);
    let all = starts.to_multiset();
    if starts.contains(addr) {
        let i = choose|i: int| 0 <= i < starts.len() && starts[i] == addr;
        vstd::arithmetic::div_mod::lemma_fundamental_div_mod_converse(i * fs, fs, i, 0);
        assert(all.contains(addr));
    }
    if umem.owns(FrameDesc { addr, len: 0, options: 0 }) {
        let i = (addr as int) / fs;
        vstd::arithmetic::div_mod::lemma_fundamental_div_mod(addr as int, fs);
        vstd::arithmetic::mul::lemma_mul_is_commutative(fs, i);
        assert(0 <= i) by (nonlinear_arith)
            requires
                i == (addr as int) / fs,
                0 < fs,
                0 <= addr,
        ;
        assert(starts[i] == addr);
        assert(starts.contains(addr));
    }
}

} // verus!
