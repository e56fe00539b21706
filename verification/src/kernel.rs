//! The peer's side of a socket: what the driver behind the rings does.
//!
//! The driver takes frames from the Tx ring, puts their bytes on the wire and
//! returns the frames through the Completion ring. For a packet that
//! arrives, it takes a frame from the Fill ring, writes the packet into it
//! and hands the frame over through the Rx ring. Here both are plain
//! functions on a socket, so that sender and receiver can be run against
//! each other inside one process.

use crate::af_xdp::{RingFault, RingKind, RingOp, Xsk};
use crate::frame::FrameDesc;
use crate::ownership::{lemma_receive_keeps_frames, lemma_transmit_keeps_frames};
use crate::ring::{after_produce, taken};
use vstd::prelude::*;

verus! {

/// The descriptor that reports the frame at `addr` as sent.
pub open spec fn completion_desc(addr: usize) -> FrameDesc {
    FrameDesc { addr, len: 0, options: 0 }
}

/// The descriptor that hands over the frame at `addr` with `len` bytes received.
pub open spec fn rx_desc(addr: usize, len: usize) -> FrameDesc {
    FrameDesc { addr, len, options: 0 }
}

/// The pool after `packet` was written at `addr`.
pub open spec fn received_into(mem: Seq<u8>, addr: int, packet: Seq<u8>) -> Seq<u8> {
    mem.subrange(0, addr) + packet + mem.subrange(addr + packet.len(), mem.len() as int)
}

/// The bytes that go on the wire for `desc`.
pub open spec fn wire_bytes(mem: Seq<u8>, desc: FrameDesc) -> Seq<u8> {
    mem.subrange(desc.addr as int, desc.addr + desc.len)
}

/// Copies `src` to the front of `dst`.
fn copy_to_front(dst: &mut [u8], src: &[u8])
    requires
        src@.len() <= old(dst)@.len(),
    ensures
        final(dst)@ == src@ + old(dst)@.skip(src@.len() as int),
{
    let n: usize = src.len();
    let mut i: usize = 0;
    while i < n
        invariant
            i <= n,
            n == src@.len(),
            n <= dst@.len(),
            dst@.len() == old(dst)@.len(),
            forall|j: int| 0 <= j < i ==> dst@[j] == src@[j],
            forall|j: int| i <= j < dst@.len() ==> dst@[j] == old(dst)@[j],
        decreases n - i,
    {
        dst[i] = src[i];
        i = i + 1;
    }
    assert(dst@ =~= src@ + old(dst)@.skip(src@.len() as int));
}

impl Xsk {
    /// Whether the driver can send a frame: one is queued for transmission
    /// and the Completion ring has a slot for it.
    pub open spec fn can_transmit(&self) -> bool {
        self.tx_q@.len() > 0 && self.cq@.len() < self.cq.cap()
    }

    /// Whether the driver can deliver a packet of `len` bytes: a frame is
    /// donated, the packet fits into it, and the Rx ring has a slot.
    pub open spec fn can_receive(&self, len: int) -> bool {
        self.fq@.len() > 0 && self.rx_q@.len() < self.rx_q.cap() && len <= self.umem.frame_bytes()
    }

    /// The driver sends one frame: the oldest of the Tx ring. Its valid bytes
    /// are the packet, which is returned, and its descriptor goes to the
    /// Completion ring. Returns `None`, and changes nothing, where no frame
    /// can be sent.
    ///
    /// A descriptor on the Tx ring that names no frame of the pool is a
    /// fault: it is taken off the ring and nothing is sent.
    pub fn kernel_transmit(&mut self) -> (r: Result<Option<Vec<u8>>, RingFault>)
        requires
            old(self).wf(),
        ensures
            final(self).wf(),
            final(self).umem == old(self).umem,
            final(self).fq == old(self).fq,
            final(self).rx_q == old(self).rx_q,
            final(self).descs == old(self).descs,
            final(self).queue_id == old(self).queue_id,
            final(self).fd == old(self).fd,
            final(self).tx_q.cap() == old(self).tx_q.cap(),
            final(self).cq.cap() == old(self).cq.cap(),
            r is Ok ==> final(self).held() == old(self).held(),
            !old(self).can_transmit() ==> {
                &&& r == Ok::<Option<Vec<u8>>, RingFault>(None)
                &&& final(self).tx_q@ == old(self).tx_q@
                &&& final(self).cq@ == old(self).cq@
            },
            old(self).can_transmit() ==> {
                let desc = old(self).tx_q@[0];
                &&& final(self).tx_q@ == old(self).tx_q@.skip(1)
                &&& old(self).umem.owns(desc) ==> {
                    &&& r matches Ok(Some(packet))
                    &&& packet@ == wire_bytes(old(self).umem@, desc)
                    &&& final(self).cq@ == old(self).cq@.push(completion_desc(desc.addr))
                }
                &&& !old(self).umem.owns(desc) ==> {
                    &&& r == Err::<Option<Vec<u8>>, RingFault>(
                        RingFault { ring: RingKind::Tx, op: RingOp::Consume },
                    )
                    &&& final(self).cq@ == old(self).cq@
                }
            },
    {
        if self.tx_q.is_empty() || self.cq.is_full() {
            return Ok(None);
        }
        let mut one: Vec<FrameDesc> = vec![FrameDesc::new(0)];
        let _taken = self.tx_q.consume(&mut one);
        let desc: FrameDesc = one[0];
        proof {
            assert(desc == old(self).tx_q@[0]);
            assert(self.tx_q@ =~= old(self).tx_q@.skip(1));
        }
        if !self.umem.contains(&desc) {
            return Err(RingFault { ring: RingKind::Tx, op: RingOp::Consume });
        }
        let packet: Vec<u8> = vstd::slice::slice_to_vec(self.umem.data(&desc));
        let done: Vec<FrameDesc> = vec![FrameDesc::new(desc.addr)];
        let _given = self.cq.produce(done.as_slice());
        proof {
            assert(done@.take(1) =~= done@);
            assert(self.cq@ =~= old(self).cq@.push(completion_desc(desc.addr)));
            lemma_transmit_keeps_frames(
                self.descs@,
                self.fq@,
                self.rx_q@,
                old(self).tx_q@,
                old(self).cq@,
            );
        }
        Ok(Some(packet))
    }

    /// The driver delivers one packet: it is written to the front of the
    /// oldest frame of the Fill ring, and the frame's descriptor, with the
    /// packet's length, goes to the Rx ring. Returns `false`, and changes
    /// nothing, where the packet cannot be delivered and is dropped.
    ///
    /// A descriptor on the Fill ring that names no frame of the pool is a
    /// fault: it is taken off the ring and nothing is delivered.
    pub fn kernel_receive(&mut self, packet: &[u8]) -> (r: Result<bool, RingFault>)
        requires
            old(self).wf(),
        ensures
            final(self).wf(),
            final(self).tx_q == old(self).tx_q,
            final(self).cq == old(self).cq,
            final(self).descs == old(self).descs,
            final(self).queue_id == old(self).queue_id,
            final(self).fd == old(self).fd,
            final(self).fq.cap() == old(self).fq.cap(),
            final(self).rx_q.cap() == old(self).rx_q.cap(),
            final(self).umem.frame_bytes() == old(self).umem.frame_bytes(),
            final(self).umem.frames() == old(self).umem.frames(),
            r is Ok ==> final(self).held() == old(self).held(),
            !old(self).can_receive(packet@.len() as int) ==> {
                &&& r == Ok::<bool, RingFault>(false)
                &&& final(self).fq@ == old(self).fq@
                &&& final(self).rx_q@ == old(self).rx_q@
                &&& final(self).umem@ == old(self).umem@
            },
            old(self).can_receive(packet@.len() as int) ==> {
                let desc = old(self).fq@[0];
                &&& final(self).fq@ == old(self).fq@.skip(1)
                &&& old(self).umem.owns(desc) ==> {
                    &&& r == Ok::<bool, RingFault>(true)
                    &&& final(self).umem@ == received_into(
                        old(self).umem@,
                        desc.addr as int,
                        packet@,
                    )
                    &&& final(self).rx_q@ == old(self).rx_q@.push(
                        rx_desc(desc.addr, packet@.len() as usize),
                    )
                }
                &&& !old(self).umem.owns(desc) ==> {
                    &&& r == Err::<bool, RingFault>(
                        RingFault { ring: RingKind::Fill, op: RingOp::Consume },
                    )
                    &&& final(self).umem@ == old(self).umem@
                    &&& final(self).rx_q@ == old(self).rx_q@
                }
            },
    {
        if self.fq.is_empty() || self.rx_q.is_full() || packet.len() > self.umem.frame_size() {
            return Ok(false);
        }
        let mut one: Vec<FrameDesc> = vec![FrameDesc::new(0)];
        let _taken = self.fq.consume(&mut one);
        let desc: FrameDesc = one[0];
        proof {
            assert(desc == old(self).fq@[0]);
            assert(self.fq@ =~= old(self).fq@.skip(1));
        }
        if !self.umem.contains(&desc) {
            return Err(RingFault { ring: RingKind::Fill, op: RingOp::Consume });
        }
        proof {
            self.umem.lemma_owned_in_bounds(desc);
        }
        let frame = self.umem.frame_view(&desc);
        copy_to_front(frame, packet);
        proof {
            assert(self.umem@ =~= received_into(old(self).umem@, desc.addr as int, packet@));
        }
        let filled: Vec<FrameDesc> = vec![
            FrameDesc { addr: desc.addr, len: packet.len(), options: 0 },
        ];
        let _given = self.rx_q.produce(filled.as_slice());
        proof {
            assert(filled@.take(1) =~= filled@);
            assert(self.rx_q@ =~= old(self).rx_q@.push(rx_desc(desc.addr, packet@.len() as usize)));
            lemma_receive_keeps_frames(
                self.descs@,
                old(self).fq@,
                old(self).rx_q@,
                self.tx_q@,
                self.cq@,
                packet@.len() as usize,
            );
        }
        Ok(true)
    }
}

/// A frame that goes round once comes back with what it was given. The frame
/// is donated through an empty Fill ring; the driver writes `packet` into it
/// and hands it over through an empty Rx ring; the receiver echoes the
/// descriptor through an empty Tx ring; the driver sends it and returns it
/// through an empty Completion ring. Then the bytes on the wire are the
/// packet, the frame holds the packet where it was written, and the
/// descriptor that comes back names the frame that was donated.
pub proof fn lemma_round_trip(
    mem: Seq<u8>,
    frame: FrameDesc,
    packet: Seq<u8>,
    fill_cap: int,
    rx_cap: int,
    tx_cap: int,
    comp_cap: int,
)
    requires
        fill_cap >= 1,
        rx_cap >= 1,
        tx_cap >= 1,
        comp_cap >= 1,
        frame.addr + packet.len() <= mem.len(),
        packet.len() <= usize::MAX,
    ensures
        ({
            let none = Seq::<FrameDesc>::empty();
            let donated = taken(after_produce(none, fill_cap, seq![frame]), 1)[0];
            let written = received_into(mem, donated.addr as int, packet);
            let handed = none.push(rx_desc(donated.addr, packet.len() as usize));
            let got = taken(handed, 1)[0];
            let echoed = taken(after_produce(none, tx_cap, seq![got]), 1)[0];
            let sent = wire_bytes(written, echoed);
            let done = none.push(completion_desc(echoed.addr));
            let back = taken(done, 1)[0];
            &&& sent == packet
            &&& wire_bytes(written, got) == packet
            &&& back.addr == frame.addr
        }),
{
    let none = Seq::<FrameDesc>::empty();
    let queue = after_produce(none, fill_cap, seq![frame]);
    assert(seq![frame].take(1) =~= seq![frame]);
    assert(queue =~= seq![frame]);
    let donated = taken(queue, 1)[0];
    assert(donated == frame);
    let written = received_into(mem, donated.addr as int, packet);
    let handed = none.push(rx_desc(donated.addr, packet.len() as usize));
    let got = taken(handed, 1)[0];
    assert(got == rx_desc(frame.addr, packet.len() as usize));
    let tx = after_produce(none, tx_cap, seq![got]);
    assert(seq![got].take(1) =~= seq![got]);
    assert(tx =~= seq![got]);
    let echoed = taken(tx, 1)[0];
    assert(echoed == got);
    assert(wire_bytes(written, echoed) =~= packet);
}

} // verus!
