//! The benchmark engine: one cycle of the sender, one cycle of the receiver.
//!
//! A sender cycle takes free frames, writes the synthetic payload into each,
//! offers them to the Tx ring and reclaims what the Completion ring returns.
//! A receiver cycle donates free frames to the Fill ring, takes what the Rx
//! ring holds and donates those frames again. Neither cycle waits: a ring
//! that takes or gives nothing is backpressure, and the caller comes back.

use crate::af_xdp::{generate_test_packet, payload_byte, RingFault, RingKind, RingOp, Xsk};
use crate::config::Config;
use crate::frame::{check_names_frame, names_frame, FrameDesc, FramePool};
use crate::metrics::{counted, BenchmarkMetrics};
use crate::ownership::{lemma_rx_cycle_keeps_frames, lemma_tx_cycle_keeps_frames};
use crate::ring::{accepted, after_consume, after_produce, min, taken};
use vstd::prelude::*;

verus! {

/// How many frames the next batch holds: no more than a batch may hold, than
/// packets are left to send, and than frames are free.
pub open spec fn batch_len(max_batch_size: int, to_send: int, sent: int, free: int) -> int {
    min(max_batch_size, min(if to_send > sent { to_send - sent } else { 0 }, free))
}

/// Decides how many frames the next batch holds.
pub fn next_batch_len(max_batch_size: usize, to_send: usize, sent: usize, free: usize) -> (n: usize)
    ensures
        n == batch_len(max_batch_size as int, to_send as int, sent as int, free as int),
{
    let left: usize = if to_send > sent {
        to_send - sent
    } else {
        0
    };
    let most: usize = if left < free {
        left
    } else {
        free
    };
    if max_batch_size < most {
        max_batch_size
    } else {
        most
    }
}

/// Whether byte `at` of the pool lies within the first `width` bytes of one
/// of the first `n` frames of `batch`.
pub open spec fn covered(batch: Seq<FrameDesc>, n: int, width: int, at: int) -> bool {
    exists|i: int| 0 <= i < n && (#[trigger] batch[i]).addr <= at < batch[i].addr + width
}

/// The pool after the first `width` bytes of each of the first `n` frames of
/// `batch` were overwritten with the synthetic payload.
pub open spec fn with_payloads(
    mem: Seq<u8>,
    batch: Seq<FrameDesc>,
    n: int,
    frame_size: int,
    width: int,
) -> Seq<u8> {
    Seq::new(
        mem.len(),
        |at: int|
            if covered(batch, n, width, at) {
                payload_byte(at % frame_size)
            } else {
                mem[at]
            },
    )
}

/// `batch` with the valid length of every descriptor set to `width`.
pub open spec fn with_len(batch: Seq<FrameDesc>, width: int) -> Seq<FrameDesc> {
    Seq::new(
        batch.len(),
        |i: int| FrameDesc { addr: batch[i].addr, len: width as usize, options: batch[i].options },
    )
}

/// A byte of a frame lies as far into the pool's frame grid as into the frame.
proof fn lemma_offset_in_frame(addr: int, frame_size: int, offset: int)
    requires
        0 < frame_size,
        0 <= addr,
        addr % frame_size == 0,
        0 <= offset < frame_size,
    ensures
        (addr + offset) % frame_size == offset,
{
    vstd::arithmetic::div_mod::lemma_fundamental_div_mod(addr, frame_size);
    vstd::arithmetic::mul::lemma_mul_is_commutative(frame_size, addr / frame_size);
    vstd::arithmetic::div_mod::lemma_fundamental_div_mod_converse(
        addr + offset,
        frame_size,
        addr / frame_size,
        offset,
    );
}

/// Writes the synthetic payload into every frame of `batch` and records in
/// each descriptor how many bytes of the frame are now valid.
pub fn fill_batch(umem: &mut FramePool, batch: &mut Vec<FrameDesc>, payload_size: usize)
    requires
        old(umem).wf(),
        forall|i: int| 0 <= i < old(batch)@.len() ==> old(umem).owns(#[trigger] old(batch)@[i]),
    ensures
        final(umem).wf(),
        final(umem).frame_bytes() == old(umem).frame_bytes(),
        final(umem).frames() == old(umem).frames(),
        final(batch)@ == with_len(
            old(batch)@,
            min(payload_size as int, old(umem).frame_bytes()),
        ),
        final(umem)@ == with_payloads(
            old(umem)@,
            old(batch)@,
            old(batch)@.len() as int,
            old(umem).frame_bytes(),
            min(payload_size as int, old(umem).frame_bytes()),
        ),
        forall|i: int| 0 <= i < final(batch)@.len() ==> final(umem).owns(#[trigger] final(batch)@[i]),
{
    let ghost mem0 = umem@;
    let ghost batch0 = batch@;
    let ghost fs = umem.frame_bytes();
    let ghost width = min(payload_size as int, fs);
    let n: usize = batch.len();
    let mut i: usize = 0;
    while i < n
        invariant
            umem.wf(),
            umem.frame_bytes() == fs,
            umem.frames() == old(umem).frames(),
            mem0.len() == umem@.len(),
            width == min(payload_size as int, fs),
            0 <= width <= fs,
            i <= n,
            n == batch@.len(),
            batch0.len() == n,
            forall|j: int| 0 <= j < n ==> umem.owns(#[trigger] batch0[j]),
            forall|j: int|
                0 <= j < i ==> #[trigger] batch@[j] == (FrameDesc {
                    addr: batch0[j].addr,
                    len: width as usize,
                    options: batch0[j].options,
                }),
            forall|j: int| i <= j < n ==> #[trigger] batch@[j] == batch0[j],
            umem@ == with_payloads(mem0, batch0, i as int, fs, width),
        decreases n - i,
    {
        let desc: FrameDesc = batch[i];
        let ghost before = umem@;
        let ghost addr = desc.addr as int;
        proof {
            assert(desc == batch0[i as int]);
            umem.lemma_owned_in_bounds(desc);
        }
        let frame = umem.frame_view(&desc);
        let written: usize = generate_test_packet(frame, payload_size);
        batch[i] = FrameDesc { addr: desc.addr, len: written, options: desc.options };
        proof {
            assert(written == width);
            let after = umem@;
            assert(after.len() == before.len());
            let want = with_payloads(mem0, batch0, i + 1, fs, width);
            assert forall|at: int| 0 <= at < after.len() implies after[at] == want[at] by {
                if addr <= at < addr + width {
                    lemma_offset_in_frame(addr, fs, at - addr);
                    assert(batch0[i as int].addr <= at < batch0[i as int].addr + width);
                    assert(covered(batch0, i + 1, width, at));
                } else {
                    assert(after[at] == before[at]);
                    if covered(batch0, i + 1, width, at) {
                        let j = choose|j: int|
                            0 <= j < i + 1 && (#[trigger] batch0[j]).addr <= at < batch0[j].addr
                                + width;
                        assert(j != i);
                        assert(covered(batch0, i as int, width, at));
                    }
                    if covered(batch0, i as int, width, at) {
                        let j = choose|j: int|
                            0 <= j < i && (#[trigger] batch0[j]).addr <= at < batch0[j].addr
                                + width;
                        assert(covered(batch0, i + 1, width, at));
                    }
                }
            }
            assert(after =~= want);
        }
        i = i + 1;
    }
    proof {
        assert(batch@ =~= with_len(batch0, width));
    }
}

/// What one cycle of the sender did.
#[derive(Debug, Clone, Copy, PartialEq, Eq, Structural)]
pub struct TxCycle {
    /// Frames in the batch that was offered to the Tx ring.
    pub batch: usize,
    /// Frames of the batch that the Tx ring took.
    pub accepted: usize,
    /// Frames that came back from the Completion ring.
    pub reclaimed: usize,
    /// Whether the peer was woken.
    pub woke: bool,
}

/// Whether every descriptor of `descs` names a frame of `umem`.
pub open spec fn all_owned(umem: FramePool, descs: Seq<FrameDesc>) -> bool {
    forall|i: int| 0 <= i < descs.len() ==> umem.owns(#[trigger] descs[i])
}

/// Whether every descriptor of `descs` names one of `frame_count` frames of
/// `frame_size` bytes. No descriptor names a frame of no bytes.
pub open spec fn all_name_frames(descs: Seq<FrameDesc>, frame_size: int, frame_count: int) -> bool {
    forall|i: int|
        0 <= i < descs.len() ==> frame_size > 0 && names_frame(
            (#[trigger] descs[i]).addr as int,
            descs[i].len as int,
            frame_size,
            frame_count,
        )
}

/// Decides whether every descriptor that a ring handed over names a frame:
/// if one does not, the ring is at fault.
pub fn check_all_name_frames(descs: &[FrameDesc], frame_size: usize, frame_count: usize) -> (b:
    bool)
    ensures
        b == all_name_frames(descs@, frame_size as int, frame_count as int),
{
    let mut i: usize = 0;
    while i < descs.len()
        invariant
            i <= descs@.len(),
            all_name_frames(descs@.take(i as int), frame_size as int, frame_count as int),
        decreases descs@.len() - i,
    {
        if !check_names_frame(&descs[i], frame_size, frame_count) {
            return false;
        }
        proof {
            let seen = descs@.take(i + 1);
            assert forall|j: int| 0 <= j < seen.len() implies frame_size > 0 && names_frame(
                (#[trigger] seen[j]).addr as int,
                seen[j].len as int,
                frame_size as int,
                frame_count as int,
            ) by {
                if j < i {
                    assert(descs@.take(i as int)[j] == seen[j]);
                }
            }
        }
        i = i + 1;
    }
    proof {
        assert(descs@.take(i as int) =~= descs@);
    }
    true
}

/// Decides whether every descriptor of `descs` names a frame of `umem`.
pub fn check_all_owned(umem: &FramePool, descs: &Vec<FrameDesc>) -> (b: bool)
    requires
        umem.wf(),
    ensures
        b == all_owned(*umem, descs@),
{
    check_all_name_frames(descs.as_slice(), umem.frame_size(), umem.frame_count())
}

/// Whether the peer has to be woken after `accepted` of `offered` frames
/// were taken: only when some were left over and the peer asked for it.
pub open spec fn wakeup_due(offered: int, accepted: int, needs_wakeup: bool) -> bool {
    accepted < offered && needs_wakeup
}

/// Decides whether the peer has to be woken.
pub fn must_wake(offered: usize, accepted: usize, needs_wakeup: bool) -> (wake: bool)
    ensures
        wake == wakeup_due(offered as int, accepted as int, needs_wakeup),
{
    accepted < offered && needs_wakeup
}

/// Where a batch stands after it was offered to the Tx ring.
#[derive(Debug, Clone, Copy, PartialEq, Eq, Structural)]
pub struct Offer {
    /// Frames of the batch that the ring has taken so far.
    pub sent: usize,
    /// Whether the peer has to be woken before the rest is offered again.
    pub wake: bool,
    /// Whether the ring has taken the whole batch.
    pub done: bool,
}

/// Where a batch of `batch` frames stands when `sent` of them were taken
/// before and an offer of the rest got `accepted` more taken. A ring cannot
/// take more than it was offered; a count beyond that is cut to the rest.
pub open spec fn offer_outcome(batch: int, sent: int, accepted: int, needs_wakeup: bool) -> Offer {
    let now = min(batch, sent + accepted);
    Offer {
        sent: now as usize,
        wake: wakeup_due(batch - sent, accepted, needs_wakeup),
        done: now == batch,
    }
}

/// Decides where a batch stands after one offer: only the frames not yet
/// taken are offered again, and the peer is woken only if some were left
/// over and it asked for that.
pub fn after_offer(batch: usize, sent: usize, accepted: usize, needs_wakeup: bool) -> (o: Offer)
    requires
        sent <= batch,
    ensures
        o == offer_outcome(batch as int, sent as int, accepted as int, needs_wakeup),
{
    let rest: usize = batch - sent;
    let taken: usize = if accepted < rest {
        accepted
    } else {
        rest
    };
    let now: usize = sent + taken;
    Offer { sent: now, wake: must_wake(rest, accepted, needs_wakeup), done: now == batch }
}

/// How often a peer has been woken after `woke` says whether it was woken
/// once more.
pub open spec fn wakeups_after(before: int, woke: bool) -> int {
    if woke {
        min(before + 1, u64::MAX as int)
    } else {
        before
    }
}

/// One cycle of the sender.
///
/// The batch is made of the free frames at the end of `xsk.descs`, as many
/// as `batch_len` says. Each gets the synthetic payload. The batch is offered
/// to the Tx ring once; frames that the ring did not take stay free and are
/// offered again in the next cycle, and the peer is woken if it asked for
/// that. `stats` counts the frames that the ring took. Then the Completion
/// ring is drained of up to `max_batch_size` descriptors, which become free.
///
/// A descriptor from the Completion ring that names no frame of the pool is
/// a fault: the cycle ends with an error and reclaims nothing.
pub fn run_tx_thread(xsk: &mut Xsk, config: &Config, stats: &mut BenchmarkMetrics) -> (r: Result<
    TxCycle,
    RingFault,
>)
    requires
        old(xsk).wf(),
    ensures
        final(xsk).wf(),
        final(xsk).fq == old(xsk).fq,
        final(xsk).rx_q == old(xsk).rx_q,
        final(xsk).queue_id == old(xsk).queue_id,
        final(xsk).fd == old(xsk).fd,
        final(xsk).umem.frame_bytes() == old(xsk).umem.frame_bytes(),
        final(xsk).umem.frames() == old(xsk).umem.frames(),
        final(xsk).tx_q.cap() == old(xsk).tx_q.cap(),
        final(xsk).cq.cap() == old(xsk).cq.cap(),
        r is Ok ==> final(xsk).held() == old(xsk).held(),
        ({
            let k = batch_len(
                config.max_batch_size as int,
                config.num_packets_to_send as int,
                old(stats).total_packets_sent as int,
                old(xsk).descs@.len() as int,
            );
            let keep = old(xsk).descs@.len() - k;
            let width = min(config.payload_size as int, old(xsk).umem.frame_bytes());
            let chosen = old(xsk).descs@.subrange(keep, old(xsk).descs@.len() as int);
            let batch = with_len(chosen, width);
            let a = accepted(old(xsk).tx_q@.len() as int, old(xsk).tx_q.cap(), k);
            let back = taken(old(xsk).cq@, config.max_batch_size as int);
            let woke = wakeup_due(k, a, old(xsk).tx_q.wants_wakeup());
            let rest = old(xsk).descs@.subrange(0, keep) + batch.skip(a);
            &&& final(xsk).umem@ == with_payloads(
                old(xsk).umem@,
                chosen,
                k,
                old(xsk).umem.frame_bytes(),
                width,
            )
            &&& final(xsk).tx_q@ == old(xsk).tx_q@ + batch.take(a)
            &&& final(xsk).tx_q.wants_wakeup() == (old(xsk).tx_q.wants_wakeup() && !woke)
            &&& final(xsk).tx_q.wakeups_sent() == wakeups_after(old(xsk).tx_q.wakeups_sent(), woke)
            &&& final(xsk).cq@ == after_consume(old(xsk).cq@, config.max_batch_size as int)
            &&& *final(stats) == (BenchmarkMetrics {
                total_packets_sent: (old(stats).total_packets_sent + a) as usize,
                ..*old(stats)
            })
            &&& all_owned(old(xsk).umem, back) ==> {
                &&& r == Ok::<TxCycle, RingFault>(
                    TxCycle { batch: k as usize, accepted: a as usize, reclaimed: back.len() as usize, woke },
                )
                &&& final(xsk).descs@ == rest + back
            }
            &&& !all_owned(old(xsk).umem, back) ==> {
                &&& r == Err::<TxCycle, RingFault>(
                    RingFault { ring: RingKind::Completion, op: RingOp::Consume },
                )
                &&& final(xsk).descs@ == rest
            }
        }),
{
    let k: usize = next_batch_len(
        config.max_batch_size,
        config.num_packets_to_send,
        stats.total_packets_sent,
        xsk.descs.len(),
    );
    let keep: usize = xsk.descs.len() - k;
    let ghost width = min(config.payload_size as int, xsk.umem.frame_bytes());
    let ghost chosen = xsk.descs@.subrange(keep as int, xsk.descs@.len() as int);
    let mut batch: Vec<FrameDesc> = xsk.descs.split_off(keep);
    proof {
        assert(batch@ == chosen);
        assert forall|i: int| 0 <= i < batch@.len() implies xsk.umem.owns(#[trigger] batch@[i]) by {
            assert(batch@[i] == old(xsk).descs@[keep + i]);
        }
    }
    fill_batch(&mut xsk.umem, &mut batch, config.payload_size);
    let accepted: usize = xsk.tx_q.produce(batch.as_slice());
    let offer: Offer = after_offer(k, 0, accepted, xsk.tx_q.needs_wakeup());
    let woke: bool = offer.wake;
    if woke {
        xsk.tx_q.wakeup();
    }
    let ghost filled = batch@;
    let mut unsent: Vec<FrameDesc> = batch.split_off(accepted);
    xsk.descs.append(&mut unsent);
    stats.total_packets_sent = stats.total_packets_sent + accepted;
    let ghost rest = xsk.descs@;
    proof {
        assert(filled.take(accepted as int) =~= filled.subrange(0, accepted as int));
        assert(rest =~= old(xsk).descs@.subrange(0, keep as int) + filled.skip(accepted as int));
        assert forall|i: int| 0 <= i < rest.len() implies xsk.umem.owns(#[trigger] rest[i]) by {
            if i < keep {
                assert(rest[i] == old(xsk).descs@[i]);
            } else {
                assert(rest[i] == filled[accepted + (i - keep)]);
            }
        }
    }
    let mut done: Vec<FrameDesc> = vec![FrameDesc::new(0); config.max_batch_size];
    let reclaimed: usize = xsk.cq.consume(&mut done);
    done.truncate(reclaimed);
    proof {
        assert(done@ =~= taken(old(xsk).cq@, config.max_batch_size as int));
    }
    if !check_all_owned(&xsk.umem, &done) {
        return Err(RingFault { ring: RingKind::Completion, op: RingOp::Consume });
    }
    xsk.descs.append(&mut done);
    proof {
        lemma_tx_cycle_keeps_frames(
            old(xsk).descs@,
            xsk.fq@,
            xsk.rx_q@,
            old(xsk).tx_q@,
            old(xsk).cq@,
            old(xsk).tx_q.cap(),
            k as int,
            width,
            config.max_batch_size as int,
        );
    }
    Ok(TxCycle { batch: k, accepted, reclaimed, woke })
}

/// What one cycle of the receiver did.
#[derive(Debug, Clone, Copy, PartialEq, Eq, Structural)]
pub struct RxCycle {
    /// Free frames that the Fill ring took at the start of the cycle.
    pub donated: usize,
    /// Frames that came out of the Rx ring.
    pub received: usize,
    /// Received frames that the Fill ring took back.
    pub redonated: usize,
}

/// One cycle of the receiver.
///
/// Free frames are donated to the Fill ring, from the front of `xsk.descs`,
/// as many as the ring takes. Then the Rx ring is asked, with the configured
/// timeout, for up to `max_batch_size` descriptors. `stats` counts each, and
/// each frame is donated to the Fill ring again; a frame that the ring does
/// not take becomes free.
///
/// A descriptor from the Rx ring that names no frame of the pool is a fault:
/// the cycle ends with an error, counts nothing and donates nothing again.
pub fn run_rx_thread(xsk: &mut Xsk, config: &Config, stats: &mut BenchmarkMetrics) -> (r: Result<
    RxCycle,
    RingFault,
>)
    requires
        old(xsk).wf(),
    ensures
        final(xsk).wf(),
        final(xsk).umem == old(xsk).umem,
        final(xsk).tx_q == old(xsk).tx_q,
        final(xsk).cq == old(xsk).cq,
        final(xsk).queue_id == old(xsk).queue_id,
        final(xsk).fd == old(xsk).fd,
        final(xsk).fq.cap() == old(xsk).fq.cap(),
        final(xsk).rx_q.cap() == old(xsk).rx_q.cap(),
        r is Ok ==> final(xsk).held() == old(xsk).held(),
        ({
            let cap = old(xsk).fq.cap();
            let donated = accepted(old(xsk).fq@.len() as int, cap, old(xsk).descs@.len() as int);
            let filled = after_produce(old(xsk).fq@, cap, old(xsk).descs@);
            let got = taken(old(xsk).rx_q@, config.max_batch_size as int);
            let again = accepted(filled.len() as int, cap, got.len() as int);
            &&& final(xsk).rx_q@ == after_consume(old(xsk).rx_q@, config.max_batch_size as int)
            &&& all_owned(old(xsk).umem, got) ==> {
                &&& r == Ok::<RxCycle, RingFault>(
                    RxCycle {
                        donated: donated as usize,
                        received: got.len() as usize,
                        redonated: again as usize,
                    },
                )
                &&& final(xsk).fq@ == after_produce(filled, cap, got)
                &&& final(xsk).descs@ == old(xsk).descs@.skip(donated) + got.skip(again)
                &&& *final(stats) == (BenchmarkMetrics {
                    total_packets_received: counted(
                        old(stats).total_packets_received,
                        got.len() as usize,
                    ),
                    ..*old(stats)
                })
            }
            &&& !all_owned(old(xsk).umem, got) ==> {
                &&& r == Err::<RxCycle, RingFault>(
                    RingFault { ring: RingKind::Rx, op: RingOp::Consume },
                )
                &&& final(xsk).fq@ == filled
                &&& final(xsk).descs@ == old(xsk).descs@.skip(donated)
                &&& *final(stats) == *old(stats)
            }
        }),
{
    let donated: usize = xsk.fq.produce(xsk.descs.as_slice());
    let mut free: Vec<FrameDesc> = xsk.descs.split_off(donated);
    xsk.descs.clear();
    xsk.descs.append(&mut free);
    proof {
        assert(xsk.descs@ =~= old(xsk).descs@.skip(donated as int));
        assert forall|i: int| 0 <= i < xsk.descs@.len() implies xsk.umem.owns(
            #[trigger] xsk.descs@[i],
        ) by {
            assert(xsk.descs@[i] == old(xsk).descs@[donated + i]);
        }
    }
    let mut got: Vec<FrameDesc> = vec![FrameDesc::new(0); config.max_batch_size];
    let received: usize = xsk.rx_q.poll_and_consume(&mut got, config.poll_ms_timeout);
    got.truncate(received);
    proof {
        assert(got@ =~= taken(old(xsk).rx_q@, config.max_batch_size as int));
    }
    if !check_all_owned(&xsk.umem, &got) {
        return Err(RingFault { ring: RingKind::Rx, op: RingOp::Consume });
    }
    stats.total_packets_received = stats.total_packets_received.wrapping_add(received);
    let redonated: usize = xsk.fq.produce(got.as_slice());
    let ghost kept = xsk.descs@;
    let ghost taken_out = got@;
    let mut left: Vec<FrameDesc> = got.split_off(redonated);
    xsk.descs.append(&mut left);
    proof {
        assert(xsk.descs@ =~= kept + taken_out.skip(redonated as int));
        assert forall|i: int| 0 <= i < xsk.descs@.len() implies xsk.umem.owns(
            #[trigger] xsk.descs@[i],
        ) by {
            if i < kept.len() {
                assert(xsk.descs@[i] == kept[i]);
            } else {
                assert(xsk.descs@[i] == taken_out[redonated + (i - kept.len())]);
            }
        }
    }
    proof {
        lemma_rx_cycle_keeps_frames(
            old(xsk).descs@,
            old(xsk).fq@,
            old(xsk).rx_q@,
            xsk.tx_q@,
            xsk.cq@,
            old(xsk).fq.cap(),
            config.max_batch_size as int,
        );
    }
    Ok(RxCycle { donated, received, redonated })
}

} // verus!
