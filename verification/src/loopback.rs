//! A whole run of the sender inside one process, against the driver model.
//!
//! Between two cycles of the sender the driver sends whatever the Tx ring
//! holds. With rings and pool large enough for a full batch in flight and
//! another in preparation, every cycle sends a full batch until the last,
//! which sends what is left.

use crate::af_xdp::{RingFault, RingKind, RingOp, Xsk};
use crate::config::Config;
use crate::engine::{all_owned, batch_len, run_rx_thread, run_tx_thread, with_len};
use crate::frame::{FrameDesc, FramePool};
use crate::kernel::{completion_desc, received_into, rx_desc, wire_bytes};
use crate::metrics::{counted, BenchmarkMetrics};
use crate::ownership::lemma_transmit_all_keeps_frames;
use crate::ring::{accepted, after_produce, min, taken};
use vstd::prelude::*;

verus! {

/// The descriptors that report each frame of `sent` as sent, in order.
pub open spec fn completions(sent: Seq<FrameDesc>) -> Seq<FrameDesc> {
    Seq::new(sent.len(), |i: int| completion_desc(sent[i].addr))
}

/// How many batches of at most `max_batch_size` it takes to send `packets`.
pub open spec fn batches_needed(packets: int, max_batch_size: int) -> int {
    (packets + max_batch_size - 1) / max_batch_size
}

/// How many packets the last of those batches holds.
pub open spec fn last_batch_len(packets: int, max_batch_size: int) -> int {
    if packets <= 0 {
        0
    } else {
        packets - (batches_needed(packets, max_batch_size) - 1) * max_batch_size
    }
}

/// What a whole run of the sender did.
#[derive(Debug, Clone, Copy, PartialEq, Eq, Structural)]
pub struct TxRun {
    /// Batches that the Tx ring took frames of.
    pub batches: usize,
    /// Frames that the ring took of the last of them.
    pub last_batch: usize,
    /// Frames that the ring took in all.
    pub packets_sent: usize,
}

/// How many descriptors at the front of `descs` name a frame of `umem`,
/// counted up to the first that does not.
pub open spec fn owned_prefix(umem: FramePool, descs: Seq<FrameDesc>) -> int
    decreases descs.len(),
{
    if descs.len() == 0 || !umem.owns(descs[0]) {
        0
    } else {
        1 + owned_prefix(umem, descs.skip(1))
    }
}

/// Where the first `m` descriptors name frames and the next does not, the
/// owned prefix is `m` long.
proof fn lemma_owned_prefix_ends(umem: FramePool, descs: Seq<FrameDesc>, m: int)
    requires
        0 <= m < descs.len(),
        all_owned(umem, descs.take(m)),
        !umem.owns(descs[m]),
    ensures
        owned_prefix(umem, descs) == m,
    decreases m,
{
    if m > 0 {
        let rest = descs.skip(1);
        assert(descs.take(m)[0] == descs[0]);
        assert forall|i: int| 0 <= i < rest.take(m - 1).len() implies umem.owns(
            #[trigger] rest.take(m - 1)[i],
        ) by {
            assert(rest.take(m - 1)[i] == descs.take(m)[i + 1]);
        }
        assert(rest[m - 1] == descs[m]);
        lemma_owned_prefix_ends(umem, rest, m - 1);
    }
}

/// A frame that the pool owns is still owned when reported as sent.
proof fn lemma_completions_owned(umem: FramePool, sent: Seq<FrameDesc>)
    requires
        umem.wf(),
        all_owned(umem, sent),
    ensures
        all_owned(umem, completions(sent)),
{
    assert forall|i: int| 0 <= i < completions(sent).len() implies umem.owns(
        #[trigger] completions(sent)[i],
    ) by {
        assert(umem.owns(sent[i]));
    }
}

impl Xsk {
    /// The driver sends every frame that it can: the oldest frames of the Tx
    /// ring, as many as the Completion ring has room for. Returns how many
    /// that was.
    ///
    /// A descriptor on the Tx ring that names no frame of the pool is a
    /// fault, and ends the sending: the frames before it are sent, and it
    /// is taken off the ring.
    pub fn kernel_transmit_all(&mut self) -> (r: Result<usize, RingFault>)
        requires
            old(self).wf(),
        ensures
            final(self).wf(),
            final(self).umem == old(self).umem,
            final(self).fq == old(self).fq,
            final(self).rx_q == old(self).rx_q,
            final(self).descs == old(self).descs,
            final(self).queue_id == old(self).queue_id,
            final(self).fd == old(self).fd,
            final(self).tx_q.cap() == old(self).tx_q.cap(),
            final(self).cq.cap() == old(self).cq.cap(),
            r is Ok ==> final(self).held() == old(self).held(),
            ({
                let n = min(
                    old(self).tx_q@.len() as int,
                    old(self).cq.cap() - old(self).cq@.len(),
                );
                let going = old(self).tx_q@.take(n);
                let good = owned_prefix(old(self).umem, going);
                &&& r is Ok <==> all_owned(old(self).umem, going)
                &&& r is Ok ==> {
                    &&& r == Ok::<usize, RingFault>(n as usize)
                    &&& final(self).tx_q@ == old(self).tx_q@.skip(n)
                    &&& final(self).cq@ == old(self).cq@ + completions(going)
                    &&& !final(self).can_transmit()
                }
                &&& r is Err ==> {
                    &&& r == Err::<usize, RingFault>(
                        RingFault { ring: RingKind::Tx, op: RingOp::Consume },
                    )
                    &&& good < n
                    &&& final(self).tx_q@ == old(self).tx_q@.skip(good + 1)
                    &&& final(self).cq@ == old(self).cq@ + completions(going.take(good))
                }
            }),
    {
        let ghost n = min(self.tx_q@.len() as int, self.cq.cap() - self.cq@.len());
        let ghost going = self.tx_q@.take(n);
        let mut sent: usize = 0;
        loop
            invariant
                self.wf(),
                self.umem == old(self).umem,
                self.fq == old(self).fq,
                self.rx_q == old(self).rx_q,
                self.descs == old(self).descs,
                self.queue_id == old(self).queue_id,
                self.fd == old(self).fd,
                self.tx_q.cap() == old(self).tx_q.cap(),
                self.cq.cap() == old(self).cq.cap(),
                n == min(old(self).tx_q@.len() as int, old(self).cq.cap() - old(self).cq@.len()),
                going == old(self).tx_q@.take(n),
                0 <= sent <= n,
                self.tx_q@ == old(self).tx_q@.skip(sent as int),
                self.cq@.len() == old(self).cq@.len() + sent,
                all_owned(old(self).umem, going.take(sent as int)),
                self.cq@ == old(self).cq@ + completions(going.take(sent as int)),
            ensures
                sent == n,
                self.wf(),
                self.umem == old(self).umem,
                self.fq == old(self).fq,
                self.rx_q == old(self).rx_q,
                self.descs == old(self).descs,
                self.queue_id == old(self).queue_id,
                self.fd == old(self).fd,
                self.tx_q.cap() == old(self).tx_q.cap(),
                self.cq.cap() == old(self).cq.cap(),
                self.tx_q@ == old(self).tx_q@.skip(n),
                self.cq@ == old(self).cq@ + completions(going),
                all_owned(old(self).umem, going),
            decreases self.tx_q@.len(),
        {
            let ghost before_cq = self.cq@;
            let ghost before_tx = self.tx_q@;
            match self.kernel_transmit() {
                Err(fault) => {
                    proof {
                        assert(before_tx[0] == going[sent as int]);
                        lemma_owned_prefix_ends(old(self).umem, going, sent as int);
                        assert(self.tx_q@ =~= old(self).tx_q@.skip(sent + 1));
                    }
                    return Err(fault);
                },
                Ok(None) => {
                    proof {
                        assert(going.take(n) =~= going);
                    }
                    break ;
                },
                Ok(Some(_packet)) => {
                    proof {
                        let desc = before_tx[0];
                        assert(desc == going[sent as int]);
                        assert(self.tx_q@ =~= old(self).tx_q@.skip(sent + 1));
                        let now = going.take(sent + 1);
                        assert forall|i: int| 0 <= i < now.len() implies old(self).umem.owns(
                            #[trigger] now[i],
                        ) by {
                            if i < sent {
                                assert(now[i] == going.take(sent as int)[i]);
                            }
                        }
                        assert(self.cq@ =~= old(self).cq@ + completions(now)) by {
                            assert(completions(now) =~= completions(going.take(sent as int)).push(
                                completion_desc(desc.addr),
                            ));
                        }
                    }
                    sent = sent + 1;
                },
            }
        }
        proof {
            lemma_transmit_all_keeps_frames(
                self.descs@,
                self.fq@,
                self.rx_q@,
                old(self).tx_q@,
                old(self).cq@,
                n,
            );
        }
        Ok(sent)
    }
}

/// Whether a run can go at full speed: the Tx and the Completion ring are
/// empty and each holds a full batch, and the free frames are enough for one
/// batch in flight and one in preparation.
pub open spec fn clear_to_send(xsk: Xsk, config: Config) -> bool {
    &&& xsk.tx_q@.len() == 0
    &&& xsk.cq@.len() == 0
    &&& 1 <= config.max_batch_size <= xsk.tx_q.cap()
    &&& config.max_batch_size <= xsk.cq.cap()
    &&& xsk.descs@.len() >= 2 * config.max_batch_size
}

/// Whether nothing can move any more: a cycle of the sender would get no
/// frame into the Tx ring and none out of the Completion ring, and the
/// driver can send none.
pub open spec fn stuck(xsk: Xsk, config: Config, sent: usize) -> bool {
    &&& accepted(
        xsk.tx_q@.len() as int,
        xsk.tx_q.cap(),
        batch_len(
            config.max_batch_size as int,
            config.num_packets_to_send as int,
            sent as int,
            xsk.descs@.len() as int,
        ),
    ) == 0
    &&& taken(xsk.cq@, config.max_batch_size as int).len() == 0
    &&& !xsk.can_transmit()
}

/// Descriptors that the pool owns are still owned with another valid length
/// that fits a frame.
proof fn lemma_with_len_owned(umem: FramePool, batch: Seq<FrameDesc>, width: int)
    requires
        umem.wf(),
        all_owned(umem, batch),
        0 <= width <= umem.frame_bytes(),
    ensures
        all_owned(umem, with_len(batch, width)),
{
    assert forall|i: int| 0 <= i < with_len(batch, width).len() implies umem.owns(
        #[trigger] with_len(batch, width)[i],
    ) by {
        assert(umem.owns(batch[i]));
    }
}

/// One more full batch is one more batch needed, as long as packets are left.
proof fn lemma_batches_count(sent: int, left: int, max_batch_size: int, batches: int)
    requires
        max_batch_size >= 1,
        batches >= 0,
        sent == batches * max_batch_size,
        left > 0,
    ensures
        left <= max_batch_size ==> batches_needed(sent + left, max_batch_size) == batches + 1
            && last_batch_len(sent + left, max_batch_size) == left,
{
    if left <= max_batch_size {
        let b = max_batch_size;
        let x = sent + left + b - 1;
        assert(x == (batches + 1) * b + (left - 1)) by (nonlinear_arith)
            requires
                x == sent + left + b - 1,
                sent == batches * b,
        ;
        vstd::arithmetic::div_mod::lemma_fundamental_div_mod_converse(
            x,
            b,
            batches + 1,
            left - 1,
        );
        assert((batches + 1 - 1) * b == sent) by (nonlinear_arith)
            requires
                sent == batches * b,
        ;
    }
}

/// Sends until the configured number of packets is out: cycles of the
/// sender, with the driver sending all it can after each. The run also ends
/// when nothing moves any more: the cycle gets no frame into the Tx ring and
/// none out of the Completion ring, and the driver sends none.
///
/// From a socket that is clear to send, the run takes as many batches as the
/// packets need, each full but the last, and sends every packet.
#[verifier::rlimit(40)]
pub fn send_all(xsk: &mut Xsk, config: &Config, stats: &mut BenchmarkMetrics) -> (r: Result<
    TxRun,
    RingFault,
>)
    requires
        old(xsk).wf(),
    ensures
        final(xsk).wf(),
        final(stats).total_packets_sent >= old(stats).total_packets_sent,
        r is Ok ==> final(xsk).held() == old(xsk).held(),
        all_owned(old(xsk).umem, old(xsk).tx_q@) && all_owned(old(xsk).umem, old(xsk).cq@)
            ==> r is Ok,
        r matches Ok(run) ==> {
            &&& run.packets_sent == final(stats).total_packets_sent - old(
                stats,
            ).total_packets_sent
            &&& run.batches <= run.packets_sent <= run.batches * config.max_batch_size
            &&& run.last_batch <= config.max_batch_size
            &&& run.batches > 0 ==> run.last_batch > 0
            &&& final(stats).total_packets_sent >= config.num_packets_to_send || stuck(
                *final(xsk),
                *config,
                final(stats).total_packets_sent,
            )
        },
        clear_to_send(*old(xsk), *config) ==> ({
            let packets = if config.num_packets_to_send > old(stats).total_packets_sent {
                config.num_packets_to_send - old(stats).total_packets_sent
            } else {
                0
            };
            &&& r matches Ok(run)
            &&& run.batches == batches_needed(packets, config.max_batch_size as int)
            &&& run.last_batch == last_batch_len(packets, config.max_batch_size as int)
            &&& run.packets_sent == packets
            &&& final(xsk).tx_q@.len() == 0
        }),
{
    let ghost clear = clear_to_send(*xsk, *config);
    let ghost sent0 = stats.total_packets_sent as int;
    let ghost frames = xsk.descs@.len() as int;
    let ghost b = config.max_batch_size as int;
    let ghost packets = if config.num_packets_to_send > sent0 {
        config.num_packets_to_send - sent0
    } else {
        0
    };
    let mut run = TxRun { batches: 0, last_batch: 0, packets_sent: 0 };
    proof {
        if clear {
            assert(batches_needed(0, b) == 0) by {
                vstd::arithmetic::div_mod::lemma_small_mod((b - 1) as nat, b as nat);
                vstd::arithmetic::div_mod::lemma_fundamental_div_mod_converse(b - 1, b, 0, b - 1);
            }
        }
    }
    while stats.total_packets_sent < config.num_packets_to_send
        invariant
            xsk.wf(),
            xsk.held() == old(xsk).held(),
            xsk.umem.frame_bytes() == old(xsk).umem.frame_bytes(),
            xsk.umem.frames() == old(xsk).umem.frames(),
            xsk.tx_q.cap() == old(xsk).tx_q.cap(),
            xsk.cq.cap() == old(xsk).cq.cap(),
            b == config.max_batch_size,
            sent0 == old(stats).total_packets_sent,
            frames == old(xsk).descs@.len(),
            clear == clear_to_send(*old(xsk), *config),
            packets == if config.num_packets_to_send > sent0 {
                config.num_packets_to_send - sent0
            } else {
                0
            },
            stats.total_packets_sent >= sent0,
            run.packets_sent == stats.total_packets_sent - sent0,
            run.batches <= run.packets_sent <= run.batches * b,
            run.last_batch <= b,
            run.batches > 0 ==> run.last_batch > 0,
            all_owned(old(xsk).umem, old(xsk).tx_q@) && all_owned(old(xsk).umem, old(xsk).cq@)
                ==> all_owned(xsk.umem, xsk.tx_q@) && all_owned(xsk.umem, xsk.cq@),
            clear ==> {
                &&& all_owned(xsk.umem, xsk.tx_q@)
                &&& all_owned(xsk.umem, xsk.cq@)
                &&& xsk.tx_q@.len() == 0
                &&& xsk.cq@.len() <= b
                &&& xsk.descs@.len() + xsk.cq@.len() == frames
                &&& run.packets_sent <= packets
                &&& run.packets_sent < packets ==> run.batches * b == run.packets_sent
                &&& run.packets_sent == packets ==> run.batches == batches_needed(packets, b)
                    && run.last_batch == last_batch_len(packets, b)
            },
        ensures
            clear ==> stats.total_packets_sent >= config.num_packets_to_send,
            stats.total_packets_sent >= config.num_packets_to_send || stuck(
                *xsk,
                *config,
                stats.total_packets_sent,
            ),
        decreases
                config.num_packets_to_send - stats.total_packets_sent,
                2 * xsk.tx_q@.len() + xsk.cq@.len(),
    {
        let ghost before = *xsk;
        let ghost run_before = run;
        let ghost sent_before = stats.total_packets_sent as int;
        let ghost left = config.num_packets_to_send - stats.total_packets_sent;
        let ghost k = batch_len(
            b,
            config.num_packets_to_send as int,
            sent_before,
            xsk.descs@.len() as int,
        );
        let ghost width = min(config.payload_size as int, xsk.umem.frame_bytes());
        let ghost chosen = xsk.descs@.subrange(xsk.descs@.len() - k, xsk.descs@.len() as int);
        let ghost batch = with_len(chosen, width);
        let ghost back = taken(before.cq@, b);
        let ghost were_owned = all_owned(before.umem, before.tx_q@) && all_owned(
            before.umem,
            before.cq@,
        );
        proof {
            assert(all_owned(xsk.umem, chosen)) by {
                assert forall|i: int| 0 <= i < chosen.len() implies xsk.umem.owns(
                    #[trigger] chosen[i],
                ) by {
                    assert(chosen[i] == xsk.descs@[xsk.descs@.len() - k + i]);
                }
            }
            lemma_with_len_owned(xsk.umem, chosen, width);
            if were_owned {
                assert forall|i: int| 0 <= i < back.len() implies before.umem.owns(
                    #[trigger] back[i],
                ) by {
                    assert(back[i] == before.cq@[i]);
                }
            }
        }
        let cycle = match run_tx_thread(xsk, config, stats) {
            Ok(cycle) => cycle,
            Err(fault) => {
                assert(!were_owned);
                return Err(fault);
            },
        };
        let ghost offered = *xsk;
        proof {
            if were_owned {
                assert forall|i: int| 0 <= i < xsk.tx_q@.len() implies xsk.umem.owns(
                    #[trigger] xsk.tx_q@[i],
                ) by {
                    if i < before.tx_q@.len() {
                        assert(xsk.tx_q@[i] == before.tx_q@[i]);
                        assert(before.umem.owns(before.tx_q@[i]));
                    } else {
                        assert(xsk.tx_q@[i] == batch[i - before.tx_q@.len()]);
                        assert(before.umem.owns(batch[i - before.tx_q@.len()]));
                    }
                }
                assert forall|i: int| 0 <= i < xsk.cq@.len() implies xsk.umem.owns(
                    #[trigger] xsk.cq@[i],
                ) by {
                    assert(xsk.cq@[i] == before.cq@[i + min(b, before.cq@.len() as int)]);
                    assert(before.umem.owns(before.cq@[i + min(b, before.cq@.len() as int)]));
                }
            }
            if clear {
                assert(k == min(b, left as int));
                assert(cycle.accepted == k);
                assert(k >= 1);
                assert(xsk.cq@.len() == 0);
                assert(xsk.tx_q@.len() == k);
                assert(xsk.descs@.len() == frames - k);
            }
            assert(xsk.tx_q@.len() == before.tx_q@.len() + cycle.accepted);
            assert(xsk.cq@.len() == before.cq@.len() - cycle.reclaimed);
            assert(xsk.descs@.len() == before.descs@.len() - cycle.accepted + cycle.reclaimed);
        }
        if cycle.accepted > 0 {
            proof {
                assert((run.batches + 1) * b == run.batches * b + b) by (nonlinear_arith);
            }
            run.batches = run.batches + 1;
            run.last_batch = cycle.accepted;
            run.packets_sent = run.packets_sent + cycle.accepted;
        }
        let ghost queued = xsk.tx_q@;
        let ghost done = xsk.cq@;
        let ghost n = min(queued.len() as int, xsk.cq.cap() - done.len());
        let ghost going = queued.take(n);
        proof {
            if were_owned {
                assert forall|i: int| 0 <= i < going.len() implies xsk.umem.owns(
                    #[trigger] going[i],
                ) by {
                    assert(going[i] == queued[i]);
                }
            }
        }
        let driven = match xsk.kernel_transmit_all() {
            Ok(driven) => driven,
            Err(fault) => {
                assert(!were_owned);
                return Err(fault);
            },
        };
        proof {
            if were_owned {
                lemma_completions_owned(xsk.umem, going);
                assert forall|i: int| 0 <= i < xsk.tx_q@.len() implies xsk.umem.owns(
                    #[trigger] xsk.tx_q@[i],
                ) by {
                    assert(xsk.tx_q@[i] == queued[i + n]);
                }
                assert forall|i: int| 0 <= i < xsk.cq@.len() implies xsk.umem.owns(
                    #[trigger] xsk.cq@[i],
                ) by {
                    if i < done.len() {
                        assert(xsk.cq@[i] == done[i]);
                    } else {
                        assert(xsk.cq@[i] == completions(going)[i - done.len()]);
                    }
                }
            }
            if clear {
                assert(n == k);
                assert(xsk.tx_q@.len() == 0);
                assert(xsk.cq@.len() == k);
                assert(run_before.batches * b == run_before.packets_sent);
                assert(left == packets - run_before.packets_sent);
                if left <= b {
                    lemma_batches_count(
                        run_before.packets_sent as int,
                        left as int,
                        b,
                        run_before.batches as int,
                    );
                } else {
                    assert((run_before.batches + 1) * b == run_before.packets_sent + b)
                        by (nonlinear_arith)
                        requires
                            run_before.batches * b == run_before.packets_sent,
                    ;
                }
            }
            assert(xsk.tx_q@.len() == offered.tx_q@.len() - driven);
            assert(xsk.cq@.len() == offered.cq@.len() + driven);
        }
        if cycle.accepted == 0 && cycle.reclaimed == 0 && driven == 0 {
            proof {
                assert(!clear);
                assert(taken(xsk.cq@, b).len() == 0);
            }
            break ;
        }
    }
    Ok(run)
}

/// The descriptors that hand over the first `n` frames of `donated`, frame
/// `i` with as many bytes as packet `i` of `sent` has.
pub open spec fn deliveries(donated: Seq<FrameDesc>, sent: Seq<FrameDesc>, n: int) -> Seq<
    FrameDesc,
> {
    Seq::new(n as nat, |i: int| rx_desc(donated[i].addr, sent[i].len))
}

/// The receiver's pool after the first `n` packets of `sent`, read from the
/// sender's pool `from`, were written one after another into the first `n`
/// frames of `donated`.
pub open spec fn delivered_into(
    mem: Seq<u8>,
    donated: Seq<FrameDesc>,
    sent: Seq<FrameDesc>,
    from: Seq<u8>,
    n: int,
) -> Seq<u8>
    decreases n,
{
    if n <= 0 {
        mem
    } else {
        received_into(
            delivered_into(mem, donated, sent, from, n - 1),
            donated[n - 1].addr as int,
            wire_bytes(from, sent[n - 1]),
        )
    }
}

/// Whether the receiver can take the next `n` packets of the sender: a
/// donated frame of its own pool waits for each, each fits into a frame, and
/// the Rx ring has a slot for each.
pub open spec fn can_deliver(sender: Xsk, receiver: Xsk, n: int) -> bool {
    &&& n <= sender.tx_q@.len()
    &&& n <= receiver.fq@.len()
    &&& receiver.rx_q@.len() + n <= receiver.rx_q.cap()
    &&& all_owned(sender.umem, sender.tx_q@.take(n))
    &&& all_owned(receiver.umem, receiver.fq@.take(n))
    &&& forall|i: int| 0 <= i < n ==> (#[trigger] sender.tx_q@[i]).len <= receiver.umem.frame_bytes()
}

/// What went over the wire.
#[derive(Debug, Clone, Copy, PartialEq, Eq, Structural)]
pub struct Wired {
    /// Packets that the receiver's driver delivered.
    pub delivered: usize,
    /// Packets that it had to drop.
    pub dropped: usize,
}

/// The wire between two sockets: the sender's driver sends every frame that
/// it can, and the receiver's driver delivers each packet where it can and
/// drops it where it cannot.
///
/// When the wire is done the sender's driver can send no more. Where the
/// receiver can take every packet that the sender can send, all are
/// delivered, in order, each into the frame donated first.
pub fn wire(sender: &mut Xsk, receiver: &mut Xsk) -> (r: Result<Wired, RingFault>)
    requires
        old(sender).wf(),
        old(receiver).wf(),
    ensures
        final(sender).wf(),
        final(receiver).wf(),
        final(sender).umem == old(sender).umem,
        final(sender).fq == old(sender).fq,
        final(sender).rx_q == old(sender).rx_q,
        final(sender).descs == old(sender).descs,
        final(sender).queue_id == old(sender).queue_id,
        final(sender).fd == old(sender).fd,
        final(sender).tx_q.cap() == old(sender).tx_q.cap(),
        final(sender).cq.cap() == old(sender).cq.cap(),
        final(receiver).tx_q == old(receiver).tx_q,
        final(receiver).cq == old(receiver).cq,
        final(receiver).descs == old(receiver).descs,
        final(receiver).queue_id == old(receiver).queue_id,
        final(receiver).fd == old(receiver).fd,
        final(receiver).fq.cap() == old(receiver).fq.cap(),
        final(receiver).rx_q.cap() == old(receiver).rx_q.cap(),
        final(receiver).umem.frame_bytes() == old(receiver).umem.frame_bytes(),
        final(receiver).umem.frames() == old(receiver).umem.frames(),
        r is Ok ==> final(sender).held() == old(sender).held(),
        r is Ok ==> final(receiver).held() == old(receiver).held(),
        r matches Ok(wired) ==> {
            &&& !final(sender).can_transmit()
            &&& final(sender).tx_q@.len() == old(sender).tx_q@.len() - wired.delivered
                - wired.dropped
            &&& final(sender).cq@.len() == old(sender).cq@.len() + wired.delivered + wired.dropped
            &&& final(receiver).fq@.len() == old(receiver).fq@.len() - wired.delivered
            &&& final(receiver).rx_q@.len() == old(receiver).rx_q@.len() + wired.delivered
            &&& wired.delivered == 0 ==> final(receiver).umem@ == old(receiver).umem@
        },
        ({
            let n = min(
                old(sender).tx_q@.len() as int,
                old(sender).cq.cap() - old(sender).cq@.len(),
            );
            can_deliver(*old(sender), *old(receiver), n) ==> {
                &&& r == Ok::<Wired, RingFault>(Wired { delivered: n as usize, dropped: 0 })
                &&& final(sender).tx_q@ == old(sender).tx_q@.skip(n)
                &&& final(sender).cq@ == old(sender).cq@ + completions(old(sender).tx_q@.take(n))
                &&& final(receiver).fq@ == old(receiver).fq@.skip(n)
                &&& final(receiver).rx_q@ == old(receiver).rx_q@ + deliveries(
                    old(receiver).fq@,
                    old(sender).tx_q@,
                    n,
                )
                &&& final(receiver).umem@ == delivered_into(
                    old(receiver).umem@,
                    old(receiver).fq@,
                    old(sender).tx_q@,
                    old(sender).umem@,
                    n,
                )
            }
        }),
{
    let ghost n = min(sender.tx_q@.len() as int, sender.cq.cap() - sender.cq@.len());
    let ghost able = can_deliver(*sender, *receiver, n);
    let ghost tx0 = sender.tx_q@;
    let ghost fq0 = receiver.fq@;
    let mut wired = Wired { delivered: 0, dropped: 0 };
    proof {
        assert(sender.tx_q@.skip(0) =~= sender.tx_q@);
        assert(receiver.fq@.skip(0) =~= receiver.fq@);
        assert(sender.cq@ + completions(tx0.take(0)) =~= sender.cq@);
        assert(receiver.rx_q@ + deliveries(fq0, tx0, 0) =~= receiver.rx_q@);
    }
    loop
        invariant
            sender.wf(),
            receiver.wf(),
            sender.umem == old(sender).umem,
            sender.fq == old(sender).fq,
            sender.rx_q == old(sender).rx_q,
            sender.descs == old(sender).descs,
            sender.queue_id == old(sender).queue_id,
            sender.fd == old(sender).fd,
            sender.tx_q.cap() == old(sender).tx_q.cap(),
            sender.cq.cap() == old(sender).cq.cap(),
            receiver.tx_q == old(receiver).tx_q,
            receiver.cq == old(receiver).cq,
            receiver.descs == old(receiver).descs,
            receiver.queue_id == old(receiver).queue_id,
            receiver.fd == old(receiver).fd,
            receiver.fq.cap() == old(receiver).fq.cap(),
            receiver.rx_q.cap() == old(receiver).rx_q.cap(),
            receiver.umem.frame_bytes() == old(receiver).umem.frame_bytes(),
            receiver.umem.frames() == old(receiver).umem.frames(),
            sender.held() == old(sender).held(),
            receiver.held() == old(receiver).held(),
            n == min(old(sender).tx_q@.len() as int, old(sender).cq.cap() - old(sender).cq@.len()),
            able == can_deliver(*old(sender), *old(receiver), n),
            tx0 == old(sender).tx_q@,
            fq0 == old(receiver).fq@,
            wired.delivered + wired.dropped + sender.tx_q@.len() == tx0.len(),
            tx0.len() <= u32::MAX,
            sender.cq@.len() == old(sender).cq@.len() + wired.delivered + wired.dropped,
            receiver.fq@.len() == fq0.len() - wired.delivered,
            receiver.rx_q@.len() == old(receiver).rx_q@.len() + wired.delivered,
            wired.delivered == 0 ==> receiver.umem@ == old(receiver).umem@,
            able ==> {
                &&& wired.dropped == 0
                &&& wired.delivered <= n
                &&& sender.tx_q@ == tx0.skip(wired.delivered as int)
                &&& sender.cq@ == old(sender).cq@ + completions(tx0.take(wired.delivered as int))
                &&& receiver.fq@ == fq0.skip(wired.delivered as int)
                &&& receiver.rx_q@ == old(receiver).rx_q@ + deliveries(
                    fq0,
                    tx0,
                    wired.delivered as int,
                )
                &&& receiver.umem@ == delivered_into(
                    old(receiver).umem@,
                    fq0,
                    tx0,
                    old(sender).umem@,
                    wired.delivered as int,
                )
            },
        ensures
            able ==> wired.delivered == n,
            !sender.can_transmit(),
        decreases sender.tx_q@.len(),
    {
        let ghost sent = wired.delivered as int;
        let ghost tx_before = sender.tx_q@;
        let ghost cq_before = sender.cq@;
        let ghost fq_before = receiver.fq@;
        let ghost rx_before = receiver.rx_q@;
        proof {
            if able && sender.can_transmit() {
                assert(cq_before.len() == old(sender).cq@.len() + sent);
                assert(sent < n);
                assert(tx_before[0] == tx0[sent]);
                assert(tx0.take(n)[sent] == tx0[sent]);
                assert(sender.umem.owns(tx0.take(n)[sent]));
                sender.umem.lemma_owned_in_bounds(tx0[sent]);
                assert(old(sender).tx_q@[sent].len <= receiver.umem.frame_bytes());
                assert(fq_before[0] == fq0[sent]);
                assert(fq0.take(n)[sent] == fq0[sent]);
                assert(receiver.umem.owns(fq0.take(n)[sent]));
                assert(rx_before.len() == old(receiver).rx_q@.len() + sent);
                assert(receiver.can_receive(tx0[sent].len as int));
            }
        }
        let packet = match sender.kernel_transmit() {
            Err(fault) => {
                return Err(fault);
            },
            Ok(None) => {
                break ;
            },
            Ok(Some(packet)) => packet,
        };
        assert(sender.tx_q@.len() == tx_before.len() - 1);
        let delivered = match receiver.kernel_receive(packet.as_slice()) {
            Err(fault) => {
                return Err(fault);
            },
            Ok(delivered) => delivered,
        };
        if delivered {
            wired.delivered = wired.delivered + 1;
        } else {
            wired.dropped = wired.dropped + 1;
        }
        proof {
            if able {
                assert(delivered);
                assert(sender.tx_q@ =~= tx0.skip(sent + 1));
                assert(receiver.fq@ =~= fq0.skip(sent + 1));
                assert(completions(tx0.take(sent + 1)) =~= completions(tx0.take(sent)).push(
                    completion_desc(tx0[sent].addr),
                ));
                assert(sender.cq@ =~= old(sender).cq@ + completions(tx0.take(sent + 1)));
                assert(deliveries(fq0, tx0, sent + 1) =~= deliveries(fq0, tx0, sent).push(
                    rx_desc(fq0[sent].addr, tx0[sent].len),
                ));
                assert(receiver.rx_q@ =~= old(receiver).rx_q@ + deliveries(fq0, tx0, sent + 1));
            }
        }
    }
    Ok(wired)
}

/// What a run of a sender and a receiver against each other did.
#[derive(Debug, Clone, Copy, PartialEq, Eq, Structural)]
pub struct BenchRun {
    /// Cycles in which the Tx ring took frames.
    pub cycles: usize,
    /// Frames that the Tx ring took.
    pub packets_sent: usize,
    /// Frames that came out of the Rx ring.
    pub packets_received: usize,
    /// Packets that the receiver's driver had to drop.
    pub packets_dropped: usize,
}

/// Whether a run of two sockets can go at full speed and without loss: the
/// sender is clear to send; the receiver's Fill and Rx ring are empty and
/// each holds a full batch, its free frames are enough for a batch, and a
/// frame of it holds a packet.
pub open spec fn clear_to_run(sender: Xsk, receiver: Xsk, config: Config) -> bool {
    &&& clear_to_send(sender, config)
    &&& receiver.fq@.len() == 0
    &&& receiver.rx_q@.len() == 0
    &&& config.max_batch_size <= receiver.fq.cap()
    &&& config.max_batch_size <= receiver.rx_q.cap()
    &&& receiver.descs@.len() >= config.max_batch_size
    &&& min(config.payload_size as int, sender.umem.frame_bytes()) <= receiver.umem.frame_bytes()
}

/// The sum of two counts, no more than a count can hold.
pub open spec fn capped_sum(a: usize, b: usize) -> usize {
    if a + b > usize::MAX {
        usize::MAX
    } else {
        (a + b) as usize
    }
}

/// Adds two counts, stopping at the largest.
fn add_capped(a: usize, b: usize) -> (sum: usize)
    ensures
        sum == capped_sum(a, b),
{
    match a.checked_add(b) {
        Some(sum) => sum,
        None => usize::MAX,
    }
}

/// After a cycle of the receiver that emptied the Rx ring, the Fill ring is
/// full or holds every frame of the receiver.
proof fn lemma_fill_ring_after_cycle(
    free: Seq<FrameDesc>,
    fq: Seq<FrameDesc>,
    rx: Seq<FrameDesc>,
    cap: int,
    room: int,
)
    requires
        fq.len() <= cap,
        rx.len() <= room,
    ensures
        ({
            let donated = accepted(fq.len() as int, cap, free.len() as int);
            let filled = after_produce(fq, cap, free);
            let got = taken(rx, room);
            let again = accepted(filled.len() as int, cap, got.len() as int);
            let fq2 = after_produce(filled, cap, got);
            let free2 = free.skip(donated) + got.skip(again);
            &&& fq2.len() + free2.len() == fq.len() + free.len() + rx.len()
            &&& fq2.len() <= cap
            &&& fq2.len() == cap || free2.len() == 0
        }),
{
}

/// Counting twice is counting the sum once.
proof fn lemma_counted_twice(counter: usize, a: usize, b: usize)
    requires
        a + b <= usize::MAX,
    ensures
        counted(counted(counter, a), b) == counted(counter, (a + b) as usize),
{
}

/// Runs a sender and a receiver against each other on one thread: in each
/// cycle the receiver takes its turn, then the sender, then the wire carries
/// what the sender queued. After the last cycle the receiver takes one more
/// turn for what the wire carried last. The run ends when the configured
/// number of packets is out, or when nothing moves any more in a whole cycle.
///
/// From two sockets that are clear to run, every packet is sent, delivered
/// and received, none is dropped, and the run takes as many cycles as the
/// packets need batches.
#[verifier::rlimit(100)]
pub fn run_interleaved(
    sender: &mut Xsk,
    receiver: &mut Xsk,
    config: &Config,
    stats: &mut BenchmarkMetrics,
) -> (r: Result<BenchRun, RingFault>)
    requires
        old(sender).wf(),
        old(receiver).wf(),
    ensures
        final(sender).wf(),
        final(receiver).wf(),
        r is Ok ==> final(sender).held() == old(sender).held(),
        r is Ok ==> final(receiver).held() == old(receiver).held(),
        final(stats).total_packets_sent >= old(stats).total_packets_sent,
        r matches Ok(run) ==> {
            &&& run.packets_sent == final(stats).total_packets_sent - old(
                stats,
            ).total_packets_sent
            &&& run.cycles <= run.packets_sent <= run.cycles * config.max_batch_size
            &&& final(stats).total_packets_sent >= config.num_packets_to_send || stuck(
                *final(sender),
                *config,
                final(stats).total_packets_sent,
            )
        },
        clear_to_run(*old(sender), *old(receiver), *config) ==> ({
            let packets = if config.num_packets_to_send > old(stats).total_packets_sent {
                config.num_packets_to_send - old(stats).total_packets_sent
            } else {
                0
            };
            &&& r matches Ok(run)
            &&& run.cycles == batches_needed(packets, config.max_batch_size as int)
            &&& run.packets_sent == packets
            &&& run.packets_received == packets
            &&& run.packets_dropped == 0
            &&& *final(stats) == (BenchmarkMetrics {
                total_packets_sent: (old(stats).total_packets_sent + packets) as usize,
                total_packets_received: counted(
                    old(stats).total_packets_received,
                    packets as usize,
                ),
                ..*old(stats)
            })
            &&& final(sender).tx_q@.len() == 0
            &&& final(receiver).rx_q@.len() == 0
        }),
{
    let ghost clear = clear_to_run(*sender, *receiver, *config);
    let ghost sent0 = stats.total_packets_sent as int;
    let ghost b = config.max_batch_size as int;
    let ghost frames = sender.descs@.len() as int;
    let ghost pool = receiver.descs@.len() as int;
    let ghost packets = if config.num_packets_to_send > sent0 {
        config.num_packets_to_send - sent0
    } else {
        0
    };
    let mut run = BenchRun { cycles: 0, packets_sent: 0, packets_received: 0, packets_dropped: 0 };
    proof {
        if clear {
            assert(batches_needed(0, b) == 0) by {
                vstd::arithmetic::div_mod::lemma_fundamental_div_mod_converse(b - 1, b, 0, b - 1);
            }
        }
    }
    while stats.total_packets_sent < config.num_packets_to_send
        invariant
            sender.wf(),
            receiver.wf(),
            sender.held() == old(sender).held(),
            receiver.held() == old(receiver).held(),
            sender.umem.frame_bytes() == old(sender).umem.frame_bytes(),
            receiver.umem.frame_bytes() == old(receiver).umem.frame_bytes(),
            sender.tx_q.cap() == old(sender).tx_q.cap(),
            sender.cq.cap() == old(sender).cq.cap(),
            receiver.fq.cap() == old(receiver).fq.cap(),
            receiver.rx_q.cap() == old(receiver).rx_q.cap(),
            b == config.max_batch_size,
            sent0 == old(stats).total_packets_sent,
            frames == old(sender).descs@.len(),
            pool == old(receiver).descs@.len(),
            clear == clear_to_run(*old(sender), *old(receiver), *config),
            packets == if config.num_packets_to_send > sent0 {
                config.num_packets_to_send - sent0
            } else {
                0
            },
            stats.total_packets_sent >= sent0,
            run.packets_sent == stats.total_packets_sent - sent0,
            run.cycles <= run.packets_sent <= run.cycles * b,
            clear ==> {
                &&& all_owned(sender.umem, sender.tx_q@)
                &&& all_owned(sender.umem, sender.cq@)
                &&& sender.tx_q@.len() == 0
                &&& sender.cq@.len() <= b
                &&& sender.descs@.len() + sender.cq@.len() == frames
                &&& all_owned(receiver.umem, receiver.fq@)
                &&& all_owned(receiver.umem, receiver.rx_q@)
                &&& receiver.rx_q@.len() <= b
                &&& receiver.descs@.len() + receiver.fq@.len() + receiver.rx_q@.len() == pool
                &&& run.packets_dropped == 0
                &&& run.packets_received + receiver.rx_q@.len() == run.packets_sent
                &&& run.packets_sent <= packets
                &&& run.packets_sent < packets ==> run.cycles * b == run.packets_sent
                &&& run.packets_sent == packets ==> run.cycles == batches_needed(packets, b)
                &&& *stats == (BenchmarkMetrics {
                    total_packets_sent: (sent0 + run.packets_sent) as usize,
                    total_packets_received: counted(
                        old(stats).total_packets_received,
                        run.packets_received,
                    ),
                    ..*old(stats)
                })
            },
        ensures
            clear ==> stats.total_packets_sent >= config.num_packets_to_send,
            stats.total_packets_sent >= config.num_packets_to_send || stuck(
                *sender,
                *config,
                stats.total_packets_sent,
            ),
        decreases
                config.num_packets_to_send - stats.total_packets_sent,
                2 * sender.tx_q@.len() + sender.cq@.len(),
                3 * receiver.rx_q@.len() + 2 * receiver.descs@.len() + receiver.fq@.len(),
    {
        let ghost rx_before = *receiver;
        let ghost run_before = run;
        proof {
            if clear {
                let got = taken(rx_before.rx_q@, b);
                assert(got =~= rx_before.rx_q@);
                lemma_fill_ring_after_cycle(
                    rx_before.descs@,
                    rx_before.fq@,
                    rx_before.rx_q@,
                    rx_before.fq.cap(),
                    b,
                );
            }
        }
        let turn = match run_rx_thread(receiver, config, stats) {
            Ok(turn) => turn,
            Err(fault) => {
                return Err(fault);
            },
        };
        run.packets_received = add_capped(run.packets_received, turn.received);
        let ghost rx_turned = *receiver;
        proof {
            assert(receiver.rx_q@.len() == rx_before.rx_q@.len() - turn.received);
            assert(receiver.fq@.len() == rx_before.fq@.len() + turn.donated + turn.redonated);
            assert(receiver.descs@.len() == rx_before.descs@.len() - turn.donated + turn.received
                - turn.redonated);
            if clear {
                let cap = rx_before.fq.cap();
                let filled = after_produce(rx_before.fq@, cap, rx_before.descs@);
                let got = taken(rx_before.rx_q@, b);
                assert forall|i: int| 0 <= i < receiver.fq@.len() implies receiver.umem.owns(
                    #[trigger] receiver.fq@[i],
                ) by {
                    if i < rx_before.fq@.len() {
                        assert(receiver.fq@[i] == rx_before.fq@[i]);
                    } else if i < filled.len() {
                        assert(receiver.fq@[i] == rx_before.descs@[i - rx_before.fq@.len()]);
                    } else {
                        assert(receiver.fq@[i] == got[i - filled.len()]);
                    }
                }
                assert(receiver.rx_q@.len() == 0);
                assert(receiver.fq@.len() >= b);
                lemma_counted_twice(
                    old(stats).total_packets_received,
                    run_before.packets_received,
                    turn.received,
                );
            }
        }
        let ghost before = *sender;
        let ghost sent_before = stats.total_packets_sent as int;
        let ghost left = config.num_packets_to_send - stats.total_packets_sent;
        let ghost k = batch_len(
            b,
            config.num_packets_to_send as int,
            sent_before,
            sender.descs@.len() as int,
        );
        let ghost width = min(config.payload_size as int, sender.umem.frame_bytes());
        let ghost chosen = sender.descs@.subrange(
            sender.descs@.len() - k,
            sender.descs@.len() as int,
        );
        let ghost batch = with_len(chosen, width);
        proof {
            assert(all_owned(sender.umem, chosen)) by {
                assert forall|i: int| 0 <= i < chosen.len() implies sender.umem.owns(
                    #[trigger] chosen[i],
                ) by {
                    assert(chosen[i] == sender.descs@[sender.descs@.len() - k + i]);
                }
            }
            lemma_with_len_owned(sender.umem, chosen, width);
            if clear {
                let back = taken(before.cq@, b);
                assert forall|i: int| 0 <= i < back.len() implies before.umem.owns(
                    #[trigger] back[i],
                ) by {
                    assert(back[i] == before.cq@[i]);
                }
            }
        }
        let cycle = match run_tx_thread(sender, config, stats) {
            Ok(cycle) => cycle,
            Err(fault) => {
                assert(!clear);
                return Err(fault);
            },
        };
        let ghost offered = *sender;
        proof {
            if clear {
                assert(k == min(b, left as int));
                assert(cycle.accepted == k);
                assert(k >= 1);
                assert(sender.cq@.len() == 0);
                assert(sender.tx_q@ =~= batch);
                assert(sender.descs@.len() == frames - k);
            }
            assert(sender.tx_q@.len() == before.tx_q@.len() + cycle.accepted);
            assert(sender.cq@.len() == before.cq@.len() - cycle.reclaimed);
            assert(sender.descs@.len() == before.descs@.len() - cycle.accepted + cycle.reclaimed);
        }
        if cycle.accepted > 0 {
            proof {
                assert((run.cycles + 1) * b == run.cycles * b + b) by (nonlinear_arith);
            }
            run.cycles = run.cycles + 1;
            run.packets_sent = run.packets_sent + cycle.accepted;
        }
        let ghost queued = sender.tx_q@;
        let ghost donated_frames = receiver.fq@;
        let ghost n = min(queued.len() as int, sender.cq.cap() - sender.cq@.len());
        proof {
            if clear {
                assert(n == k);
                assert forall|i: int| 0 <= i < queued.take(n).len() implies sender.umem.owns(
                    #[trigger] queued.take(n)[i],
                ) by {
                    assert(queued.take(n)[i] == batch[i]);
                }
                assert forall|i: int|
                    0 <= i < donated_frames.take(n).len() implies receiver.umem.owns(
                    #[trigger] donated_frames.take(n)[i],
                ) by {
                    assert(donated_frames.take(n)[i] == donated_frames[i]);
                }
                assert forall|i: int| 0 <= i < n implies (#[trigger] sender.tx_q@[i]).len
                    <= receiver.umem.frame_bytes() by {
                    assert(sender.tx_q@[i] == batch[i]);
                }
                assert(can_deliver(*sender, *receiver, n));
            }
        }
        let wired = match wire(sender, receiver) {
            Ok(wired) => wired,
            Err(fault) => {
                return Err(fault);
            },
        };
        run.packets_dropped = add_capped(run.packets_dropped, wired.dropped);
        proof {
            if clear {
                let going = queued.take(n);
                lemma_completions_owned(sender.umem, going);
                assert(sender.tx_q@.len() == 0);
                assert(sender.cq@.len() == k);
                assert forall|i: int| 0 <= i < sender.cq@.len() implies sender.umem.owns(
                    #[trigger] sender.cq@[i],
                ) by {
                    assert(sender.cq@[i] == completions(going)[i]);
                }
                assert forall|i: int| 0 <= i < receiver.fq@.len() implies receiver.umem.owns(
                    #[trigger] receiver.fq@[i],
                ) by {
                    assert(receiver.fq@[i] == donated_frames[i + n]);
                }
                let handed = deliveries(donated_frames, queued, n);
                assert(receiver.rx_q@ =~= handed);
                assert forall|i: int| 0 <= i < receiver.rx_q@.len() implies receiver.umem.owns(
                    #[trigger] receiver.rx_q@[i],
                ) by {
                    assert(receiver.rx_q@[i] == rx_desc(donated_frames[i].addr, queued[i].len));
                    assert(receiver.umem.owns(donated_frames[i]));
                    assert(queued[i] == batch[i]);
                }
                assert(run_before.cycles * b == run_before.packets_sent);
                assert(left == packets - run_before.packets_sent);
                if left <= b {
                    lemma_batches_count(
                        run_before.packets_sent as int,
                        left as int,
                        b,
                        run_before.cycles as int,
                    );
                } else {
                    assert((run_before.cycles + 1) * b == run_before.packets_sent + b)
                        by (nonlinear_arith)
                        requires
                            run_before.cycles * b == run_before.packets_sent,
                    ;
                }
            }
        }
        if cycle.accepted == 0 && cycle.reclaimed == 0 && wired.delivered == 0 && wired.dropped == 0
            && turn.donated == 0 && turn.received == 0 {
            proof {
                assert(!clear);
                assert(taken(sender.cq@, b).len() == 0);
            }
            break ;
        }
    }
    let ghost rx_before = *receiver;
    let ghost received_before = run.packets_received;
    proof {
        if clear {
            assert(taken(rx_before.rx_q@, b) =~= rx_before.rx_q@);
        }
    }
    let turn = match run_rx_thread(receiver, config, stats) {
        Ok(turn) => turn,
        Err(fault) => {
            return Err(fault);
        },
    };
    run.packets_received = add_capped(run.packets_received, turn.received);
    proof {
        if clear {
            lemma_counted_twice(
                old(stats).total_packets_received,
                received_before,
                turn.received,
            );
        }
    }
    Ok(run)
}

} // verus!
