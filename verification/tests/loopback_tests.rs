use af_xdp::af_xdp::{Interface, RingFault, RingKind, RingOp, Xsk};
use af_xdp::config::{Config, Opt, XskConfig};
use af_xdp::frame::{FrameDesc, FramePool};
use af_xdp::loopback::{run_interleaved, send_all, wire, BenchRun, TxRun, Wired};
use af_xdp::metrics::{BenchmarkMetrics, SocketType};

fn socket_with(tx: u32, cq: u32, frames: u32) -> Xsk {
    let pool = FramePool::allocate(2048, frames).unwrap();
    let mut iface = Interface::new(1);
    let cfg = XskConfig {
        tx_q_size: tx,
        rx_q_size: 4,
        cq_size: cq,
        fq_size: 4,
        frame_size: 2048,
        frame_count: frames,
    };
    Xsk::bind(pool, &mut iface, 0, &cfg).unwrap()
}

fn run_config(batch: usize, packets: usize) -> Config {
    let mut c = Config::from(Opt::default());
    c.max_batch_size = batch;
    c.num_packets_to_send = packets;
    c
}

#[test]
fn thousand_packets_in_batches_of_sixty_four() {
    let mut xsk = socket_with(64, 64, 128);
    let mut stats = BenchmarkMetrics::new(SocketType::Afxdp, 32);
    let run = send_all(&mut xsk, &run_config(64, 1000), &mut stats).unwrap();
    assert_eq!(run, TxRun { batches: 16, last_batch: 40, packets_sent: 1000 });
    assert_eq!(stats.total_packets_sent, 1000);
    assert!(xsk.tx_q.is_empty());
    assert_eq!(xsk.cq.len(), 40);
    assert_eq!(xsk.descs.len(), 88);
}

#[test]
fn whole_batches_leave_a_full_last_batch() {
    let mut xsk = socket_with(8, 8, 16);
    let mut stats = BenchmarkMetrics::new(SocketType::Afxdp, 32);
    let run = send_all(&mut xsk, &run_config(8, 64), &mut stats).unwrap();
    assert_eq!(run, TxRun { batches: 8, last_batch: 8, packets_sent: 64 });
    let mut xsk = socket_with(8, 8, 16);
    let mut stats = BenchmarkMetrics::new(SocketType::Afxdp, 32);
    let run = send_all(&mut xsk, &run_config(8, 1), &mut stats).unwrap();
    assert_eq!(run, TxRun { batches: 1, last_batch: 1, packets_sent: 1 });
}

#[test]
fn nothing_to_send_takes_no_batch() {
    let mut xsk = socket_with(8, 8, 16);
    let mut stats = BenchmarkMetrics::new(SocketType::Afxdp, 32);
    let run = send_all(&mut xsk, &run_config(8, 0), &mut stats).unwrap();
    assert_eq!(run, TxRun { batches: 0, last_batch: 0, packets_sent: 0 });
    stats.total_packets_sent = 50;
    let run = send_all(&mut xsk, &run_config(8, 20), &mut stats).unwrap();
    assert_eq!(run, TxRun { batches: 0, last_batch: 0, packets_sent: 0 });
    assert_eq!(stats.total_packets_sent, 50);
    assert_eq!(xsk.descs.len(), 16);
}

#[test]
fn run_resumes_from_packets_already_sent() {
    let mut xsk = socket_with(8, 8, 16);
    let mut stats = BenchmarkMetrics::new(SocketType::Afxdp, 32);
    stats.total_packets_sent = 90;
    let run = send_all(&mut xsk, &run_config(8, 100), &mut stats).unwrap();
    assert_eq!(run, TxRun { batches: 2, last_batch: 2, packets_sent: 10 });
    assert_eq!(stats.total_packets_sent, 100);
}

#[test]
fn small_rings_send_smaller_batches() {
    let mut xsk = socket_with(4, 8, 16);
    let mut stats = BenchmarkMetrics::new(SocketType::Afxdp, 32);
    let run = send_all(&mut xsk, &run_config(8, 20), &mut stats).unwrap();
    assert_eq!(run, TxRun { batches: 5, last_batch: 4, packets_sent: 20 });
    assert_eq!(stats.total_packets_sent, 20);
}

#[test]
fn run_without_batch_room_stalls_at_once() {
    let mut xsk = socket_with(4, 4, 8);
    let mut stats = BenchmarkMetrics::new(SocketType::Afxdp, 32);
    let run = send_all(&mut xsk, &run_config(0, 20), &mut stats).unwrap();
    assert_eq!(run, TxRun { batches: 0, last_batch: 0, packets_sent: 0 });
    assert_eq!(stats.total_packets_sent, 0);
}

#[test]
fn driver_sends_all_that_the_completion_ring_has_room_for() {
    let mut xsk = socket_with(8, 2, 8);
    let batch: Vec<FrameDesc> = xsk.descs.split_off(3);
    assert_eq!(xsk.tx_q.produce(&batch), 5);
    assert_eq!(xsk.kernel_transmit_all(), Ok(2));
    assert_eq!(xsk.tx_q.len(), 3);
    assert!(xsk.cq.is_full());
    assert_eq!(xsk.kernel_transmit_all(), Ok(0));
    let mut done = vec![FrameDesc::default(); 2];
    assert_eq!(xsk.cq.consume(&mut done), 2);
    assert_eq!(done, vec![FrameDesc::new(3 * 2048), FrameDesc::new(4 * 2048)]);
    assert_eq!(xsk.kernel_transmit_all(), Ok(2));
    assert_eq!(xsk.tx_q.len(), 1);
}

#[test]
fn driver_stops_at_a_frame_it_does_not_know() {
    let mut xsk = socket_with(8, 8, 4);
    let bad = FrameDesc::new(99);
    assert_eq!(xsk.tx_q.produce(&[FrameDesc::new(0), bad, FrameDesc::new(2048)]), 3);
    let r = xsk.kernel_transmit_all();
    assert_eq!(r, Err(RingFault { ring: RingKind::Tx, op: RingOp::Consume }));
    assert_eq!(xsk.cq.len(), 1);
    assert_eq!(xsk.tx_q.len(), 1);
    let mut stats = BenchmarkMetrics::new(SocketType::Afxdp, 32);
    let mut xsk = socket_with(8, 8, 4);
    assert_eq!(xsk.cq.produce(&[bad]), 1);
    let r = send_all(&mut xsk, &run_config(2, 4), &mut stats);
    assert_eq!(r, Err(RingFault { ring: RingKind::Completion, op: RingOp::Consume }));
}

fn receiver_socket(fq: u32, rx: u32, frames: u32) -> Xsk {
    let pool = FramePool::allocate(2048, frames).unwrap();
    let mut iface = Interface::new(1);
    let cfg = XskConfig {
        tx_q_size: 4,
        rx_q_size: rx,
        cq_size: 4,
        fq_size: fq,
        frame_size: 2048,
        frame_count: frames,
    };
    Xsk::bind(pool, &mut iface, 0, &cfg).unwrap()
}

#[test]
fn wire_delivers_packets_in_order_into_donated_frames() {
    let mut sender = socket_with(8, 8, 8);
    let mut receiver = receiver_socket(8, 8, 8);
    let donated: Vec<FrameDesc> = receiver.descs.drain(..3).collect();
    assert_eq!(receiver.fq.produce(&donated), 3);
    let mut batch = vec![sender.descs[5], sender.descs[6]];
    {
        let frame = sender.umem.frame_view(&batch[0]);
        frame[..3].copy_from_slice(&[1, 2, 3]);
    }
    {
        let frame = sender.umem.frame_view(&batch[1]);
        frame[..2].copy_from_slice(&[9, 8]);
    }
    batch[0].len = 3;
    batch[1].len = 2;
    assert_eq!(sender.tx_q.produce(&batch), 2);
    assert_eq!(wire(&mut sender, &mut receiver), Ok(Wired { delivered: 2, dropped: 0 }));
    assert!(sender.tx_q.is_empty());
    assert_eq!(sender.cq.len(), 2);
    assert_eq!(receiver.fq.len(), 1);
    let mut got = vec![FrameDesc::default(); 4];
    assert_eq!(receiver.rx_q.consume(&mut got), 2);
    assert_eq!(got[0], FrameDesc { addr: 0, len: 3, options: 0 });
    assert_eq!(got[1], FrameDesc { addr: 2048, len: 2, options: 0 });
    assert_eq!(receiver.umem.data(&got[0]), &[1, 2, 3]);
    assert_eq!(receiver.umem.data(&got[1]), &[9, 8]);
}

#[test]
fn wire_drops_what_the_receiver_cannot_take() {
    let mut sender = socket_with(8, 8, 8);
    let mut receiver = receiver_socket(8, 8, 8);
    let donated: Vec<FrameDesc> = receiver.descs.drain(..1).collect();
    assert_eq!(receiver.fq.produce(&donated), 1);
    let batch: Vec<FrameDesc> = sender.descs.split_off(5);
    assert_eq!(sender.tx_q.produce(&batch), 3);
    assert_eq!(wire(&mut sender, &mut receiver), Ok(Wired { delivered: 1, dropped: 2 }));
    assert_eq!(sender.cq.len(), 3);
    assert_eq!(receiver.rx_q.len(), 1);
    assert_eq!(wire(&mut sender, &mut receiver), Ok(Wired { delivered: 0, dropped: 0 }));
}

#[test]
fn interleaved_run_loses_no_packet() {
    let mut sender = socket_with(64, 64, 128);
    let mut receiver = receiver_socket(64, 64, 64);
    let mut stats = BenchmarkMetrics::new(SocketType::Afxdp, 32);
    let run = run_interleaved(&mut sender, &mut receiver, &run_config(64, 1000), &mut stats);
    assert_eq!(
        run,
        Ok(BenchRun { cycles: 16, packets_sent: 1000, packets_received: 1000, packets_dropped: 0 })
    );
    assert_eq!(stats.total_packets_sent, 1000);
    assert_eq!(stats.total_packets_received, 1000);
    assert!(sender.tx_q.is_empty());
    assert!(receiver.rx_q.is_empty());
    assert_eq!(receiver.descs.len() + receiver.fq.len(), 64);
    let expect: Vec<u8> = (0..32u8).collect();
    let first = FrameDesc { addr: 0, len: 32, options: 0 };
    assert_eq!(receiver.umem.data(&first), &expect[..]);
}

#[test]
fn interleaved_run_drops_when_the_receiver_is_short_of_frames() {
    let mut sender = socket_with(8, 8, 16);
    let mut receiver = receiver_socket(4, 8, 4);
    let mut stats = BenchmarkMetrics::new(SocketType::Afxdp, 32);
    let run = run_interleaved(&mut sender, &mut receiver, &run_config(8, 16), &mut stats).unwrap();
    assert_eq!(run.cycles, 2);
    assert_eq!(run.packets_sent, 16);
    assert_eq!(run.packets_received, 8);
    assert_eq!(run.packets_dropped, 8);
    assert_eq!(stats.total_packets_received, 8);
}

#[test]
fn interleaved_run_with_nothing_to_send_changes_nothing() {
    let mut sender = socket_with(8, 8, 16);
    let mut receiver = receiver_socket(8, 8, 8);
    let mut stats = BenchmarkMetrics::new(SocketType::Afxdp, 32);
    let run = run_interleaved(&mut sender, &mut receiver, &run_config(8, 0), &mut stats).unwrap();
    assert_eq!(run, BenchRun { cycles: 0, packets_sent: 0, packets_received: 0, packets_dropped: 0 });
    assert_eq!(stats.total_packets_sent, 0);
    assert_eq!(sender.descs.len(), 16);
}

#[test]
fn run_goes_on_after_a_cycle_that_only_reclaims() {
    // All frames but one wait on the Completion ring: the first cycle can
    // offer one frame only, and reclaims the others for the cycles after it.
    let mut xsk = socket_with(8, 8, 8);
    let waiting: Vec<FrameDesc> = xsk.descs.drain(..7).collect();
    assert_eq!(xsk.cq.produce(&waiting), 7);
    let mut stats = BenchmarkMetrics::new(SocketType::Afxdp, 32);
    let run = send_all(&mut xsk, &run_config(4, 9), &mut stats).unwrap();
    assert_eq!(run, TxRun { batches: 3, last_batch: 4, packets_sent: 9 });
    assert_eq!(stats.total_packets_sent, 9);
}

#[test]
fn run_starts_by_draining_a_full_tx_ring() {
    let mut xsk = socket_with(2, 8, 8);
    let queued: Vec<FrameDesc> = xsk.descs.drain(..2).collect();
    assert_eq!(xsk.tx_q.produce(&queued), 2);
    let mut stats = BenchmarkMetrics::new(SocketType::Afxdp, 32);
    let run = send_all(&mut xsk, &run_config(2, 4), &mut stats).unwrap();
    assert_eq!(run, TxRun { batches: 2, last_batch: 2, packets_sent: 4 });
    assert!(xsk.tx_q.is_empty());
}

#[test]
fn run_ends_when_nothing_can_move() {
    // A Completion ring of one slot that is taken and never reclaimed
    // (batches of no frames) leaves the driver nowhere to report to.
    let mut xsk = socket_with(4, 1, 8);
    let mut stats = BenchmarkMetrics::new(SocketType::Afxdp, 32);
    let run = send_all(&mut xsk, &run_config(0, 5), &mut stats).unwrap();
    assert_eq!(run, TxRun { batches: 0, last_batch: 0, packets_sent: 0 });
    assert!(xsk.tx_q.is_empty());
    assert_eq!(xsk.descs.len(), 8);
}

#[test]
fn wire_leaves_the_sender_nothing_to_send() {
    let mut sender = socket_with(8, 2, 8);
    let mut receiver = receiver_socket(8, 8, 8);
    let batch: Vec<FrameDesc> = sender.descs.split_off(3);
    assert_eq!(sender.tx_q.produce(&batch), 5);
    assert_eq!(wire(&mut sender, &mut receiver), Ok(Wired { delivered: 0, dropped: 2 }));
    assert_eq!(sender.tx_q.len(), 3);
    assert!(sender.cq.is_full());
    assert_eq!(receiver.rx_q.len(), 0);
}
