use af_xdp::af_xdp::{
    generate_test_packet, BindError, Interface, RingFault, RingKind, RingOp, Xsk, FIRST_FD,
};
use af_xdp::config::{Config, Opt, XskConfig};
use af_xdp::engine::{
    after_offer, check_all_name_frames, check_all_owned, fill_batch, must_wake, next_batch_len,
    run_rx_thread, run_tx_thread, Offer, RxCycle, TxCycle,
};
use af_xdp::frame::{FrameDesc, FramePool};
use af_xdp::metrics::{BenchmarkMetrics, SocketType};

fn socket_config(ring: u32, frames: u32) -> XskConfig {
    XskConfig {
        tx_q_size: ring,
        rx_q_size: ring,
        cq_size: ring,
        fq_size: ring,
        frame_size: 2048,
        frame_count: frames,
    }
}

fn socket(ring: u32, frames: u32) -> Xsk {
    let pool = FramePool::allocate(2048, frames).unwrap();
    let mut iface = Interface::new(1);
    Xsk::bind(pool, &mut iface, 0, &socket_config(ring, frames)).unwrap()
}

fn config(payload: usize, batch: usize, packets: usize) -> Config {
    let mut c = Config::from(Opt::default());
    c.payload_size = payload;
    c.max_batch_size = batch;
    c.num_packets_to_send = packets;
    c.poll_ms_timeout = 50;
    c
}

fn payload(n: usize) -> Vec<u8> {
    (0..n).map(|i| (i % 256) as u8).collect()
}

#[test]
fn test_packet_is_the_counting_pattern() {
    let mut buf = [0xaau8; 8];
    assert_eq!(generate_test_packet(&mut buf, 4), 4);
    assert_eq!(buf, [0, 1, 2, 3, 0xaa, 0xaa, 0xaa, 0xaa]);
    let mut buf = [0xaau8; 3];
    assert_eq!(generate_test_packet(&mut buf, 32), 3);
    assert_eq!(buf, [0, 1, 2]);
    let mut buf = [7u8; 2];
    assert_eq!(generate_test_packet(&mut buf, 0), 0);
    assert_eq!(buf, [7, 7]);
    let mut none: [u8; 0] = [];
    assert_eq!(generate_test_packet(&mut none, 5), 0);
    let mut long = vec![9u8; 600];
    assert_eq!(generate_test_packet(&mut long, 600), 600);
    assert_eq!(long[255], 255);
    assert_eq!(long[256], 0);
    assert_eq!(long[599], 87);
    assert_eq!(long, payload(600));
}

#[test]
fn batch_length_is_the_smallest_bound() {
    assert_eq!(next_batch_len(64, 1000, 0, 4096), 64);
    assert_eq!(next_batch_len(64, 1000, 960, 4096), 40);
    assert_eq!(next_batch_len(64, 1000, 1000, 4096), 0);
    assert_eq!(next_batch_len(64, 1000, 1001, 4096), 0);
    assert_eq!(next_batch_len(64, 1000, 0, 10), 10);
    assert_eq!(next_batch_len(0, 1000, 0, 10), 0);
    assert_eq!(next_batch_len(64, 1000, 0, 0), 0);
    assert_eq!(next_batch_len(usize::MAX, usize::MAX, 0, usize::MAX), usize::MAX);
}

#[test]
fn wakeup_only_after_partial_acceptance_on_request() {
    assert!(must_wake(4, 0, true));
    assert!(must_wake(4, 3, true));
    assert!(!must_wake(4, 4, true));
    assert!(!must_wake(4, 0, false));
    assert!(!must_wake(0, 0, true));
}

#[test]
fn bind_starts_with_empty_rings_and_all_frames_free() {
    let pool = FramePool::allocate(2048, 16).unwrap();
    let mut iface = Interface::new(2);
    assert_eq!(iface.queue_count(), 2);
    assert!(!iface.is_bound(1));
    let cfg = XskConfig {
        tx_q_size: 8,
        rx_q_size: 4,
        cq_size: 2,
        fq_size: 16,
        frame_size: 2048,
        frame_count: 16,
    };
    let xsk = Xsk::bind(pool, &mut iface, 1, &cfg).unwrap();
    assert_eq!(xsk.tx_q.capacity(), 8);
    assert_eq!(xsk.rx_q.capacity(), 4);
    assert_eq!(xsk.cq.capacity(), 2);
    assert_eq!(xsk.fq.capacity(), 16);
    assert!(xsk.tx_q.is_empty() && xsk.rx_q.is_empty() && xsk.cq.is_empty() && xsk.fq.is_empty());
    assert_eq!(xsk.descs, xsk.umem.descriptors());
    assert_eq!(xsk.descs.len(), 16);
    assert_eq!(xsk.queue_id(), 1);
    assert_eq!(xsk.fd(), FIRST_FD);
    assert!(iface.is_bound(1));
    assert!(!iface.is_bound(0));
    assert!(!iface.is_bound(2));
    let pool = FramePool::allocate(2048, 16).unwrap();
    let other = Xsk::bind(pool, &mut iface, 0, &cfg).unwrap();
    assert_eq!(other.fd(), FIRST_FD + 1);
}

#[test]
fn bind_fails_on_queue_ring_and_frame_faults() {
    let mut iface = Interface::new(1);
    let pool = || FramePool::allocate(2048, 4).unwrap();
    let good = socket_config(4, 4);
    assert!(matches!(Xsk::bind(pool(), &mut iface, 1, &good), Err(BindError::InvalidQueue)));
    let bad = XskConfig { fq_size: 3, cq_size: 5, ..good };
    assert!(matches!(Xsk::bind(pool(), &mut iface, 0, &bad), Err(BindError::RingSize(3))));
    let bad = XskConfig { cq_size: 5, tx_q_size: 6, ..good };
    assert!(matches!(Xsk::bind(pool(), &mut iface, 0, &bad), Err(BindError::RingSize(5))));
    let bad = XskConfig { tx_q_size: 6, rx_q_size: 0, ..good };
    assert!(matches!(Xsk::bind(pool(), &mut iface, 0, &bad), Err(BindError::RingSize(6))));
    let bad = XskConfig { rx_q_size: 0, frame_size: 100, ..good };
    assert!(matches!(Xsk::bind(pool(), &mut iface, 0, &bad), Err(BindError::RingSize(0))));
    let bad = XskConfig { frame_size: 1024, ..good };
    assert!(matches!(Xsk::bind(pool(), &mut iface, 0, &bad), Err(BindError::FrameSize(1024))));
    let bad = XskConfig { frame_size: 4096, ..good };
    assert!(matches!(Xsk::bind(pool(), &mut iface, 0, &bad), Err(BindError::FrameSize(4096))));
    let odd = FramePool::allocate(3000, 4).unwrap();
    let bad = XskConfig { frame_size: 3000, ..good };
    assert!(matches!(Xsk::bind(odd, &mut iface, 0, &bad), Err(BindError::FrameSize(3000))));
    assert!(!iface.is_bound(0));
    assert!(Xsk::bind(pool(), &mut iface, 0, &good).is_ok());
    assert!(iface.is_bound(0));
    assert!(matches!(Xsk::bind(pool(), &mut iface, 0, &good), Err(BindError::QueueBusy)));
    assert!(matches!(Xsk::bind(pool(), &mut iface, 0, &bad), Err(BindError::QueueBusy)));
}

#[test]
fn fill_batch_writes_payload_and_sets_lengths() {
    let mut pool = FramePool::allocate(2048, 4).unwrap();
    let descs = pool.descriptors();
    let mut batch = vec![descs[3], descs[1]];
    fill_batch(&mut pool, &mut batch, 32);
    assert_eq!(batch, vec![
        FrameDesc { addr: 6144, len: 32, options: 0 },
        FrameDesc { addr: 2048, len: 32, options: 0 },
    ]);
    assert_eq!(pool.data(&batch[0]), &payload(32)[..]);
    assert_eq!(pool.data(&batch[1]), &payload(32)[..]);
    let rest = FrameDesc { addr: 6144, len: 2048, options: 0 };
    assert!(pool.data(&rest)[32..].iter().all(|b| *b == 0));
    for addr in [0usize, 4096] {
        let other = FrameDesc { addr, len: 2048, options: 0 };
        assert!(pool.data(&other).iter().all(|b| *b == 0));
    }
    let mut batch = vec![descs[0]];
    fill_batch(&mut pool, &mut batch, 5000);
    assert_eq!(batch[0].len, 2048);
    assert_eq!(pool.data(&batch[0]), &payload(2048)[..]);
}

#[test]
fn batch_of_four_is_sent_and_completed() {
    let mut xsk = socket(8, 16);
    let cfg = config(32, 4, 4);
    let mut stats = BenchmarkMetrics::new(SocketType::Afxdp, 32);
    let cycle = run_tx_thread(&mut xsk, &cfg, &mut stats).unwrap();
    assert_eq!(cycle, TxCycle { batch: 4, accepted: 4, reclaimed: 0, woke: false });
    assert_eq!(stats.total_packets_sent, 4);
    assert_eq!(xsk.tx_q.len(), 4);
    assert_eq!(xsk.descs.len(), 12);
    let mut sent_frames = Vec::new();
    for _ in 0..4 {
        let packet = xsk.kernel_transmit().unwrap().unwrap();
        assert_eq!(packet, payload(32));
        sent_frames.push(packet);
    }
    assert_eq!(xsk.kernel_transmit().unwrap(), None);
    assert!(xsk.tx_q.is_empty());
    let mut done = vec![FrameDesc::default(); 8];
    assert_eq!(xsk.cq.consume(&mut done), 4);
    let expect: Vec<FrameDesc> = (12..16).map(|i| FrameDesc::new(i * 2048)).collect();
    assert_eq!(&done[..4], &expect[..]);
    assert_eq!(stats.total_packets_sent, 4);
}

#[test]
fn sender_reclaims_completions_in_the_next_cycle() {
    let mut xsk = socket(8, 16);
    let cfg = config(32, 4, 8);
    let mut stats = BenchmarkMetrics::new(SocketType::Afxdp, 32);
    run_tx_thread(&mut xsk, &cfg, &mut stats).unwrap();
    while xsk.kernel_transmit().unwrap().is_some() {}
    let cycle = run_tx_thread(&mut xsk, &cfg, &mut stats).unwrap();
    assert_eq!(cycle, TxCycle { batch: 4, accepted: 4, reclaimed: 4, woke: false });
    assert_eq!(stats.total_packets_sent, 8);
    assert_eq!(xsk.descs.len(), 12);
    let tail: Vec<usize> = xsk.descs[8..].iter().map(|d| d.addr / 2048).collect();
    assert_eq!(tail, vec![12, 13, 14, 15]);
    let cycle = run_tx_thread(&mut xsk, &cfg, &mut stats).unwrap();
    assert_eq!(cycle, TxCycle { batch: 0, accepted: 0, reclaimed: 0, woke: false });
    assert_eq!(stats.total_packets_sent, 8);
}

#[test]
fn thousand_packets_take_sixteen_batches() {
    let mut xsk = socket(64, 128);
    let cfg = config(32, 64, 1000);
    let mut stats = BenchmarkMetrics::new(SocketType::Afxdp, 32);
    let mut batches = Vec::new();
    while stats.total_packets_sent < cfg.num_packets_to_send {
        let cycle = run_tx_thread(&mut xsk, &cfg, &mut stats).unwrap();
        assert_eq!(cycle.accepted, cycle.batch);
        batches.push(cycle.batch);
        while xsk.kernel_transmit().unwrap().is_some() {}
    }
    assert_eq!(batches.len(), 16);
    assert!(batches[..15].iter().all(|b| *b == 64));
    assert_eq!(batches[15], 40);
    assert_eq!(stats.total_packets_sent, 1000);
}

#[test]
fn partial_acceptance_counts_what_was_taken_and_wakes_on_request() {
    let mut xsk = socket(4, 16);
    xsk.tx_q.set_needs_wakeup(true);
    let cfg = config(16, 6, 100);
    let mut stats = BenchmarkMetrics::new(SocketType::Afxdp, 16);
    let cycle = run_tx_thread(&mut xsk, &cfg, &mut stats).unwrap();
    assert_eq!(cycle, TxCycle { batch: 6, accepted: 4, reclaimed: 0, woke: true });
    assert_eq!(stats.total_packets_sent, 4);
    assert_eq!(xsk.tx_q.wakeups(), 1);
    assert!(!xsk.tx_q.needs_wakeup());
    assert_eq!(xsk.descs.len(), 12);
    let back: Vec<FrameDesc> = xsk.descs[10..].to_vec();
    assert_eq!(back, vec![
        FrameDesc { addr: 14 * 2048, len: 16, options: 0 },
        FrameDesc { addr: 15 * 2048, len: 16, options: 0 },
    ]);
    let cycle = run_tx_thread(&mut xsk, &cfg, &mut stats).unwrap();
    assert_eq!(cycle, TxCycle { batch: 6, accepted: 0, reclaimed: 0, woke: false });
    assert_eq!(stats.total_packets_sent, 4);
    assert_eq!(xsk.tx_q.wakeups(), 1);
    let mut queued = vec![FrameDesc::default(); 4];
    assert_eq!(xsk.tx_q.consume(&mut queued), 4);
    let addrs: Vec<usize> = queued.iter().map(|d| d.addr / 2048).collect();
    assert_eq!(addrs, vec![10, 11, 12, 13]);
}

#[test]
fn full_acceptance_does_not_wake() {
    let mut xsk = socket(8, 16);
    xsk.tx_q.set_needs_wakeup(true);
    let cfg = config(16, 4, 100);
    let mut stats = BenchmarkMetrics::new(SocketType::Afxdp, 16);
    let cycle = run_tx_thread(&mut xsk, &cfg, &mut stats).unwrap();
    assert!(!cycle.woke);
    assert_eq!(xsk.tx_q.wakeups(), 0);
    assert!(xsk.tx_q.needs_wakeup());
}

#[test]
fn completion_of_unknown_frame_is_a_fault() {
    let mut xsk = socket(8, 4);
    assert_eq!(xsk.cq.produce(&[FrameDesc::new(2048), FrameDesc::new(5)]), 2);
    let cfg = config(16, 2, 100);
    let mut stats = BenchmarkMetrics::new(SocketType::Afxdp, 16);
    let r = run_tx_thread(&mut xsk, &cfg, &mut stats);
    assert_eq!(r, Err(RingFault { ring: RingKind::Completion, op: RingOp::Consume }));
    assert_eq!(stats.total_packets_sent, 2);
    assert_eq!(xsk.descs.len(), 2);
    assert!(xsk.cq.is_empty());
}

#[test]
fn transmit_of_unknown_frame_is_a_fault() {
    let mut xsk = socket(4, 4);
    assert_eq!(xsk.tx_q.produce(&[FrameDesc::new(4 * 2048)]), 1);
    let r = xsk.kernel_transmit();
    assert_eq!(r, Err(RingFault { ring: RingKind::Tx, op: RingOp::Consume }));
    assert!(xsk.tx_q.is_empty());
    assert!(xsk.cq.is_empty());
}

#[test]
fn transmit_waits_for_room_on_the_completion_ring() {
    let pool = FramePool::allocate(2048, 4).unwrap();
    let mut iface = Interface::new(1);
    let cfg = XskConfig { cq_size: 1, ..socket_config(4, 4) };
    let mut xsk = Xsk::bind(pool, &mut iface, 0, &cfg).unwrap();
    let a = FrameDesc { addr: 0, len: 2, options: 0 };
    let b = FrameDesc { addr: 2048, len: 1, options: 0 };
    assert_eq!(xsk.tx_q.produce(&[a, b]), 2);
    assert_eq!(xsk.kernel_transmit().unwrap(), Some(vec![0, 0]));
    assert_eq!(xsk.kernel_transmit().unwrap(), None);
    assert_eq!(xsk.tx_q.len(), 1);
    let mut done = vec![FrameDesc::default(); 1];
    assert_eq!(xsk.cq.consume(&mut done), 1);
    assert_eq!(done[0], FrameDesc::new(0));
    assert_eq!(xsk.kernel_transmit().unwrap(), Some(vec![0]));
}

#[test]
fn receive_drops_what_cannot_be_delivered() {
    let mut xsk = socket(2, 4);
    assert_eq!(xsk.kernel_receive(&[1, 2, 3]), Ok(false));
    assert_eq!(xsk.fq.produce(&xsk.descs.clone()[..2]), 2);
    assert_eq!(xsk.kernel_receive(&vec![0u8; 2049]), Ok(false));
    assert_eq!(xsk.fq.len(), 2);
    assert_eq!(xsk.kernel_receive(&vec![1u8; 2048]), Ok(true));
    assert_eq!(xsk.kernel_receive(&[]), Ok(true));
    assert_eq!(xsk.kernel_receive(&[9]), Ok(false));
    assert_eq!(xsk.rx_q.len(), 2);
    let mut got = vec![FrameDesc::default(); 2];
    assert_eq!(xsk.rx_q.consume(&mut got), 2);
    assert_eq!(got, vec![
        FrameDesc { addr: 0, len: 2048, options: 0 },
        FrameDesc { addr: 2048, len: 0, options: 0 },
    ]);
}

#[test]
fn receive_into_unknown_frame_is_a_fault() {
    let mut xsk = socket(2, 4);
    assert_eq!(xsk.fq.produce(&[FrameDesc::new(3)]), 1);
    let r = xsk.kernel_receive(&[1]);
    assert_eq!(r, Err(RingFault { ring: RingKind::Fill, op: RingOp::Consume }));
    assert!(xsk.fq.is_empty());
    assert!(xsk.rx_q.is_empty());
}

#[test]
fn round_trip_keeps_bytes_and_address() {
    let mut xsk = socket(4, 4);
    let frame = xsk.descs.pop().unwrap();
    assert_eq!(frame.addr, 3 * 2048);
    assert_eq!(xsk.fq.produce(&[frame]), 1);
    let packet: Vec<u8> = (0..100u8).map(|i| i.wrapping_mul(7).wrapping_add(3)).collect();
    assert_eq!(xsk.kernel_receive(&packet), Ok(true));
    let mut got = vec![FrameDesc::default(); 1];
    assert_eq!(xsk.rx_q.consume(&mut got), 1);
    assert_eq!(got[0], FrameDesc { addr: frame.addr, len: 100, options: 0 });
    assert_eq!(xsk.umem.data(&got[0]), &packet[..]);
    assert_eq!(xsk.tx_q.produce(&got), 1);
    assert_eq!(xsk.kernel_transmit().unwrap(), Some(packet.clone()));
    let mut done = vec![FrameDesc::default(); 1];
    assert_eq!(xsk.cq.consume(&mut done), 1);
    assert_eq!(done[0].addr, frame.addr);
    assert_eq!(xsk.umem.data(&got[0]), &packet[..]);
    for d in &xsk.descs {
        let whole = FrameDesc { addr: d.addr, len: 2048, options: 0 };
        assert!(xsk.umem.data(&whole).iter().all(|b| *b == 0));
    }
}

#[test]
fn receiver_cycle_donates_counts_and_redonates() {
    let mut xsk = socket(4, 8);
    let cfg = config(32, 8, 100);
    let mut stats = BenchmarkMetrics::new(SocketType::Afxdp, 32);
    let cycle = run_rx_thread(&mut xsk, &cfg, &mut stats).unwrap();
    assert_eq!(cycle, RxCycle { donated: 4, received: 0, redonated: 0 });
    assert_eq!(xsk.fq.len(), 4);
    assert_eq!(xsk.descs.len(), 4);
    assert_eq!(xsk.descs[0].addr, 4 * 2048);
    assert_eq!(stats.total_packets_received, 0);
    assert_eq!(xsk.kernel_receive(&[1, 2, 3]), Ok(true));
    assert_eq!(xsk.kernel_receive(&[4, 5]), Ok(true));
    let cycle = run_rx_thread(&mut xsk, &cfg, &mut stats).unwrap();
    assert_eq!(cycle, RxCycle { donated: 2, received: 2, redonated: 0 });
    assert_eq!(stats.total_packets_received, 2);
    assert_eq!(stats.total_packets_sent, 0);
    assert!(xsk.rx_q.is_empty());
    assert!(xsk.fq.is_full());
    assert_eq!(xsk.descs, vec![
        FrameDesc::new(6 * 2048),
        FrameDesc::new(7 * 2048),
        FrameDesc { addr: 0, len: 3, options: 0 },
        FrameDesc { addr: 2048, len: 2, options: 0 },
    ]);
}

#[test]
fn receiver_cycle_redonates_when_the_fill_ring_has_room() {
    let mut xsk = socket(8, 4);
    let cfg = config(32, 8, 100);
    let mut stats = BenchmarkMetrics::new(SocketType::Afxdp, 32);
    run_rx_thread(&mut xsk, &cfg, &mut stats).unwrap();
    assert!(xsk.descs.is_empty());
    assert_eq!(xsk.kernel_receive(&[7; 10]), Ok(true));
    let cycle = run_rx_thread(&mut xsk, &cfg, &mut stats).unwrap();
    assert_eq!(cycle, RxCycle { donated: 0, received: 1, redonated: 1 });
    assert_eq!(xsk.fq.len(), 4);
    assert!(xsk.descs.is_empty());
    assert_eq!(stats.total_packets_received, 1);
}

#[test]
fn received_unknown_frame_is_a_fault() {
    let mut xsk = socket(4, 4);
    assert_eq!(xsk.rx_q.produce(&[FrameDesc { addr: 0, len: 4096, options: 0 }]), 1);
    let cfg = config(32, 8, 100);
    let mut stats = BenchmarkMetrics::new(SocketType::Afxdp, 32);
    let r = run_rx_thread(&mut xsk, &cfg, &mut stats);
    assert_eq!(r, Err(RingFault { ring: RingKind::Rx, op: RingOp::Consume }));
    assert_eq!(stats.total_packets_received, 0);
}

#[test]
fn owned_check_looks_at_every_descriptor() {
    let pool = FramePool::allocate(2048, 2).unwrap();
    assert!(check_all_owned(&pool, &vec![]));
    assert!(check_all_owned(&pool, &pool.descriptors()));
    assert!(!check_all_owned(&pool, &vec![FrameDesc::new(0), FrameDesc::new(4096)]));
    assert!(!check_all_owned(&pool, &vec![FrameDesc::new(1), FrameDesc::new(0)]));
}

#[test]
fn offer_adds_what_was_taken_and_wakes_on_leftovers() {
    assert_eq!(after_offer(4, 0, 0, false), Offer { sent: 0, wake: false, done: false });
    assert_eq!(after_offer(4, 0, 0, true), Offer { sent: 0, wake: true, done: false });
    assert_eq!(after_offer(4, 0, 3, true), Offer { sent: 3, wake: true, done: false });
    assert_eq!(after_offer(4, 3, 1, true), Offer { sent: 4, wake: false, done: true });
    assert_eq!(after_offer(4, 1, 3, false), Offer { sent: 4, wake: false, done: true });
    assert_eq!(after_offer(4, 1, 9, true), Offer { sent: 4, wake: false, done: true });
    assert_eq!(after_offer(4, 1, usize::MAX, true), Offer { sent: 4, wake: false, done: true });
    assert_eq!(after_offer(0, 0, 0, true), Offer { sent: 0, wake: false, done: true });
    assert_eq!(after_offer(4, 4, 0, true), Offer { sent: 4, wake: false, done: true });
}

#[test]
fn frames_are_told_from_other_descriptors_by_plain_numbers() {
    let good = [FrameDesc::new(0), FrameDesc { addr: 2048, len: 2048, options: 1 }];
    assert!(check_all_name_frames(&good, 2048, 2));
    assert!(!check_all_name_frames(&good, 2048, 1));
    assert!(!check_all_name_frames(&good, 0, 2));
    assert!(!check_all_name_frames(&good, 1024, 2));
    assert!(check_all_name_frames(&[], 0, 0));
    let bad = [FrameDesc::new(0), FrameDesc::new(7)];
    assert!(!check_all_name_frames(&bad, 2048, 2));
}
