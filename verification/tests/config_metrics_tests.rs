use af_xdp::clock::{current_time_ns, timestamp_of, timestamp_of_reading};
use af_xdp::config::{Config, ConfigError, Opt, XskConfig, XDP_UMEM_MIN_CHUNK_SIZE};
use af_xdp::metrics::{BenchmarkMetrics, SocketType};

#[test]
fn default_options_are_the_documented_ones() {
    let opt = Opt::default();
    assert!(!opt.multithreaded);
    assert_eq!(opt.fq_size_sender, 8192);
    assert_eq!(opt.cq_size_sender, 4096);
    assert_eq!(opt.tx_q_size_sender, 4096);
    assert_eq!(opt.rx_q_size_sender, 4096);
    assert_eq!(opt.frame_size_sender, 2048);
    assert_eq!(opt.fq_size_receiver, 8192);
    assert_eq!(opt.cq_size_receiver, 4096);
    assert_eq!(opt.tx_q_size_receiver, 4096);
    assert_eq!(opt.rx_q_size_receiver, 4096);
    assert_eq!(opt.frame_size_receiver, 2048);
    assert_eq!(opt.poll_ms_timeout, 100);
    assert_eq!(opt.payload_size, 32);
    assert_eq!(opt.max_batch_size, 64);
    assert_eq!(opt.num_packets_to_send, 5_000_000);
}

#[test]
fn config_from_default_options() {
    let config = Config::from(Opt::default());
    let socket = XskConfig {
        tx_q_size: 4096,
        rx_q_size: 4096,
        cq_size: 4096,
        fq_size: 8192,
        frame_size: 2048,
        frame_count: 12288,
    };
    assert_eq!(
        config,
        Config {
            multithreaded: false,
            poll_ms_timeout: 100,
            payload_size: 32,
            max_batch_size: 64,
            num_packets_to_send: 5_000_000,
            sender: socket,
            receiver: socket,
        }
    );
    assert_eq!(Config::checked_from(Opt::default()), Ok(config));
}

#[test]
fn frame_count_adds_fill_and_completion_ring_of_the_socket() {
    let opt = Opt {
        fq_size_sender: 16,
        cq_size_sender: 2,
        fq_size_receiver: 64,
        cq_size_receiver: 8,
        ..Opt::default()
    };
    let config = Config::checked_from(opt).unwrap();
    assert_eq!(config.sender.frame_count, 18);
    assert_eq!(config.receiver.frame_count, 72);
    assert_eq!(config.sender.cq_size, 2);
    assert_eq!(Config::from(opt), config);
}

#[test]
fn sender_does_not_depend_on_receiver_options() {
    let one = Opt { cq_size_receiver: 4096, ..Opt::default() };
    let other = Opt {
        cq_size_receiver: 1024,
        fq_size_receiver: 2,
        tx_q_size_receiver: 16,
        rx_q_size_receiver: 32,
        frame_size_receiver: 4096,
        ..Opt::default()
    };
    let (a, b) = (Config::from(one), Config::from(other));
    assert_eq!(a.sender, b.sender);
    assert_eq!(a.sender.frame_count, 8192 + 4096);
    assert_eq!(b.receiver.frame_count, 1026);
    let one = Opt { cq_size_sender: 1024, ..Opt::default() };
    assert_eq!(Config::from(one).receiver, Config::from(Opt::default()).receiver);
    assert_eq!(Config::from(one).sender.frame_count, 8192 + 1024);
}

#[test]
fn queue_size_fault_names_the_size() {
    let opt = Opt { tx_q_size_sender: 3, rx_q_size_sender: 5, ..Opt::default() };
    assert_eq!(Config::checked_from(opt), Err(ConfigError::QueueSize(3)));
    let opt = Opt { rx_q_size_sender: 5, cq_size_sender: 0, ..Opt::default() };
    assert_eq!(Config::checked_from(opt), Err(ConfigError::QueueSize(5)));
    let opt = Opt { cq_size_sender: 0, ..Opt::default() };
    assert_eq!(Config::checked_from(opt), Err(ConfigError::QueueSize(0)));
    let opt = Opt { fq_size_sender: 100, ..Opt::default() };
    assert_eq!(Config::checked_from(opt), Err(ConfigError::QueueSize(100)));
    let opt = Opt { fq_size_receiver: 7, ..Opt::default() };
    assert_eq!(Config::checked_from(opt), Err(ConfigError::QueueSize(7)));
    let opt = Opt { tx_q_size_receiver: 9, frame_size_sender: 1, ..Opt::default() };
    assert_eq!(Config::checked_from(opt), Err(ConfigError::FrameSize(1)));
}

#[test]
fn frame_size_fault_names_the_size() {
    assert_eq!(XDP_UMEM_MIN_CHUNK_SIZE, 2048);
    let opt = Opt { frame_size_sender: 2047, ..Opt::default() };
    assert_eq!(Config::checked_from(opt), Err(ConfigError::FrameSize(2047)));
    let opt = Opt { frame_size_receiver: 0, ..Opt::default() };
    assert_eq!(Config::checked_from(opt), Err(ConfigError::FrameSize(0)));
    let opt = Opt { frame_size_receiver: 2049, frame_size_sender: 4096, ..Opt::default() };
    let config = Config::checked_from(opt).unwrap();
    assert_eq!(config.receiver.frame_size, 2049);
    assert_eq!(config.sender.frame_size, 4096);
}

#[test]
fn frame_count_that_overflows_is_a_fault() {
    let opt = Opt { fq_size_sender: 1 << 31, cq_size_sender: 1 << 31, ..Opt::default() };
    assert_eq!(Config::checked_from(opt), Err(ConfigError::FrameCount));
    let opt = Opt { fq_size_receiver: 1 << 31, cq_size_receiver: 1 << 31, fq_size_sender: 1, ..Opt::default() };
    assert_eq!(Config::checked_from(opt), Err(ConfigError::FrameCount));
    let opt = Opt { fq_size_sender: 1 << 31, cq_size_sender: 1 << 30, ..Opt::default() };
    assert_eq!(Config::checked_from(opt).unwrap().sender.frame_count, 3 << 30);
}

#[test]
fn new_metrics_are_blank() {
    let m = BenchmarkMetrics::new(SocketType::Udp, 64);
    assert_eq!(
        m,
        BenchmarkMetrics {
            socket_type: SocketType::Udp,
            total_packets_sent: 0,
            total_packets_received: 0,
            packet_size: 64,
            elapsed_time: 0,
            bytes_sent: 0,
            average_latency: 0,
        }
    );
}

#[test]
fn increments_count_by_one_and_wrap() {
    let mut m = BenchmarkMetrics::new(SocketType::Afxdp, 32);
    m.increment_sent();
    m.increment_sent();
    m.increment_received();
    assert_eq!(m.total_packets_sent, 2);
    assert_eq!(m.total_packets_received, 1);
    m.total_packets_sent = usize::MAX;
    m.increment_sent();
    assert_eq!(m.total_packets_sent, 0);
    m.total_packets_received = usize::MAX;
    m.increment_received();
    assert_eq!(m.total_packets_received, 0);
    assert_eq!(m.packet_size, 32);
    assert_eq!(m.socket_type, SocketType::Afxdp);
}

#[test]
fn calculate_metrics_derives_bytes_and_latency() {
    let mut m = BenchmarkMetrics::new(SocketType::Afxdp, 64);
    m.total_packets_sent = 1000;
    m.total_packets_received = 4;
    m.elapsed_time = 1_000_002;
    assert!(m.averageable());
    m.calculate_metrics();
    assert_eq!(m.bytes_sent, 64_000);
    assert_eq!(m.average_latency, 250_000);
    assert_eq!(m.total_packets_sent, 1000);
    assert_eq!(m.elapsed_time, 1_000_002);
    m.total_packets_received = 3;
    m.calculate_metrics();
    assert_eq!(m.average_latency, 333_334);
}

#[test]
fn calculate_metrics_without_receptions_keeps_the_latency() {
    let mut m = BenchmarkMetrics::new(SocketType::Udp, 10);
    m.average_latency = 77;
    m.total_packets_sent = 3;
    m.elapsed_time = 500;
    m.bytes_sent = 1;
    assert!(m.averageable());
    m.calculate_metrics();
    assert_eq!(m.average_latency, 77);
    assert_eq!(m.bytes_sent, 30);
}

#[test]
fn bytes_sent_does_not_overflow() {
    let mut m = BenchmarkMetrics::new(SocketType::Udp, usize::MAX);
    m.total_packets_sent = usize::MAX;
    m.calculate_metrics();
    assert_eq!(m.bytes_sent, (usize::MAX as u128) * (usize::MAX as u128));
}

#[test]
fn latency_divisor_is_the_low_32_bits() {
    let mut m = BenchmarkMetrics::new(SocketType::Udp, 1);
    m.total_packets_received = (1usize << 32) + 2;
    m.elapsed_time = 100;
    assert!(m.averageable());
    m.calculate_metrics();
    assert_eq!(m.average_latency, 50);
    m.total_packets_received = 1usize << 32;
    assert!(!m.averageable());
    m.total_packets_received = 0;
    assert!(m.averageable());
}

#[test]
fn socket_type_prints_its_name() {
    assert_eq!(format!("{:?}", SocketType::Afxdp), "Afxdp");
    assert_eq!(format!("{:?}", SocketType::Udp), "Udp");
}

#[test]
fn timestamp_keeps_the_low_64_bits() {
    assert_eq!(timestamp_of(0), 0);
    assert_eq!(timestamp_of(1_700_000_000_000_000_000), 1_700_000_000_000_000_000);
    assert_eq!(timestamp_of(u64::MAX as u128), u64::MAX);
    assert_eq!(timestamp_of((1u128 << 64) + 5), 5);
    assert_eq!(timestamp_of(u128::MAX), u64::MAX);
    assert_eq!(timestamp_of_reading(None), None);
    assert_eq!(timestamp_of_reading(Some((1u128 << 64) + 9)), Some(9));
}

#[test]
fn clock_reads_a_time_after_2020_and_moves_on() {
    let first = current_time_ns().unwrap();
    assert!(first > 1_577_836_800_000_000_000);
    let mut later = current_time_ns().unwrap();
    for _ in 0..1_000_000 {
        if later != first {
            break;
        }
        later = current_time_ns().unwrap();
    }
    assert!(later > first);
}
