//! Benchmark options and the configuration derived from them.
//!
//! Options are plain numbers as a user gives them. A configuration holds the
//! same numbers once they are known to be usable: every ring size a power of
//! two, every frame size at least the smallest chunk that a frame pool may
//! be cut into.

use crate::ring::{check_pow_of_two, is_pow_of_two};
use vstd::prelude::*;

verus! {

/// The smallest frame size that a frame pool accepts, in bytes.
pub const XDP_UMEM_MIN_CHUNK_SIZE: u32 = 2048;

/// The options of a benchmark run, as given.
#[derive(Debug, Clone, Copy, PartialEq, Eq, Structural)]
pub struct Opt {
    /// Run sender and receiver in separate threads.
    pub multithreaded: bool,
    /// Sender fill queue size.
    pub fq_size_sender: u32,
    /// Sender completion queue size.
    pub cq_size_sender: u32,
    /// Sender tx queue size.
    pub tx_q_size_sender: u32,
    /// Sender rx queue size.
    pub rx_q_size_sender: u32,
    /// Sender frame size.
    pub frame_size_sender: u32,
    /// Receiver fill queue size.
    pub fq_size_receiver: u32,
    /// Receiver completion queue size.
    pub cq_size_receiver: u32,
    /// Receiver tx queue size.
    pub tx_q_size_receiver: u32,
    /// Receiver rx queue size.
    pub rx_q_size_receiver: u32,
    /// Receiver frame size.
    pub frame_size_receiver: u32,
    /// Socket poll timeout in milliseconds.
    pub poll_ms_timeout: i32,
    /// Packet payload size.
    pub payload_size: usize,
    /// Largest number of packets to send at once.
    pub max_batch_size: usize,
    /// Total number of packets to send.
    pub num_packets_to_send: usize,
}

/// Ring and frame sizes of one socket.
#[derive(Debug, Clone, Copy, PartialEq, Eq, Structural)]
pub struct XskConfig {
    pub tx_q_size: u32,
    pub rx_q_size: u32,
    pub cq_size: u32,
    pub fq_size: u32,
    pub frame_size: u32,
    pub frame_count: u32,
}

/// The configuration of a benchmark run.
#[derive(Debug, Clone, Copy, PartialEq, Eq, Structural)]
pub struct Config {
    pub multithreaded: bool,
    pub poll_ms_timeout: i32,
    pub payload_size: usize,
    pub max_batch_size: usize,
    pub num_packets_to_send: usize,
    pub sender: XskConfig,
    pub receiver: XskConfig,
}

/// Why options cannot become a configuration.
#[derive(Debug, Clone, Copy, PartialEq, Eq, Structural)]
pub enum ConfigError {
    /// A ring size that is no power of two.
    QueueSize(u32),
    /// A frame size below `XDP_UMEM_MIN_CHUNK_SIZE`.
    FrameSize(u32),
    /// A frame count that does not fit in 32 bits.
    FrameCount,
}

/// The first fault among the sizes of one socket, in the order tx, rx,
/// completion, fill, frame count, frame size.
pub open spec fn socket_fault(
    tx: u32,
    rx: u32,
    cq: u32,
    fq: u32,
    frame_count: int,
    frame_size: u32,
) -> Option<ConfigError> {
    if !is_pow_of_two(tx) {
        Some(ConfigError::QueueSize(tx))
    } else if !is_pow_of_two(rx) {
        Some(ConfigError::QueueSize(rx))
    } else if !is_pow_of_two(cq) {
        Some(ConfigError::QueueSize(cq))
    } else if !is_pow_of_two(fq) {
        Some(ConfigError::QueueSize(fq))
    } else if frame_count > u32::MAX {
        Some(ConfigError::FrameCount)
    } else if frame_size < XDP_UMEM_MIN_CHUNK_SIZE {
        Some(ConfigError::FrameSize(frame_size))
    } else {
        None
    }
}

impl XskConfig {
    /// Every ring size is a power of two and the frame size is large enough.
    pub open spec fn valid(&self) -> bool {
        socket_fault(
            self.tx_q_size,
            self.rx_q_size,
            self.cq_size,
            self.fq_size,
            self.frame_count as int,
            self.frame_size,
        ) is None
    }
}

impl Opt {
    /// The fault of the sender's sizes, if any.
    pub open spec fn sender_fault(&self) -> Option<ConfigError> {
        socket_fault(
            self.tx_q_size_sender,
            self.rx_q_size_sender,
            self.cq_size_sender,
            self.fq_size_sender,
            self.fq_size_sender + self.cq_size_sender,
            self.frame_size_sender,
        )
    }

    /// The fault of the receiver's sizes, if any.
    pub open spec fn receiver_fault(&self) -> Option<ConfigError> {
        socket_fault(
            self.tx_q_size_receiver,
            self.rx_q_size_receiver,
            self.cq_size_receiver,
            self.fq_size_receiver,
            self.fq_size_receiver + self.cq_size_receiver,
            self.frame_size_receiver,
        )
    }

    /// The first fault of the options, the sender's before the receiver's.
    pub open spec fn fault(&self) -> Option<ConfigError> {
        if self.sender_fault() is Some {
            self.sender_fault()
        } else {
            self.receiver_fault()
        }
    }

    /// The options hold no fault.
    pub open spec fn valid(&self) -> bool {
        self.fault() is None
    }

    /// The configuration that valid options stand for. A socket gets as many
    /// frames as its own fill ring and its own completion ring hold together,
    /// so that neither socket's configuration depends on the other's options.
    pub open spec fn config(&self) -> Config {
        Config {
            multithreaded: self.multithreaded,
            poll_ms_timeout: self.poll_ms_timeout,
            payload_size: self.payload_size,
            max_batch_size: self.max_batch_size,
            num_packets_to_send: self.num_packets_to_send,
            sender: XskConfig {
                tx_q_size: self.tx_q_size_sender,
                rx_q_size: self.rx_q_size_sender,
                cq_size: self.cq_size_sender,
                fq_size: self.fq_size_sender,
                frame_size: self.frame_size_sender,
                frame_count: (self.fq_size_sender + self.cq_size_sender) as u32,
            },
            receiver: XskConfig {
                tx_q_size: self.tx_q_size_receiver,
                rx_q_size: self.rx_q_size_receiver,
                cq_size: self.cq_size_receiver,
                fq_size: self.fq_size_receiver,
                frame_size: self.frame_size_receiver,
                frame_count: (self.fq_size_receiver + self.cq_size_receiver) as u32,
            },
        }
    }
}

/// Each socket is configured from its own options alone: options that agree
/// on the sender's sizes give the same sender, whatever they say of the
/// receiver, and the same holds the other way round.
pub proof fn lemma_sockets_configured_independently(a: Opt, b: Opt)
    ensures
        a.tx_q_size_sender == b.tx_q_size_sender && a.rx_q_size_sender == b.rx_q_size_sender
            && a.cq_size_sender == b.cq_size_sender && a.fq_size_sender == b.fq_size_sender
            && a.frame_size_sender == b.frame_size_sender ==> a.config().sender
            == b.config().sender && a.sender_fault() == b.sender_fault(),
        a.tx_q_size_receiver == b.tx_q_size_receiver && a.rx_q_size_receiver
            == b.rx_q_size_receiver && a.cq_size_receiver == b.cq_size_receiver
            && a.fq_size_receiver == b.fq_size_receiver && a.frame_size_receiver
            == b.frame_size_receiver ==> a.config().receiver == b.config().receiver
            && a.receiver_fault() == b.receiver_fault(),
{
}

impl Default for Opt {
    /// The options of a run for which nothing was given.
    fn default() -> (opt: Opt)
        ensures
            opt == (Opt {
                multithreaded: false,
                fq_size_sender: 8192,
                cq_size_sender: 4096,
                tx_q_size_sender: 4096,
                rx_q_size_sender: 4096,
                frame_size_sender: 2048,
                fq_size_receiver: 8192,
                cq_size_receiver: 4096,
                tx_q_size_receiver: 4096,
                rx_q_size_receiver: 4096,
                frame_size_receiver: 2048,
                poll_ms_timeout: 100,
                payload_size: 32,
                max_batch_size: 64,
                num_packets_to_send: 5000000,
            }),
    {
        Opt {
            multithreaded: false,
            fq_size_sender: 8192,
            cq_size_sender: 4096,
            tx_q_size_sender: 4096,
            rx_q_size_sender: 4096,
            frame_size_sender: 2048,
            fq_size_receiver: 8192,
            cq_size_receiver: 4096,
            tx_q_size_receiver: 4096,
            rx_q_size_receiver: 4096,
            frame_size_receiver: 2048,
            poll_ms_timeout: 100,
            payload_size: 32,
            max_batch_size: 64,
            num_packets_to_send: 5000000,
        }
    }
}

/// Checks the sizes of one socket and returns its frame count.
fn check_socket(tx: u32, rx: u32, cq: u32, fq: u32, frame_size: u32) -> (r: Result<
    u32,
    ConfigError,
>)
    ensures
        r == match socket_fault(tx, rx, cq, fq, fq + cq, frame_size) {
            Some(e) => Err::<u32, ConfigError>(e),
            None => Ok::<u32, ConfigError>((fq + cq) as u32),
        },
{
    if !check_pow_of_two(tx) {
        return Err(ConfigError::QueueSize(tx));
    }
    if !check_pow_of_two(rx) {
        return Err(ConfigError::QueueSize(rx));
    }
    if !check_pow_of_two(cq) {
        return Err(ConfigError::QueueSize(cq));
    }
    if !check_pow_of_two(fq) {
        return Err(ConfigError::QueueSize(fq));
    }
    let frame_count: u32 = match fq.checked_add(cq) {
        Some(n) => n,
        None => {
            return Err(ConfigError::FrameCount);
        },
    };
    if frame_size < XDP_UMEM_MIN_CHUNK_SIZE {
        return Err(ConfigError::FrameSize(frame_size));
    }
    Ok(frame_count)
}

impl Config {
    /// The configuration for `opt`, or the first fault that `opt` holds.
    pub fn checked_from(opt: Opt) -> (r: Result<Config, ConfigError>)
        ensures
            r == match opt.fault() {
                Some(e) => Err::<Config, ConfigError>(e),
                None => Ok::<Config, ConfigError>(opt.config()),
            },
    {
        let sender_frames = match check_socket(
            opt.tx_q_size_sender,
            opt.rx_q_size_sender,
            opt.cq_size_sender,
            opt.fq_size_sender,
            opt.frame_size_sender,
        ) {
            Ok(n) => n,
            Err(e) => {
                return Err(e);
            },
        };
        let receiver_frames = match check_socket(
            opt.tx_q_size_receiver,
            opt.rx_q_size_receiver,
            opt.cq_size_receiver,
            opt.fq_size_receiver,
            opt.frame_size_receiver,
        ) {
            Ok(n) => n,
            Err(e) => {
                return Err(e);
            },
        };
        Ok(
            Config {
                multithreaded: opt.multithreaded,
                poll_ms_timeout: opt.poll_ms_timeout,
                payload_size: opt.payload_size,
                max_batch_size: opt.max_batch_size,
                num_packets_to_send: opt.num_packets_to_send,
                sender: XskConfig {
                    tx_q_size: opt.tx_q_size_sender,
                    rx_q_size: opt.rx_q_size_sender,
                    cq_size: opt.cq_size_sender,
                    fq_size: opt.fq_size_sender,
                    frame_size: opt.frame_size_sender,
                    frame_count: sender_frames,
                },
                receiver: XskConfig {
                    tx_q_size: opt.tx_q_size_receiver,
                    rx_q_size: opt.rx_q_size_receiver,
                    cq_size: opt.cq_size_receiver,
                    fq_size: opt.fq_size_receiver,
                    frame_size: opt.frame_size_receiver,
                    frame_count: receiver_frames,
                },
            },
        )
    }

    /// The configuration for options that hold no fault.
    pub fn from(opt: Opt) -> (config: Config)
        requires
            opt.valid(),
        ensures
            config == opt.config(),
            config.sender.valid(),
            config.receiver.valid(),
    {
        Config {
            multithreaded: opt.multithreaded,
            poll_ms_timeout: opt.poll_ms_timeout,
            payload_size: opt.payload_size,
            max_batch_size: opt.max_batch_size,
            num_packets_to_send: opt.num_packets_to_send,
            sender: XskConfig {
                tx_q_size: opt.tx_q_size_sender,
                rx_q_size: opt.rx_q_size_sender,
                cq_size: opt.cq_size_sender,
                fq_size: opt.fq_size_sender,
                frame_size: opt.frame_size_sender,
                frame_count: opt.fq_size_sender + opt.cq_size_sender,
            },
            receiver: XskConfig {
                tx_q_size: opt.tx_q_size_receiver,
                rx_q_size: opt.rx_q_size_receiver,
                cq_size: opt.cq_size_receiver,
                fq_size: opt.fq_size_receiver,
                frame_size: opt.frame_size_receiver,
                frame_count: opt.fq_size_receiver + opt.cq_size_receiver,
            },
        }
    }
}

} // verus!
