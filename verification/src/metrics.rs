//! Counters of a benchmark run and the figures derived from them.
//!
//! Times are whole nanoseconds, so that every figure kept here is an integer
//! and can be stated exactly. Rates are quotients of these figures and are
//! left to whoever prints them.

use vstd::prelude::*;

verus! {

/// Transport used by a benchmark run.
#[derive(Debug, Clone, Copy, PartialEq, Eq, Structural)]
pub enum SocketType {
    Afxdp,
    Udp,
}

/// The counters of one run, and what `calculate_metrics` derives from them.
#[derive(Debug, Clone, Copy, PartialEq, Eq, Structural)]
pub struct BenchmarkMetrics {
    pub socket_type: SocketType,
    /// Packets accepted for transmission.
    pub total_packets_sent: usize,
    /// Packets handed to the receiver.
    pub total_packets_received: usize,
    /// Bytes per packet.
    pub packet_size: usize,
    /// Wall-clock length of the run, in nanoseconds.
    pub elapsed_time: u128,
    /// Bytes sent in all: packets sent times bytes per packet.
    pub bytes_sent: u128,
    /// Nanoseconds of the run per packet received.
    pub average_latency: u128,
}

/// The number that an average latency is taken over: the low 32 bits of the
/// count of packets received.
pub open spec fn latency_divisor(received: usize) -> int {
    (received as int) % 0x1_0000_0000
}

/// `counter` after `n` more events; the counter wraps around.
pub open spec fn counted(counter: usize, n: usize) -> usize {
    if counter + n > usize::MAX {
        (counter + n - usize::MAX - 1) as usize
    } else {
        (counter + n) as usize
    }
}

/// `counter` after one more event.
pub open spec fn incremented(counter: usize) -> usize {
    counted(counter, 1)
}

impl BenchmarkMetrics {
    /// Whether an average latency can be taken: either nothing was received,
    /// or the divisor is not zero.
    pub open spec fn can_average(&self) -> bool {
        self.total_packets_received == 0 || latency_divisor(self.total_packets_received) != 0
    }

    /// The figures that `calculate_metrics` leaves: the bytes sent, and a
    /// latency where something was received; each other field as it was.
    pub open spec fn calculated(&self) -> BenchmarkMetrics {
        BenchmarkMetrics {
            bytes_sent: (self.total_packets_sent * self.packet_size) as u128,
            average_latency: if self.total_packets_received > 0 {
                (self.elapsed_time / latency_divisor(self.total_packets_received) as u128) as u128
            } else {
                self.average_latency
            },
            ..*self
        }
    }

    /// Fresh metrics: nothing counted, nothing measured.
    pub fn new(socket_type: SocketType, packet_size: usize) -> (m: BenchmarkMetrics)
        ensures
            m == (BenchmarkMetrics {
                socket_type,
                total_packets_sent: 0,
                total_packets_received: 0,
                packet_size,
                elapsed_time: 0,
                bytes_sent: 0,
                average_latency: 0,
            }),
    {
        BenchmarkMetrics {
            socket_type,
            total_packets_sent: 0,
            total_packets_received: 0,
            packet_size,
            elapsed_time: 0,
            bytes_sent: 0,
            average_latency: 0,
        }
    }

    /// Counts one packet sent.
    pub fn increment_sent(&mut self)
        ensures
            *final(self) == (BenchmarkMetrics {
                total_packets_sent: incremented(old(self).total_packets_sent),
                ..*old(self)
            }),
    {
        self.total_packets_sent = self.total_packets_sent.wrapping_add(1);
    }

    /// Counts one packet received.
    pub fn increment_received(&mut self)
        ensures
            *final(self) == (BenchmarkMetrics {
                total_packets_received: incremented(old(self).total_packets_received),
                ..*old(self)
            }),
    {
        self.total_packets_received = self.total_packets_received.wrapping_add(1);
    }

    /// Whether `calculate_metrics` may be called on these counters.
    pub fn averageable(&self) -> (b: bool)
        ensures
            b == self.can_average(),
    {
        self.total_packets_received == 0 || self.total_packets_received as u64 % 0x1_0000_0000u64
            != 0
    }

    /// Derives the bytes sent and the average latency from the counters and
    /// the elapsed time, both anew.
    pub fn calculate_metrics(&mut self)
        requires
            old(self).can_average(),
        ensures
            *final(self) == old(self).calculated(),
    {
        let sent: u128 = self.total_packets_sent as u128;
        let size: u128 = self.packet_size as u128;
        assert(sent * size <= u128::MAX) by (nonlinear_arith)
            requires
                sent <= u64::MAX,
                size <= u64::MAX,
        ;
        self.bytes_sent = sent * size;
        if self.total_packets_received > 0 {
            let divisor: u64 = self.total_packets_received as u64 % 0x1_0000_0000u64;
            self.average_latency = self.elapsed_time / (divisor as u128);
        }
    }
}

} // verus!
