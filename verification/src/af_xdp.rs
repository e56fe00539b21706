//! The zero-copy socket.
//!
//! A socket ties four rings to one frame pool and is bound to one queue of
//! an interface. Frames that no ring holds are listed in `descs`: those are
//! the frames that user code may write.

use crate::config::{XskConfig, XDP_UMEM_MIN_CHUNK_SIZE};
use crate::frame::{pool_descriptors, FrameDesc, FramePool};
use crate::ownership::{addrs, lemma_addrs_empty};
use crate::ring::{check_pow_of_two, is_pow_of_two, min, Ring};
use vstd::prelude::*;

verus! {

/// One of the four rings of a socket.
#[derive(Debug, Clone, Copy, PartialEq, Eq, Structural)]
pub enum RingKind {
    Fill,
    Completion,
    Tx,
    Rx,
}

/// What was being done to a ring.
#[derive(Debug, Clone, Copy, PartialEq, Eq, Structural)]
pub enum RingOp {
    Produce,
    Consume,
}

/// A ring handed over a descriptor that names no frame of the pool. The
/// socket cannot go on after that.
#[derive(Debug, Clone, Copy, PartialEq, Eq, Structural)]
pub struct RingFault {
    pub ring: RingKind,
    pub op: RingOp,
}

/// Why a socket could not be bound.
#[derive(Debug, Clone, Copy, PartialEq, Eq, Structural)]
pub enum BindError {
    /// The interface has no queue with that id.
    InvalidQueue,
    /// Another socket is bound to the queue.
    QueueBusy,
    /// A ring size that is no power of two.
    RingSize(u32),
    /// A frame size that is too small, no power of two, or not the pool's.
    FrameSize(u32),
}

/// The queues of one network interface, and which of them a socket is bound to.
pub struct Interface {
    bound: Vec<bool>,
    next_fd: i32,
}

impl View for Interface {
    type V = Seq<bool>;

    /// For each queue, whether a socket is bound to it.
    closed spec fn view(&self) -> Seq<bool> {
        self.bound@
    }
}

/// The descriptor that the first socket of an interface gets.
pub const FIRST_FD: i32 = 3;

impl Interface {
    /// The descriptor that the next socket gets.
    pub closed spec fn upcoming_fd(&self) -> i32 {
        self.next_fd
    }

    /// An interface of `queue_count` queues, none of them bound.
    pub fn new(queue_count: u32) -> (iface: Interface)
        ensures
            iface@ == Seq::new(queue_count as nat, |i: int| false),
            iface.upcoming_fd() == FIRST_FD,
    {
        let bound: Vec<bool> = vec![false; queue_count as usize];
        let iface = Interface { bound, next_fd: FIRST_FD };
        assert(iface@ =~= Seq::new(queue_count as nat, |i: int| false));
        iface
    }

    /// Number of queues.
    pub fn queue_count(&self) -> (n: usize)
        ensures
            n == self@.len(),
    {
        self.bound.len()
    }

    /// Whether a socket is bound to `queue_id`.
    pub fn is_bound(&self, queue_id: u32) -> (b: bool)
        ensures
            b == (queue_id < self@.len() && self@[queue_id as int]),
    {
        (queue_id as usize) < self.bound.len() && self.bound[queue_id as usize]
    }
}

/// Whether a frame size can be used with a pool of `pool_frame_size`-byte frames.
pub open spec fn frame_size_ok(frame_size: u32, pool_frame_size: int) -> bool {
    &&& frame_size >= XDP_UMEM_MIN_CHUNK_SIZE
    &&& is_pow_of_two(frame_size)
    &&& frame_size == pool_frame_size
}

/// The first reason not to bind, if there is one: the queue, then the ring
/// sizes in the order fill, completion, tx, rx, then the frame size.
pub open spec fn bind_fault(
    queues: Seq<bool>,
    queue_id: u32,
    config: XskConfig,
    pool_frame_size: int,
) -> Option<BindError> {
    if queue_id >= queues.len() {
        Some(BindError::InvalidQueue)
    } else if queues[queue_id as int] {
        Some(BindError::QueueBusy)
    } else if !is_pow_of_two(config.fq_size) {
        Some(BindError::RingSize(config.fq_size))
    } else if !is_pow_of_two(config.cq_size) {
        Some(BindError::RingSize(config.cq_size))
    } else if !is_pow_of_two(config.tx_q_size) {
        Some(BindError::RingSize(config.tx_q_size))
    } else if !is_pow_of_two(config.rx_q_size) {
        Some(BindError::RingSize(config.rx_q_size))
    } else if !frame_size_ok(config.frame_size, pool_frame_size) {
        Some(BindError::FrameSize(config.frame_size))
    } else {
        None
    }
}

/// A zero-copy socket: a frame pool, its four rings, and the descriptors of
/// the frames that no ring holds.
pub struct Xsk {
    pub umem: FramePool,
    pub fq: Ring,
    pub cq: Ring,
    pub tx_q: Ring,
    pub rx_q: Ring,
    pub descs: Vec<FrameDesc>,
    /// The queue that the socket is bound to.
    pub queue_id: u32,
    /// The socket's descriptor.
    pub fd: i32,
}

impl Xsk {
    /// The pool and the rings are well formed, and every free descriptor
    /// names a frame of the pool.
    pub open spec fn wf(&self) -> bool {
        &&& self.umem.wf()
        &&& self.fq.wf()
        &&& self.cq.wf()
        &&& self.tx_q.wf()
        &&& self.rx_q.wf()
        &&& forall|i: int| 0 <= i < self.descs@.len() ==> self.umem.owns(#[trigger] self.descs@[i])
    }

    /// Binds a socket with the rings that `config` asks for to queue
    /// `queue_id` of `iface`, over the pool `umem`. A bound socket starts
    /// with four newly made rings and every frame of the pool free.
    pub fn bind(umem: FramePool, iface: &mut Interface, queue_id: u32, config: &XskConfig) -> (r:
        Result<Xsk, BindError>)
        requires
            umem.wf(),
        ensures
            match bind_fault(old(iface)@, queue_id, *config, umem.frame_bytes()) {
                Some(e) => {
                    &&& r == Err::<Xsk, BindError>(e)
                    &&& final(iface)@ == old(iface)@
                    &&& final(iface).upcoming_fd() == old(iface).upcoming_fd()
                },
                None => {
                    &&& r matches Ok(xsk)
                    &&& xsk.wf()
                    &&& xsk.umem == umem
                    &&& xsk.fq.fresh(config.fq_size)
                    &&& xsk.cq.fresh(config.cq_size)
                    &&& xsk.tx_q.fresh(config.tx_q_size)
                    &&& xsk.rx_q.fresh(config.rx_q_size)
                    &&& xsk.descs@ == pool_descriptors(umem.frame_bytes(), umem.frames())
                    &&& xsk.partitioned()
                    &&& xsk.queue_id == queue_id
                    &&& xsk.fd == old(iface).upcoming_fd()
                    &&& final(iface)@ == old(iface)@.update(queue_id as int, true)
                    &&& final(iface).upcoming_fd() == if old(iface).upcoming_fd() < i32::MAX {
                        (old(iface).upcoming_fd() + 1) as i32
                    } else {
                        i32::MAX
                    }
                },
            },
    {
        if queue_id as usize >= iface.bound.len() {
            return Err(BindError::InvalidQueue);
        }
        if iface.bound[queue_id as usize] {
            return Err(BindError::QueueBusy);
        }
        let fq = match Ring::new(config.fq_size) {
            Ok(ring) => ring,
            Err(_) => {
                return Err(BindError::RingSize(config.fq_size));
            },
        };
        let cq = match Ring::new(config.cq_size) {
            Ok(ring) => ring,
            Err(_) => {
                return Err(BindError::RingSize(config.cq_size));
            },
        };
        let tx_q = match Ring::new(config.tx_q_size) {
            Ok(ring) => ring,
            Err(_) => {
                return Err(BindError::RingSize(config.tx_q_size));
            },
        };
        let rx_q = match Ring::new(config.rx_q_size) {
            Ok(ring) => ring,
            Err(_) => {
                return Err(BindError::RingSize(config.rx_q_size));
            },
        };
        if config.frame_size < XDP_UMEM_MIN_CHUNK_SIZE || !check_pow_of_two(config.frame_size)
            || config.frame_size as usize != umem.frame_size() {
            return Err(BindError::FrameSize(config.frame_size));
        }
        let descs = umem.descriptors();
        let fd = iface.next_fd;
        iface.bound[queue_id as usize] = true;
        if iface.next_fd < i32::MAX {
            iface.next_fd = iface.next_fd + 1;
        }
        let xsk = Xsk { umem, fq, cq, tx_q, rx_q, descs, queue_id, fd };
        proof {
            lemma_addrs_empty(xsk.fq@);
            lemma_addrs_empty(xsk.cq@);
            lemma_addrs_empty(xsk.tx_q@);
            lemma_addrs_empty(xsk.rx_q@);
            assert(xsk.held() =~= addrs(xsk.descs@));
        }
        Ok(xsk)
    }

    /// The socket's descriptor, under which it is registered for redirects.
    pub fn fd(&self) -> (fd: i32)
        ensures
            fd == self.fd,
    {
        self.fd
    }

    /// The queue that the socket is bound to.
    pub fn queue_id(&self) -> (q: u32)
        ensures
            q == self.queue_id,
    {
        self.queue_id
    }
}

/// The byte that the synthetic payload holds at position `i`.
pub open spec fn payload_byte(i: int) -> u8 {
    (i % 256) as u8
}

/// Writes the synthetic payload of `payload_size` bytes to the front of
/// `data` and returns how many bytes it wrote: all of them, unless `data` is
/// shorter than the payload. Bytes behind the payload keep their value.
pub fn generate_test_packet(data: &mut [u8], payload_size: usize) -> (written: usize)
    ensures
        written == min(payload_size as int, old(data)@.len() as int),
        final(data)@.len() == old(data)@.len(),
        forall|i: int| 0 <= i < written ==> final(data)@[i] == payload_byte(i),
        forall|i: int| written <= i < old(data)@.len() ==> final(data)@[i] == old(data)@[i],
{
    let n: usize = if payload_size < data.len() {
        payload_size
    } else {
        data.len()
    };
    let mut i: usize = 0;
    while i < n
        invariant
            i <= n <= data@.len(),
            data@.len() == old(data)@.len(),
            forall|j: int| 0 <= j < i ==> data@[j] == payload_byte(j),
            forall|j: int| i <= j < data@.len() ==> data@[j] == old(data)@[j],
        decreases n - i,
    {
        data[i] = (i % 256) as u8;
        i = i + 1;
    }
    n
}

} // verus!
