//! Frame descriptors and the frame pool they point into.
//!
//! A pool is one region of zeroed bytes cut into frames of equal size. A
//! descriptor names a frame by the offset of its first byte, so two
//! descriptors of different frames never cover a common byte.

use vstd::prelude::*;

verus! {

/// Names a frame of a pool: where it starts, how many of its bytes are valid,
/// and the option bits that travel with it through the rings.
#[derive(Debug, Clone, Copy, PartialEq, Eq, Structural)]
pub struct FrameDesc {
    pub addr: usize,
    pub len: usize,
    pub options: u32,
}

impl FrameDesc {
    /// A descriptor of the frame that starts at `addr`, with no valid bytes yet.
    pub fn new(addr: usize) -> (d: FrameDesc)
        ensures
            d == (FrameDesc { addr, len: 0, options: 0 }),
    {
        FrameDesc { addr, len: 0, options: 0 }
    }
}

impl Default for FrameDesc {
    fn default() -> (d: FrameDesc)
        ensures
            d == (FrameDesc { addr: 0, len: 0, options: 0 }),
    {
        FrameDesc { addr: 0, len: 0, options: 0 }
    }
}

/// Why a pool or a ring could not be created.
#[derive(Debug, Clone, Copy, PartialEq, Eq, Structural)]
pub enum ResourceError {
    /// The requested size is zero, or no region of that size can exist.
    UnsupportedSize,
    /// The platform did not hand out the memory.
    OutOfMemory,
}

/// The largest region, in bytes, that a pool may cover.
pub open spec fn max_pool_bytes() -> int {
    isize::MAX as int
}

/// Whether a pool of `frame_count` frames of `frame_size` bytes can exist.
pub open spec fn pool_size_ok(frame_size: u32, frame_count: u32) -> bool {
    0 < frame_size * frame_count <= max_pool_bytes()
}

/// Offset of the first byte of frame `index` in a pool of `frame_size`-byte frames.
pub open spec fn frame_addr(index: int, frame_size: int) -> int {
    index * frame_size
}

/// The descriptors that a fresh pool hands out: one per frame, in frame order.
pub open spec fn pool_descriptors(frame_size: int, frame_count: int) -> Seq<FrameDesc> {
    Seq::new(
        frame_count as nat,
        |i: int| FrameDesc { addr: frame_addr(i, frame_size) as usize, len: 0, options: 0 },
    )
}

/// Whether the byte ranges `[a, a + size)` and `[b, b + size)` share no byte.
pub open spec fn ranges_disjoint(a: int, b: int, size: int) -> bool {
    a + size <= b || b + size <= a
}

/// `n` zero bytes.
pub open spec fn zeros(n: int) -> Seq<u8> {
    Seq::new(n as nat, |i: int| 0u8)
}

/// Frames of a pool lie side by side: two different frames share no byte, and
/// every frame ends inside the pool.
pub proof fn lemma_frames_never_overlap(frame_size: int, frame_count: int, i: int, j: int)
    requires
        0 <= frame_size,
        0 <= i < frame_count,
        0 <= j < frame_count,
        i != j,
    ensures
        ranges_disjoint(frame_addr(i, frame_size), frame_addr(j, frame_size), frame_size),
        0 <= frame_addr(i, frame_size),
        frame_addr(i, frame_size) + frame_size <= frame_size * frame_count,
{
    assert(ranges_disjoint(i * frame_size, j * frame_size, frame_size)) by (nonlinear_arith)
        requires
            0 <= frame_size,
            0 <= i,
            0 <= j,
            i != j,
    ;
    assert(0 <= i * frame_size && i * frame_size + frame_size <= frame_size * frame_count)
        by (nonlinear_arith)
        requires
            0 <= frame_size,
            0 <= i < frame_count,
    ;
}


/// Whether a descriptor with address `addr` and `len` valid bytes names one
/// of `frame_count` frames of `frame_size` bytes and stays inside it.
pub open spec fn names_frame(addr: int, len: int, frame_size: int, frame_count: int) -> bool {
    &&& addr % frame_size == 0
    &&& addr / frame_size < frame_count
    &&& len <= frame_size
}

/// Decides whether `desc` names one of `frame_count` frames of `frame_size`
/// bytes. No descriptor names a frame of no bytes.
pub fn check_names_frame(desc: &FrameDesc, frame_size: usize, frame_count: usize) -> (b: bool)
    ensures
        b == (frame_size > 0 && names_frame(
            desc.addr as int,
            desc.len as int,
            frame_size as int,
            frame_count as int,
        )),
{
    frame_size > 0 && desc.addr % frame_size == 0 && desc.addr / frame_size < frame_count
        && desc.len <= frame_size
}

/// A region of bytes cut into `frame_count` frames of `frame_size` bytes each.
pub struct FramePool {
    frame_size: usize,
    frame_count: usize,
    mem: Vec<u8>,
}

impl View for FramePool {
    type V = Seq<u8>;

    /// The bytes of the whole region, frame after frame.
    closed spec fn view(&self) -> Seq<u8> {
        self.mem@
    }
}

impl FramePool {
    /// Bytes per frame.
    pub closed spec fn frame_bytes(&self) -> int {
        self.frame_size as int
    }

    /// Number of frames.
    pub closed spec fn frames(&self) -> int {
        self.frame_count as int
    }

    /// The region has the size that its geometry asks for.
    pub open spec fn wf(&self) -> bool {
        &&& 0 < self.frame_bytes() <= u32::MAX
        &&& 0 < self.frames() <= u32::MAX
        &&& self.frame_bytes() * self.frames() <= max_pool_bytes()
        &&& self@.len() == self.frame_bytes() * self.frames()
    }

    /// Whether `desc` names a frame of this pool and claims no more bytes than
    /// the frame has.
    pub open spec fn owns(&self, desc: FrameDesc) -> bool {
        names_frame(desc.addr as int, desc.len as int, self.frame_bytes(), self.frames())
    }

    /// The bytes of the frame that starts at `addr`.
    pub open spec fn frame_at(&self, addr: int) -> Seq<u8> {
        self@.subrange(addr, addr + self.frame_bytes())
    }

    /// A frame that the pool owns lies inside the region.
    pub proof fn lemma_owned_in_bounds(&self, desc: FrameDesc)
        requires
            self.wf(),
            self.owns(desc),
        ensures
            desc.addr + self.frame_bytes() <= self@.len(),
            desc.addr + desc.len <= self@.len(),
    {
        let fs = self.frame_bytes();
        let fc = self.frames();
        let a = desc.addr as int;
        assert(a + fs <= fs * fc) by (nonlinear_arith)
            requires
                0 < fs,
                0 <= a,
                a % fs == 0,
                a / fs < fc,
        {
            assert(a == fs * (a / fs) + a % fs);
            assert(fs * (a / fs) + fs == fs * (a / fs + 1));
            assert(fs * (a / fs + 1) <= fs * fc);
        }
    }

    /// Whether a region for this geometry can exist at all.
    pub fn size_supported(frame_size: u32, frame_count: u32) -> (ok: bool)
        ensures
            ok == pool_size_ok(frame_size, frame_count),
    {
        assert(frame_size * frame_count <= u64::MAX) by (nonlinear_arith)
            requires
                frame_size <= u32::MAX,
                frame_count <= u32::MAX,
        ;
        let total: u64 = (frame_size as u64) * (frame_count as u64);
        total > 0 && total <= isize::MAX as u64
    }

    /// Builds the pool out of a reservation. `reserved` says whether the
    /// platform handed out the memory; `mem` is the empty buffer that holds it.
    pub fn from_reservation(
        frame_size: u32,
        frame_count: u32,
        mem: Vec<u8>,
        reserved: bool,
    ) -> (r: Result<FramePool, ResourceError>)
        requires
            mem@.len() == 0,
        ensures
            !pool_size_ok(frame_size, frame_count) ==> r == Err::<FramePool, ResourceError>(
                ResourceError::UnsupportedSize,
            ),
            pool_size_ok(frame_size, frame_count) && !reserved ==> r == Err::<
                FramePool,
                ResourceError,
            >(ResourceError::OutOfMemory),
            pool_size_ok(frame_size, frame_count) && reserved ==> r is Ok,
            r matches Ok(pool) ==> {
                &&& pool.wf()
                &&& pool.frame_bytes() == frame_size
                &&& pool.frames() == frame_count
                &&& pool@ == zeros(frame_size * frame_count)
            },
    {
        if !Self::size_supported(frame_size, frame_count) {
            return Err(ResourceError::UnsupportedSize);
        }
        if !reserved {
            return Err(ResourceError::OutOfMemory);
        }
        let total: usize = (frame_size as usize) * (frame_count as usize);
        let mut mem = mem;
        mem.resize(total, 0u8);
        let pool = FramePool {
            frame_size: frame_size as usize,
            frame_count: frame_count as usize,
            mem,
        };
        proof {
            assert(pool.frame_bytes() * pool.frames() == frame_size * frame_count);
            assert(0 < frame_size && 0 < frame_count) by (nonlinear_arith)
                requires
                    0 < frame_size * frame_count,
            ;
            assert(pool@.len() == total);
            assert(pool@ =~= zeros(frame_size * frame_count));
            assert(pool.wf());
        }
        Ok(pool)
    }

    /// Reserves a zeroed region of `frame_count` frames of `frame_size` bytes.
    ///
    /// Fails with `UnsupportedSize` exactly when the geometry is empty or too
    /// large to exist, and with `OutOfMemory` when the platform refuses the
    /// reservation, which no argument decides.
    pub fn allocate(frame_size: u32, frame_count: u32) -> (r: Result<FramePool, ResourceError>)
        ensures
            (r == Err::<FramePool, ResourceError>(ResourceError::UnsupportedSize)) == !pool_size_ok(
                frame_size,
                frame_count,
            ),
            r matches Ok(pool) ==> {
                &&& pool.wf()
                &&& pool.frame_bytes() == frame_size
                &&& pool.frames() == frame_count
                &&& pool@ == zeros(frame_size * frame_count)
            },
    {
        if !Self::size_supported(frame_size, frame_count) {
            return Err(ResourceError::UnsupportedSize);
        }
        let total: usize = (frame_size as usize) * (frame_count as usize);
        let mut mem: Vec<u8> = Vec::new();
        let reserved = mem.try_reserve(total).is_ok();
        Self::from_reservation(frame_size, frame_count, mem, reserved)
    }

    /// Bytes per frame.
    pub fn frame_size(&self) -> (n: usize)
        ensures
            n == self.frame_bytes(),
    {
        self.frame_size
    }

    /// Number of frames.
    pub fn frame_count(&self) -> (n: usize)
        ensures
            n == self.frames(),
    {
        self.frame_count
    }

    /// Size of the whole region in bytes.
    pub fn len(&self) -> (n: usize)
        ensures
            n == self@.len(),
    {
        self.mem.len()
    }

    /// One descriptor per frame, in frame order. No two of them share a byte
    /// (see `lemma_frames_never_overlap`).
    pub fn descriptors(&self) -> (descs: Vec<FrameDesc>)
        requires
            self.wf(),
        ensures
            descs@ == pool_descriptors(self.frame_bytes(), self.frames()),
            forall|i: int| 0 <= i < descs@.len() ==> self.owns(#[trigger] descs@[i]),
            forall|i: int, j: int|
                0 <= i < descs@.len() && 0 <= j < descs@.len() && i != j ==> ranges_disjoint(
                    (#[trigger] descs@[i]).addr as int,
                    (#[trigger] descs@[j]).addr as int,
                    self.frame_bytes(),
                ),
    {
        let mut descs: Vec<FrameDesc> = Vec::new();
        let mut i: usize = 0;
        while i < self.frame_count
            invariant
                self.wf(),
                i <= self.frame_count,
                descs@.len() == i,
                forall|k: int|
                    0 <= k < i ==> descs@[k] == (FrameDesc {
                        addr: frame_addr(k, self.frame_bytes()) as usize,
                        len: 0,
                        options: 0,
                    }),
            decreases self.frame_count - i,
        {
            proof {
                lemma_frame_addr_fits(i as int, self.frame_bytes(), self.frames());
            }
            let addr: usize = i * self.frame_size;
            descs.push(FrameDesc::new(addr));
            i = i + 1;
        }
        proof {
            let want = pool_descriptors(self.frame_bytes(), self.frames());
            assert(descs@ =~= want);
            assert forall|k: int| 0 <= k < descs@.len() implies self.owns(#[trigger] descs@[k]) by {
                lemma_frame_addr_fits(k, self.frame_bytes(), self.frames());
                lemma_frame_addr_aligned(k, self.frame_bytes());
            }
            assert forall|a: int, b: int|
                0 <= a < descs@.len() && 0 <= b < descs@.len() && a != b implies ranges_disjoint(
                (#[trigger] descs@[a]).addr as int,
                (#[trigger] descs@[b]).addr as int,
                self.frame_bytes(),
            ) by {
                lemma_frame_addr_fits(a, self.frame_bytes(), self.frames());
                lemma_frame_addr_fits(b, self.frame_bytes(), self.frames());
                lemma_frames_never_overlap(self.frame_bytes(), self.frames(), a, b);
            }
        }
        descs
    }

    /// Whether `desc` names a frame of this pool.
    pub fn contains(&self, desc: &FrameDesc) -> (b: bool)
        requires
            self.wf(),
        ensures
            b == self.owns(*desc),
    {
        check_names_frame(desc, self.frame_size, self.frame_count)
    }

    /// Exclusive access to the bytes of the frame that `desc` names.
    ///
    /// What the caller leaves in the slice is what the pool holds afterwards;
    /// every byte outside the frame keeps its value.
    pub fn frame_view(&mut self, desc: &FrameDesc) -> (frame: &mut [u8])
        requires
            old(self).wf(),
            old(self).owns(*desc),
        ensures
            frame@ == old(self).frame_at(desc.addr as int),
            final(self).frame_bytes() == old(self).frame_bytes(),
            final(self).frames() == old(self).frames(),
            final(self)@ == old(self)@.subrange(0, desc.addr as int) + final(frame)@ + old(
                self,
            )@.subrange(desc.addr + old(self).frame_bytes(), old(self)@.len() as int),
    {
        proof {
            self.lemma_owned_in_bounds(*desc);
        }
        let frame_size: usize = self.frame_size;
        let whole: &mut [u8] = self.mem.as_mut_slice();
        let (_head, rest) = whole.split_at_mut(desc.addr);
        let (frame, _tail) = rest.split_at_mut(frame_size);
        frame
    }

    /// The valid bytes of the frame that `desc` names.
    pub fn data(&self, desc: &FrameDesc) -> (bytes: &[u8])
        requires
            self.wf(),
            self.owns(*desc),
        ensures
            bytes@ == self@.subrange(desc.addr as int, desc.addr + desc.len),
    {
        proof {
            self.lemma_owned_in_bounds(*desc);
        }
        vstd::slice::slice_subrange(self.mem.as_slice(), desc.addr, desc.addr + desc.len)
    }
}

/// Frame `index` of a pool that fits in memory starts at an offset that fits too.
proof fn lemma_frame_addr_fits(index: int, frame_size: int, frame_count: int)
    requires
        0 < frame_size,
        0 <= index < frame_count,
        frame_size * frame_count <= max_pool_bytes(),
    ensures
        0 <= frame_addr(index, frame_size) <= usize::MAX,
        frame_addr(index, frame_size) + frame_size <= frame_size * frame_count,
{
    assert(0 <= index * frame_size && index * frame_size + frame_size <= frame_size * frame_count)
        by (nonlinear_arith)
        requires
            0 < frame_size,
            0 <= index < frame_count,
    ;
}

/// The start of a frame is a whole number of frames into the pool.
proof fn lemma_frame_addr_aligned(index: int, frame_size: int)
    requires
        0 < frame_size,
        0 <= index,
    ensures
        frame_addr(index, frame_size) % frame_size == 0,
        frame_addr(index, frame_size) / frame_size == index,
{
    vstd::arithmetic::div_mod::lemma_fundamental_div_mod_converse(
        index * frame_size,
        frame_size,
        index,
        0,
    );
}

} // verus!
