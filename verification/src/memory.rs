//! Physical-frame allocation and address alignment.
use vstd::prelude::*;

verus! {

/// Bytes in one normal page.
pub const PAGE_BYTES: usize = 4096;

/// Hands out page-sized physical frames from a contiguous region of memory,
/// one after the other, until the region is exhausted. Frames are never
/// returned.
pub struct FrameAllocator {
    /// Address of the next frame to hand out.
    pub current: usize,
    /// First address past the region.
    pub end: usize,
}

impl FrameAllocator {
    /// An allocator over the region of `size` bytes starting at `base`.
    pub fn new(base: usize, size: usize) -> (a: Self)
        requires
            base + size <= usize::MAX,
        ensures
            a.current == base,
            a.end == base + size,
    {
        FrameAllocator { current: base, end: base + size }
    }

    /// The address of the next free frame, or `None` once fewer than zero
    /// bytes remain. The following frame starts one page later, clipped to
    /// the region's end.
    pub fn next(&mut self) -> (frame: Option<usize>)
        ensures
            old(self).current >= old(self).end ==> frame is None && *final(self) == *old(self),
            old(self).current < old(self).end ==> frame == Some(old(self).current) && final(self).end
                == old(self).end && final(self).current == (if old(self).end - old(self).current
                > PAGE_BYTES {
                old(self).current + PAGE_BYTES
            } else {
                old(self).end as int
            }),
    {
        if self.current < self.end {
            let frame = self.current;
            if self.end - self.current > PAGE_BYTES {
                self.current = self.current + PAGE_BYTES;
            } else {
                self.current = self.end;
            }
            Some(frame)
        } else {
            None
        }
    }
}

/// Whether `n` is a power of two.
pub open spec fn is_power_of_two(n: int) -> bool
    decreases n,
{
    if n <= 0 {
        false
    } else if n == 1 {
        true
    } else {
        n % 2 == 0 && is_power_of_two(n / 2)
    }
}

/// Align the given address `addr` upwards to alignment `align`: the least
/// multiple of `align` that is not below `addr`.
///
/// Requires that `align` is a power of two.
pub fn align_up(addr: usize, align: usize) -> (r: usize)
    requires
        is_power_of_two(align as int),
        addr + align <= usize::MAX,
    ensures
        r % align == 0,
        addr <= r < addr + align,
{
    proof {
        if align == 0 {
            assert(!is_power_of_two(0int));
        }
    }
    let rem = addr % align;
    if rem == 0 {
        addr
    } else {
        proof {
            vstd::arithmetic::div_mod::lemma_fundamental_div_mod(addr as int, align as int);
            let q = addr as int / align as int;
            assert(addr - rem == align * q);
            assert(align * q + align == align * (q + 1)) by (nonlinear_arith);
            vstd::arithmetic::div_mod::lemma_mod_multiples_basic(q + 1, align as int);
            assert(((q + 1) * align) % (align as int) == 0);
            assert((addr - rem) + align == (q + 1) * align);
        }
        (addr - rem) + align
    }
}

} // verus!
