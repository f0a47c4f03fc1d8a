//! The size and alignment of a requested block of memory.

use vstd::prelude::*;
use super::align::align_up_spec;
use super::align::checked_align_up;
use super::align::is_pow2;
use super::align::is_power_of_two;
use super::align::lemma_align_up_is_least_multiple;

verus! {

/// A size and an alignment that make no layout.
#[derive(Clone, Copy, Debug, PartialEq, Eq, Structural)]
pub struct LayoutError;

/// A block's size in bytes and the power of two its address is a multiple of.
#[derive(Clone, Copy, Debug, PartialEq, Eq, Structural)]
pub struct Layout {
    size: usize,
    align: usize,
}

impl Layout {
    /// Whether `size` and `align` make a layout: `align` is a power of two,
    /// and `size` rounded up to a multiple of `align` is at most `isize::MAX`.
    pub open spec fn valid(size: int, align: int) -> bool {
        &&& 0 <= size
        &&& is_power_of_two(align)
        &&& align_up_spec(size, align) <= isize::MAX
    }

    pub closed spec fn spec_size(&self) -> usize {
        self.size
    }

    pub closed spec fn spec_align(&self) -> usize {
        self.align
    }

    /// Every layout that `from_size_align` hands out is well formed.
    pub open spec fn wf(self) -> bool {
        Self::valid(self.size() as int, self.align() as int)
    }

    /// The layout of `size` bytes aligned to `align`, where the two make one.
    pub fn from_size_align(size: usize, align: usize) -> (r: Result<Layout, LayoutError>)
        ensures
            r is Ok <==> Self::valid(size as int, align as int),
            r matches Ok(layout) ==> layout.wf() && layout.size() == size && layout.align()
                == align,
    {
        if !is_pow2(align) {
            return Err(LayoutError);
        }
        match checked_align_up(size, align) {
            Some(padded) => {
                if padded > isize::MAX as usize {
                    Err(LayoutError)
                } else {
                    Ok(Layout { size, align })
                }
            },
            None => Err(LayoutError),
        }
    }

    /// The size in bytes.
    #[verifier::when_used_as_spec(spec_size)]
    pub fn size(&self) -> (s: usize)
        ensures
            s == self.size(),
    {
        self.size
    }

    /// The alignment in bytes.
    #[verifier::when_used_as_spec(spec_align)]
    pub fn align(&self) -> (a: usize)
        ensures
            a == self.align(),
    {
        self.align
    }

    /// The layout of the same size whose alignment is the larger of this
    /// layout's and `align`; an error where `align` is no power of two or the
    /// size does not allow the larger alignment.
    pub fn align_to(&self, align: usize) -> (r: Result<Layout, LayoutError>)
        requires
            self.wf(),
        ensures
            r is Ok <==> is_power_of_two(align as int) && Self::valid(
                self.size() as int,
                spec_max(self.align() as int, align as int),
            ),
            r matches Ok(layout) ==> layout.wf() && layout.size() == self.size() && layout.align()
                == spec_max(self.align() as int, align as int),
    {
        if !is_pow2(align) {
            return Err(LayoutError);
        }
        if align <= self.align {
            Ok(*self)
        } else {
            Self::from_size_align(self.size, align)
        }
    }

    /// The layout whose size is this layout's, rounded up to a multiple of
    /// its alignment.
    pub fn pad_to_align(&self) -> (padded: Layout)
        requires
            self.wf(),
        ensures
            padded.wf(),
            padded.align() == self.align(),
            padded.size() == align_up_spec(self.size() as int, self.align() as int),
    {
        proof {
            lemma_power_of_two_is_positive(self.align as int);
            lemma_align_up_is_least_multiple(self.size as int, self.align as int);
        }
        match checked_align_up(self.size, self.align) {
            Some(size) => Layout { size, align: self.align },
            None => *self,
        }
    }
}

/// The larger of two integers.
pub open spec fn spec_max(a: int, b: int) -> int {
    if a >= b {
        a
    } else {
        b
    }
}

/// A power of two is at least 1.
pub proof fn lemma_power_of_two_is_positive(n: int)
    requires
        is_power_of_two(n),
    ensures
        0 < n,
{
}

} // verus!
