//! Counting the bytes of a write sequence without writing any.

use crate::align::{align_offset, lemma_pow2_positive, lemma_round_up_bounds};
use crate::rule::LayoutRule;
use vstd::prelude::*;

verus! {

/// Type that computes the buffer size needed by a series of values, without
/// touching any buffer.
#[derive(Clone, Debug)]
pub struct Sizer {
    offset: usize,
}

impl Sizer {
    /// Number of bytes counted so far, padding included.
    pub closed spec fn cursor(&self) -> nat {
        self.offset as nat
    }

    /// Starts counting from zero.
    pub fn new() -> (created: Self)
        ensures
            created.cursor() == 0,
    {
        Self { offset: 0 }
    }

    /// Counts one value with the rule `layout`: the padding up to its
    /// alignment boundary, then its size.
    pub fn write(&mut self, layout: &LayoutRule)
        requires
            layout.wf(),
            layout.end_after(old(self).cursor()) <= usize::MAX,
        ensures
            final(self).cursor() == layout.end_after(old(self).cursor()),
            final(self).cursor() >= old(self).cursor(),
    {
        proof {
            lemma_pow2_positive(layout.alignment as nat);
            lemma_round_up_bounds(old(self).cursor(), layout.alignment as nat);
        }
        let padding: usize = align_offset(self.offset, layout.alignment);
        self.offset = self.offset + padding;
        self.offset = self.offset + layout.size;
    }

    /// Number of bytes counted so far, padding included.
    pub fn len(&self) -> (len: usize)
        ensures
            len == self.cursor(),
    {
        self.offset
    }
}

} // verus!
