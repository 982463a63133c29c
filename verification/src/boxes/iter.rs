//! Iteration over sibling ISOBMFF boxes.

use crate::boxes::header;
use crate::boxes::header::BoxHeader;
use crate::error;
use crate::error::{ErrorKind, HeicError, HeicResult};
use vstd::prelude::*;

verus! {

/// One step of box iteration over the non-empty remaining bytes `rem`: the header of the
/// first box and its total length, or why the bytes do not start with a complete box.
pub open spec fn spec_next_box(rem: Seq<u8>) -> Result<(BoxHeader, int), ErrorKind> {
    if rem.len() < 8 {
        Err(ErrorKind::MalformedInput)
    } else {
        match header::spec_box_header(rem) {
            Err(k) => Err(k),
            Ok(h) => {
                if h.size > usize::MAX {
                    Err(ErrorKind::LimitExceeded)
                } else if rem.len() < h.size {
                    Err(ErrorKind::MalformedInput)
                } else {
                    Ok((h, h.size as int))
                }
            },
        }
    }
}

/// A successful step always consumes at least the 8-byte header and never more than `rem`.
pub proof fn lemma_next_box_progress(rem: Seq<u8>)
    requires
        spec_next_box(rem) is Ok,
        rem.len() <= usize::MAX,
    ensures
        8 <= spec_next_box(rem)->Ok_0.1 <= rem.len(),
        spec_next_box(rem)->Ok_0.0.header_size <= spec_next_box(rem)->Ok_0.1,
{
    crate::bytes::lemma_be_bounds(rem, 0);
    crate::bytes::lemma_be_bounds(rem, 8);
}

/// Processes the boxes of `s` in order with `step`, stopping at the first error, whether the
/// error comes from splitting the bytes into boxes or from `step`.
pub open spec fn spec_fold_boxes<A>(
    s: Seq<u8>,
    acc: A,
    step: spec_fn(A, BoxHeader, Seq<u8>) -> Result<A, ErrorKind>,
) -> Result<A, ErrorKind>
    decreases s.len(),
{
    if s.len() == 0 {
        Ok(acc)
    } else {
        match spec_next_box(s) {
            Err(k) => Err(k),
            Ok((h, n)) => {
                if 8 <= n <= s.len() {
                    match step(acc, h, s.take(n)) {
                        Err(k) => Err(k),
                        Ok(next) => spec_fold_boxes(s.skip(n), next, step),
                    }
                } else {
                    Err(ErrorKind::MalformedInput)
                }
            },
        }
    }
}

/// Iterator over sibling boxes in a container payload.
pub struct BoxIter<'a> {
    data: &'a [u8],
    offset: usize,
}

/// Outcome of one call of [`BoxIter::next_box`] given the bytes and the position.
pub open spec fn spec_iter_step(data: Seq<u8>, offset: int) -> Option<Result<(BoxHeader, int), ErrorKind>> {
    if offset >= data.len() {
        None
    } else {
        Some(spec_next_box(data.skip(offset)))
    }
}

impl<'a> BoxIter<'a> {
    /// The bytes being iterated.
    pub closed spec fn spec_data(&self) -> Seq<u8> {
        self.data@
    }

    /// The position of the next box.
    pub closed spec fn spec_offset(&self) -> int {
        self.offset as int
    }

    /// Creates a new box iterator over a byte slice.
    pub fn new(data: &'a [u8]) -> (it: Self)
        ensures
            it.spec_data() == data@,
            it.spec_offset() == 0,
    {
        BoxIter { data, offset: 0 }
    }

    /// Returns the next box (its header and all its bytes), an error that ends the
    /// iteration, or `None` once all bytes are consumed.
    pub fn next_box(&mut self) -> (r: Option<HeicResult<(BoxHeader, &'a [u8])>>)
        ensures
            final(self).spec_data() == old(self).spec_data(),
            ({
                let data = old(self).spec_data();
                let off = old(self).spec_offset();
                match spec_iter_step(data, off) {
                    None => r is None && final(self).spec_offset() == off,
                    Some(Err(k)) => r matches Some(Err(e)) && e.kind() == k
                        && final(self).spec_offset() == data.len(),
                    Some(Ok((h, n))) => r matches Some(Ok((rh, bytes))) && rh == h
                        && bytes@ == data.skip(off).take(n)
                        && final(self).spec_offset() == off + n,
                }
            }),
            0 <= final(self).spec_offset() <= final(self).spec_data().len()
                || final(self).spec_offset() == old(self).spec_offset(),
    {
        let len = self.data.len();
        if self.offset >= len {
            return None;
        }
        let remaining = &self.data[self.offset..len];
        assert(remaining@ == self.data@.skip(self.offset as int));
        if remaining.len() < 8 {
            self.offset = len;
            return Some(Err(HeicError::malformed("Trailing bytes insufficient for box header")));
        }
        let header = match BoxHeader::parse(remaining) {
            Ok(h) => h,
            Err(e) => {
                self.offset = len;
                return Some(Err(e));
            },
        };
        if header.size > usize::MAX as u64 {
            self.offset = len;
            return Some(Err(HeicError::limit_exceeded("Box size exceeds usize")));
        }
        let box_size = header.size as usize;
        if remaining.len() < box_size {
            self.offset = len;
            return Some(Err(HeicError::malformed("Box declares more bytes than remain")));
        }
        let box_data = &remaining[0..box_size];
        self.offset = self.offset + box_size;
        Some(Ok((header, box_data)))
    }
}

} // verus!
