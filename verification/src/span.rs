//! The `Span` type: a half-open byte range `[start, end)` tied to one
//! specific `Source` by that source's identity. Spans are cheap value
//! types; applying one hands back the bytes it covers, and applying it
//! against a source it does not belong to fails rather than returning
//! wrong bytes.

use vstd::prelude::*;

use crate::Source;
use crate::copy_range;
use crate::last_line_start;
use crate::newlines_before;

verus! {

/// A half-open byte range `[start, end)` into the source whose identity is
/// `src_id`. Invariant: `start <= end <= len(source text)`.
#[derive(Debug, Clone, Copy, PartialEq, Eq, Structural)]
pub struct Span {
    pub start: u32,
    pub end: u32,
    pub src_id: u32,
}

impl Span {
    /// The range is ordered.
    pub open spec fn wf(&self) -> bool {
        self.start <= self.end
    }

    /// The span belongs to `src` and lies inside its text.
    pub open spec fn in_source(&self, src: &Source) -> bool {
        &&& self.src_id == src.id
        &&& self.start <= self.end
        &&& self.end <= src.text@.len()
    }

    pub open spec fn spec_len(&self) -> int {
        self.end - self.start
    }

    /// A zero-width span at the very start of `src`.
    pub fn new(src: &Source) -> (r: Span)
        ensures
            r == (Span { start: 0, end: 0, src_id: src.id }),
    {
        Self::new_from(src, 0, 0)
    }

    /// A span of `src` covering the byte range `[start, end)`.
    pub fn new_from(src: &Source, start: u32, end: u32) -> (r: Span)
        requires
            start <= end,
        ensures
            r == (Span { start, end, src_id: src.id }),
    {
        Span { start, end, src_id: src.id }
    }

    /// Cuts the span down to zero width at its end.
    pub fn update(&mut self)
        ensures
            *final(self) == (Span {
                start: old(self).end,
                end: old(self).end,
                src_id: old(self).src_id,
            }),
    {
        self.start = self.end;
    }

    /// Grows the span from the front: the end moves up by `amount`.
    pub fn grow_front(&mut self, amount: u32)
        requires
            old(self).end + amount <= u32::MAX,
        ensures
            *final(self) == (Span {
                start: old(self).start,
                end: (old(self).end + amount) as u32,
                src_id: old(self).src_id,
            }),
    {
        self.end = self.end + amount;
    }

    /// Grows the span from the back: the start moves down by `amount`.
    pub fn grow_back(&mut self, amount: u32)
        requires
            amount <= old(self).start,
        ensures
            *final(self) == (Span {
                start: (old(self).start - amount) as u32,
                end: old(self).end,
                src_id: old(self).src_id,
            }),
    {
        self.start = self.start - amount;
    }

    /// Shrinks the span from the back: the start moves up by `amount`,
    /// which must not exceed the span's length.
    pub fn shrink_back(&mut self, amount: u32)
        requires
            old(self).wf(),
            amount <= old(self).spec_len(),
        ensures
            *final(self) == (Span {
                start: (old(self).start + amount) as u32,
                end: old(self).end,
                src_id: old(self).src_id,
            }),
    {
        self.start = self.start + amount;
    }

    /// Shrinks the span from the front: the end moves down by `amount`,
    /// which must not exceed the span's length.
    pub fn shrink_front(&mut self, amount: u32)
        requires
            old(self).wf(),
            amount <= old(self).spec_len(),
        ensures
            *final(self) == (Span {
                start: old(self).start,
                end: (old(self).end - amount) as u32,
                src_id: old(self).src_id,
            }),
    {
        self.end = self.end - amount;
    }

    /// Whether the span covers no bytes at all.
    pub fn is_empty(&self) -> (r: bool)
        requires
            self.wf(),
        ensures
            r == (self.spec_len() == 0),
    {
        self.len() == 0
    }

    /// Number of bytes the span covers.
    pub fn len(&self) -> (r: u32)
        requires
            self.wf(),
        ensures
            r == self.spec_len(),
    {
        self.end - self.start
    }

    /// The bytes of `src` the span covers. The span must belong to `src`
    /// and lie inside its text.
    pub fn apply(&self, src: &Source) -> (r: Vec<u8>)
        requires
            self.in_source(src),
        ensures
            r@ == src.text@.subrange(self.start as int, self.end as int),
    {
        copy_range(&src.text, self.start as usize, self.end as usize)
    }

    /// Fallible form of `apply`: hands back the covered bytes, or nothing
    /// when the span does not belong to `src` or reaches outside its text.
    pub fn try_apply(&self, src: &Source) -> (r: Option<Vec<u8>>)
        ensures
            self.in_source(src) ==> (r matches Some(v) && v@ == src.text@.subrange(
                self.start as int,
                self.end as int,
            )),
            !self.in_source(src) ==> r is None,
    {
        if self.src_id == src.id && self.start <= self.end && (self.end as usize)
            <= src.text.len() {
            Some(self.apply(src))
        } else {
            None
        }
    }

    /// 1-indexed `(line, column)` of the span's start within `src`, with an
    /// offset past the end of the text clamped to the end.
    pub fn get_start_code_pos(&self, src: &Source) -> (r: (u32, u32))
        requires
            src.wf(),
            self.src_id == src.id,
        ensures
            ({
                let p = if self.start <= src.text@.len() {
                    self.start as int
                } else {
                    src.text@.len() as int
                };
                &&& r.0 == 1 + newlines_before(src.text@, p)
                &&& r.1 == p - last_line_start(src.text@, p) + 1
            }),
    {
        code_pos(src, self.start)
    }

    /// 1-indexed `(line, column)` of the span's end within `src`, with an
    /// offset past the end of the text clamped to the end.
    pub fn get_end_code_pos(&self, src: &Source) -> (r: (u32, u32))
        requires
            src.wf(),
            self.src_id == src.id,
        ensures
            ({
                let p = if self.end <= src.text@.len() {
                    self.end as int
                } else {
                    src.text@.len() as int
                };
                &&& r.0 == 1 + newlines_before(src.text@, p)
                &&& r.1 == p - last_line_start(src.text@, p) + 1
            }),
    {
        code_pos(src, self.end)
    }
}

/// 1-indexed `(line, column)` of a byte offset, clamped to the end of the
/// text.
fn code_pos(src: &Source, offset: u32) -> (r: (u32, u32))
    requires
        src.wf(),
    ensures
        ({
            let p = if offset <= src.text@.len() {
                offset as int
            } else {
                src.text@.len() as int
            };
            &&& r.0 == 1 + newlines_before(src.text@, p)
            &&& r.1 == p - last_line_start(src.text@, p) + 1
        }),
{
    let p: usize = if (offset as usize) <= src.text.len() {
        offset as usize
    } else {
        src.text.len()
    };
    let line = src.line_index(p);
    proof {
        crate::lemma_newlines_before_bounds(src.text@, p as int);
        crate::lemma_last_line_start_bounds(src.text@, p as int);
    }
    let line_start = src.line_starts[line];
    ((line + 1) as u32, (p - line_start + 1) as u32)
}

} // verus!
