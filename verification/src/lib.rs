//! Lexical front end for the Escoop language: sources, spans, a byte lexer,
//! and a diagnostic engine that renders messages with source excerpts.
//!
//! A `Database` is the session object: it issues source identities and
//! collects emitted diagnostics together with the sticky "error observed" and
//! "bug observed" flags. A `Source` owns its text as raw bytes plus a
//! precomputed line-start index; `Span`s and `Token`s refer back to a source
//! through its integer identity rather than through borrows.

use vstd::prelude::*;
use vstd::string::StrSliceExecFns;
use vstd::string::StringSliceAdditionalSpecFns;

pub mod diag;
pub mod lexer;
pub mod query;
pub mod span;

use crate::query::Database;

verus! {

/// Number of line-break bytes strictly before offset `p` in `t`.
/// This is the 0-indexed line number of the position `p`.
pub open spec fn newlines_before(t: Seq<u8>, p: int) -> int
    decreases p,
{
    if p <= 0 {
        0
    } else {
        newlines_before(t, p - 1) + (if 0 <= p - 1 < t.len() && t[p - 1] == 10 {
            1int
        } else {
            0int
        })
    }
}

/// Byte offset of the first character of the line containing position `p`:
/// the largest `j <= p` that is 0 or directly preceded by a line break.
pub open spec fn last_line_start(t: Seq<u8>, p: int) -> int
    decreases p,
{
    if p <= 0 {
        0
    } else if t[p - 1] == 10 {
        p
    } else {
        last_line_start(t, p - 1)
    }
}

/// Byte offset just past the text of the line containing position `p`:
/// the first `j >= p` holding a line break, or the end of the text.
pub open spec fn line_end(t: Seq<u8>, p: int) -> int
    decreases t.len() - p,
{
    if p < 0 || p >= t.len() {
        t.len() as int
    } else if t[p] == 10 {
        p
    } else {
        line_end(t, p + 1)
    }
}

/// `ls` is a correct line-start index for the text `t`: it begins with 0,
/// is strictly increasing, every later entry is the offset just after a
/// line-break byte, and every line-break byte is accounted for.
pub open spec fn line_starts_ok(t: Seq<u8>, ls: Seq<usize>) -> bool {
    &&& 1 <= ls.len() <= t.len() + 1
    &&& ls[0] == 0
    &&& forall|k: int| 1 <= k < ls.len() ==> 1 <= #[trigger] ls[k] && ls[k] <= t.len() && t[ls[k] - 1] == 10
    &&& forall|k1: int, k2: int| 0 <= k1 < k2 < ls.len() ==> #[trigger] ls[k1] < #[trigger] ls[k2]
    &&& forall|j: int| 0 <= j < t.len() && t[j] == 10 ==> exists|k: int|
        1 <= k < ls.len() && #[trigger] ls[k] == j + 1
}

/// The entry of a correct line-start index that covers an offset is exactly
/// the count of line breaks before that offset, and the entry's value is the
/// start of the offset's line. This ties the binary-search lookup to a
/// by-hand byte scan.
pub proof fn lemma_line_entry_counts_newlines(t: Seq<u8>, ls: Seq<usize>, off: int, k: int)
    requires
        line_starts_ok(t, ls),
        0 <= off <= t.len(),
        0 <= k < ls.len(),
        ls[k] <= off,
        k + 1 < ls.len() ==> off < ls[k + 1],
    ensures
        k == newlines_before(t, off),
        ls[k] as int == last_line_start(t, off),
    decreases off,
{
    if off == 0 {
        assert(k == 0) by {
            if k > 0 {
                assert(1 <= ls[k]);
            }
        }
    } else if t[off - 1] == 10 {
        let m = choose|m: int| 1 <= m < ls.len() && #[trigger] ls[m] == off;
        assert(1 <= m < ls.len() && ls[m] == off);
        if k < m {
            if k + 1 < ls.len() {
                if k + 1 < m {
                    assert(ls[k + 1] < ls[m]);
                }
                assert(ls[k + 1] <= ls[m]);
                assert(false);
            } else {
                assert(false);
            }
        }
        if m < k {
            assert(ls[m] < ls[k]);
            assert(false);
        }
        assert(k == m);
        assert(ls[k - 1] < ls[k]);
        lemma_line_entry_counts_newlines(t, ls, off - 1, k - 1);
    } else {
        assert(ls[k] != off) by {
            if ls[k] == off {
                assert(k >= 1) by {
                    if k == 0 {
                        assert(ls[0] == 0);
                    }
                }
                assert(t[ls[k] - 1] == 10);
            }
        }
        lemma_line_entry_counts_newlines(t, ls, off - 1, k);
    }
}

/// There are never more line breaks before an offset than bytes.
pub proof fn lemma_newlines_before_bounds(t: Seq<u8>, p: int)
    requires
        0 <= p,
    ensures
        0 <= newlines_before(t, p) <= p,
    decreases p,
{
    if p > 0 {
        lemma_newlines_before_bounds(t, p - 1);
    }
}

/// The start of a position's line never lies past the position.
pub proof fn lemma_last_line_start_bounds(t: Seq<u8>, p: int)
    requires
        0 <= p,
    ensures
        0 <= last_line_start(t, p) <= p,
    decreases p,
{
    if p > 0 && t[p - 1] != 10 {
        lemma_last_line_start_bounds(t, p - 1);
    }
}

/// The end of a position's line lies between the position and the end of
/// the text.
pub proof fn lemma_line_end_bounds(t: Seq<u8>, p: int)
    requires
        0 <= p <= t.len(),
    ensures
        p <= line_end(t, p) <= t.len(),
    decreases t.len() - p,
{
    if p < t.len() && t[p] != 10 {
        lemma_line_end_bounds(t, p + 1);
    }
}

/// Copies the byte range `[a, b)` out of `v`.
pub fn copy_range(v: &Vec<u8>, a: usize, b: usize) -> (r: Vec<u8>)
    requires
        a <= b <= v@.len(),
    ensures
        r@ == v@.subrange(a as int, b as int),
{
    let mut out: Vec<u8> = Vec::new();
    let mut i: usize = a;
    while i < b
        invariant
            a <= i <= b <= v@.len(),
            out@ == v@.subrange(a as int, i as int),
        decreases b - i,
    {
        out.push(v[i]);
        i = i + 1;
        proof {
            assert(out@ =~= v@.subrange(a as int, i as int));
        }
    }
    out
}

/// Whether two byte vectors hold the same bytes.
pub fn bytes_eq(a: &Vec<u8>, b: &Vec<u8>) -> (r: bool)
    ensures
        r == (a@ == b@),
{
    if a.len() != b.len() {
        proof {
            assert(a@ != b@);
        }
        return false;
    }
    let mut i: usize = 0;
    while i < a.len()
        invariant
            i <= a@.len(),
            a@.len() == b@.len(),
            forall|j: int| 0 <= j < i ==> a@[j] == b@[j],
        decreases a@.len() - i,
    {
        if a[i] != b[i] {
            proof {
                assert(a@ != b@);
            }
            return false;
        }
        i = i + 1;
    }
    proof {
        assert(a@ =~= b@);
    }
    true
}

/// Errors raised by line lookups on a `Source`.
#[derive(Debug, Clone, Copy, PartialEq, Eq, Structural)]
pub enum SourceError {
    /// The requested line index lies beyond the last line of the source.
    LineOutOfRange { given: usize, max: usize },
}

/// A single-lookahead forward scanner over raw bytes, with O(1)
/// end-of-input and idempotent peeking.
pub struct Cursor {
    pub text: Vec<u8>,
    pub pos: usize,
}

impl Cursor {
    pub open spec fn wf(&self) -> bool {
        self.pos <= self.text@.len()
    }

    /// Remaining number of unread bytes.
    pub open spec fn spec_len_remaining(&self) -> int {
        self.text@.len() - self.pos
    }

    pub fn new(source: &str) -> (r: Cursor)
        ensures
            r.wf(),
            r.text@ == source.spec_bytes(),
            r.pos == 0,
    {
        Cursor { text: source.as_bytes_vec(), pos: 0 }
    }

    /// True when every byte has been consumed.
    pub fn eof(&self) -> (r: bool)
        requires
            self.wf(),
        ensures
            r == (self.spec_len_remaining() == 0),
    {
        self.pos == self.text.len()
    }

    /// Returns the next byte without consuming it. Repeated peeks return
    /// the same byte.
    pub fn peek(&self) -> (r: Option<u8>)
        ensures
            r == (if self.pos < self.text@.len() {
                Some(self.text@[self.pos as int])
            } else {
                None::<u8>
            }),
    {
        if self.pos < self.text.len() {
            Some(self.text[self.pos])
        } else {
            None
        }
    }

    /// Consumes and returns the next byte, or nothing at end-of-input.
    pub fn next(&mut self) -> (r: Option<u8>)
        ensures
            final(self).text@ == old(self).text@,
            old(self).pos < old(self).text@.len() ==> {
                &&& r == Some(old(self).text@[old(self).pos as int])
                &&& final(self).pos == old(self).pos + 1
            },
            old(self).pos >= old(self).text@.len() ==> {
                &&& r is None
                &&& final(self).pos == old(self).pos
            },
    {
        if self.pos < self.text.len() {
            let b = self.text[self.pos];
            self.pos = self.pos + 1;
            Some(b)
        } else {
            None
        }
    }

    /// Copies out every unread byte, in order.
    pub fn remaining(&self) -> (r: Vec<u8>)
        requires
            self.wf(),
        ensures
            r@ == self.text@.subrange(self.pos as int, self.text@.len() as int),
    {
        copy_range(&self.text, self.pos, self.text.len())
    }
}

/// An immutable piece of source text: its identity within a session, its
/// path, its raw bytes, and a precomputed line-start index.
#[derive(Debug, PartialEq, Eq, Hash)]
pub struct Source {
    pub id: u32,
    pub path: Vec<u8>,
    pub text: Vec<u8>,
    pub line_starts: Vec<usize>,
}

fn compute_line_starts(t: &Vec<u8>) -> (r: Vec<usize>)
    ensures
        line_starts_ok(t@, r@),
{
    let mut ls: Vec<usize> = Vec::new();
    ls.push(0);
    let mut i: usize = 0;
    while i < t.len()
        invariant
            i <= t@.len(),
            1 <= ls@.len() <= i + 1,
            ls@[0] == 0,
            forall|k: int| 1 <= k < ls@.len() ==> 1 <= #[trigger] ls@[k] && ls@[k] <= i
                && t@[ls@[k] - 1] == 10,
            forall|k1: int, k2: int| 0 <= k1 < k2 < ls@.len() ==> #[trigger] ls@[k1]
                < #[trigger] ls@[k2],
            forall|k: int| 0 <= k < ls@.len() ==> #[trigger] ls@[k] <= i,
            forall|j: int| 0 <= j < i && t@[j] == 10 ==> exists|k: int|
                1 <= k < ls@.len() && #[trigger] ls@[k] == j + 1,
        decreases t@.len() - i,
    {
        let ghost ls0 = ls@;
        if t[i] == 10 {
            ls.push(i + 1);
            proof {
                assert(ls@[ls@.len() - 1] == i + 1);
            }
        }
        proof {
            assert forall|j: int| 0 <= j < i + 1 && t@[j] == 10 implies exists|k: int|
                1 <= k < ls@.len() && #[trigger] ls@[k] == j + 1 by {
                if j == i {
                    assert(ls@[ls@.len() - 1] == j + 1);
                } else {
                    let k = choose|k: int| 1 <= k < ls0.len() && #[trigger] ls0[k] == j + 1;
                    assert(ls@[k] == j + 1);
                }
            }
        }
        i = i + 1;
    }
    ls
}

impl Source {
    /// A source is well formed when its text fits the 32-bit span offsets
    /// and its line-start index is correct for its text.
    pub open spec fn wf(&self) -> bool {
        &&& self.text@.len() < u32::MAX
        &&& line_starts_ok(self.text@, self.line_starts@)
    }

    /// Builds a source from a path and its already-read text, registering a
    /// fresh identity with the session and scanning the text once for line
    /// starts.
    pub fn new(db: &mut Database, path: &str, text: &str) -> (r: Source)
        requires
            old(db).next_id < u32::MAX,
            text.spec_bytes().len() < u32::MAX,
        ensures
            r.wf(),
            r.id == old(db).next_id,
            r.path@ == path.spec_bytes(),
            r.text@ == text.spec_bytes(),
            final(db).next_id == old(db).next_id + 1,
            final(db).diags@ == old(db).diags@,
            final(db).error_hit == old(db).error_hit,
            final(db).bug_found == old(db).bug_found,
    {
        let id = db.fresh_id();
        let bytes = text.as_bytes_vec();
        let line_starts = compute_line_starts(&bytes);
        Source { id, path: path.as_bytes_vec(), text: bytes, line_starts }
    }

    /// The path this source was read from, as raw bytes.
    pub fn name(&self) -> (r: &Vec<u8>)
        ensures
            r@ == self.path@,
    {
        &self.path
    }

    /// The full text of the source, as raw bytes.
    pub fn source(&self) -> (r: &Vec<u8>)
        ensures
            r@ == self.text@,
    {
        &self.text
    }

    /// Byte offset at which line `line_index` starts; the text length stands
    /// in for the start of the line one past the last.
    pub fn line_start(&self, line_index: usize) -> (r: Result<usize, SourceError>)
        requires
            self.wf(),
        ensures
            line_index < self.line_starts@.len() ==> (r matches Ok(v) && v
                == self.line_starts@[line_index as int]),
            line_index == self.line_starts@.len() ==> (r matches Ok(v) && v as int
                == self.text@.len()),
            line_index > self.line_starts@.len() ==> (r matches Err(e)
                && e matches SourceError::LineOutOfRange { given, max }
                && given == line_index && max as int == self.line_starts@.len() - 1),
    {
        if line_index < self.line_starts.len() {
            Ok(self.line_starts[line_index])
        } else if line_index == self.line_starts.len() {
            Ok(self.text.len())
        } else {
            Err(SourceError::LineOutOfRange { given: line_index, max: self.line_starts.len() - 1 })
        }
    }

    /// Half-open byte range `[start, end)` of the given line, or an error
    /// for a line index beyond the last line.
    pub fn line_range(&self, line_index: usize) -> (r: Result<(usize, usize), SourceError>)
        requires
            self.wf(),
        ensures
            line_index < self.line_starts@.len() ==> (r matches Ok(v) && v.0
                == self.line_starts@[line_index as int] && v.1 as int == (
            if line_index + 1 < self.line_starts@.len() {
                self.line_starts@[line_index as int + 1] as int
            } else {
                self.text@.len() as int
            })),
            line_index >= self.line_starts@.len() ==> (r matches Err(e)
                && e matches SourceError::LineOutOfRange { given, max }
                && given == line_index && max as int == self.line_starts@.len() - 1),
    {
        if line_index >= self.line_starts.len() {
            return Err(SourceError::LineOutOfRange {
                given: line_index,
                max: self.line_starts.len() - 1,
            });
        }
        let start = self.line_starts[line_index];
        let end = if line_index + 1 < self.line_starts.len() {
            self.line_starts[line_index + 1]
        } else {
            self.text.len()
        };
        Ok((start, end))
    }

    /// 0-indexed line containing the byte offset, found by binary search
    /// over the line-start index; equals the number of line breaks before
    /// the offset.
    pub fn line_index(&self, byte: usize) -> (r: usize)
        requires
            self.wf(),
            byte <= self.text@.len(),
        ensures
            r < self.line_starts@.len(),
            r as int == newlines_before(self.text@, byte as int),
            self.line_starts@[r as int] as int == last_line_start(self.text@, byte as int),
    {
        let mut lo: usize = 0;
        let mut hi: usize = self.line_starts.len();
        while hi - lo > 1
            invariant
                0 <= lo < hi <= self.line_starts@.len(),
                self.line_starts@[lo as int] <= byte,
                hi < self.line_starts@.len() ==> byte < self.line_starts@[hi as int],
                self.wf(),
                byte <= self.text@.len(),
            decreases hi - lo,
        {
            let mid = lo + (hi - lo) / 2;
            if self.line_starts[mid] <= byte {
                lo = mid;
            } else {
                hi = mid;
            }
        }
        proof {
            lemma_line_entry_counts_newlines(
                self.text@,
                self.line_starts@,
                byte as int,
                lo as int,
            );
        }
        lo
    }
}

impl Clone for Source {
    /// A clone holds the same identity, path, text, and line-start index.
    fn clone(&self) -> (r: Self)
        ensures
            r.id == self.id,
            r.path@ == self.path@,
            r.text@ == self.text@,
            r.line_starts@ == self.line_starts@,
    {
        Source {
            id: self.id,
            path: copy_range(&self.path, 0, self.path.len()),
            text: copy_range(&self.text, 0, self.text.len()),
            line_starts: copy_usizes(&self.line_starts),
        }
    }
}

fn copy_usizes(v: &Vec<usize>) -> (r: Vec<usize>)
    ensures
        r@ == v@,
{
    let mut out: Vec<usize> = Vec::new();
    let mut i: usize = 0;
    while i < v.len()
        invariant
            i <= v@.len(),
            out@ == v@.subrange(0, i as int),
        decreases v@.len() - i,
    {
        out.push(v[i]);
        i = i + 1;
        proof {
            assert(out@ =~= v@.subrange(0, i as int));
        }
    }
    proof {
        assert(v@.subrange(0, v@.len() as int) =~= v@);
    }
    out
}

} // verus!
