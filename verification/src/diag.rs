//! Diagnostics: severity-tagged reports bound to spans, built through a
//! two-stage builder and emitted into the session's buffer. Emitting an
//! error or a bug sets the session's sticky flag of the same name.
//!
//! A builder is a linear resource: once opened it is meant to be finished
//! and emitted exactly once. Emission is an explicit action that consumes
//! the diagnostic, so a report can never be changed after it is shared.

use vstd::prelude::*;
use vstd::string::StrSliceExecFns;
use vstd::string::StringSliceAdditionalSpecFns;

use crate::Source;
use crate::query::Database;
use crate::span::Span;

verus! {

/// How grave a diagnostic is. `Bug` marks an internal fault of the compiler
/// itself; the `Once` variants render like their plain counterparts but are
/// meant to fire a single time per session.
#[derive(Debug, Clone, Copy, PartialEq, Eq, Structural)]
pub enum Severity {
    Bug,
    Error,
    Warning,
    Note,
    Help,
    OnceNote,
    OnceHelp,
}

/// True when the sticky "bug observed" flag of the session is set.
pub fn bug(db: &Database) -> (r: bool)
    ensures
        r == db.bug_found,
{
    db.bug_found
}

/// True when the sticky "error observed" flag of the session is set.
pub fn error(db: &Database) -> (r: bool)
    ensures
        r == db.error_hit,
{
    db.error_hit
}

pub(crate) fn set_bug(db: &mut Database)
    ensures
        final(db).bug_found,
        final(db).error_hit == old(db).error_hit,
        final(db).diags@ == old(db).diags@,
        final(db).next_id == old(db).next_id,
{
    db.bug_found = true;
}

pub(crate) fn set_error(db: &mut Database)
    ensures
        final(db).error_hit,
        final(db).bug_found == old(db).bug_found,
        final(db).diags@ == old(db).diags@,
        final(db).next_id == old(db).next_id,
{
    db.error_hit = true;
}

/// A structured report: a severity, a message, an optional machine-readable
/// code, labelled sub-spans (the first is the primary one), and free-form
/// notes. It names the source it talks about by identity.
pub struct Diag {
    pub severity: Severity,
    pub src_id: u32,
    pub message: Vec<u8>,
    pub code: Option<Vec<u8>>,
    pub labels: Vec<Span>,
    pub notes: Vec<Vec<u8>>,
}

impl Diag {
    /// The span the report points at, when it has one.
    pub open spec fn primary_span(&self) -> Option<Span> {
        if self.labels@.len() > 0 {
            Some(self.labels@[0])
        } else {
            None
        }
    }

    /// Opens a builder for a report about `src` at the given severity.
    pub fn build(src: &Source, severity: Severity) -> (r: DiagBuilder)
        ensures
            r.inner.severity == severity,
            r.inner.src_id == src.id,
            r.inner.message@ == Seq::<u8>::empty(),
            r.inner.code is None,
            r.inner.labels@ == Seq::<Span>::empty(),
            r.inner.notes@ == Seq::<Vec<u8>>::empty(),
    {
        DiagBuilder {
            inner: Diag {
                severity,
                src_id: src.id,
                message: Vec::new(),
                code: None,
                labels: Vec::new(),
                notes: Vec::new(),
            },
        }
    }

    /// Opens a builder at severity `Error`.
    pub fn error(src: &Source) -> (r: DiagBuilder)
        ensures
            r.inner.severity == Severity::Error,
            r.inner.src_id == src.id,
            r.inner.message@ == Seq::<u8>::empty(),
            r.inner.code is None,
            r.inner.labels@ == Seq::<Span>::empty(),
            r.inner.notes@ == Seq::<Vec<u8>>::empty(),
    {
        Self::build(src, Severity::Error)
    }

    /// Opens a builder at severity `Warning`.
    pub fn warn(src: &Source) -> (r: DiagBuilder)
        ensures
            r.inner.severity == Severity::Warning,
            r.inner.src_id == src.id,
            r.inner.message@ == Seq::<u8>::empty(),
            r.inner.code is None,
            r.inner.labels@ == Seq::<Span>::empty(),
            r.inner.notes@ == Seq::<Vec<u8>>::empty(),
    {
        Self::build(src, Severity::Warning)
    }

    /// Opens a builder at severity `Bug`.
    pub fn bug(src: &Source) -> (r: DiagBuilder)
        ensures
            r.inner.severity == Severity::Bug,
            r.inner.src_id == src.id,
            r.inner.message@ == Seq::<u8>::empty(),
            r.inner.code is None,
            r.inner.labels@ == Seq::<Span>::empty(),
            r.inner.notes@ == Seq::<Vec<u8>>::empty(),
    {
        Self::build(src, Severity::Bug)
    }

    /// Opens a builder at severity `Help`.
    pub fn help(src: &Source) -> (r: DiagBuilder)
        ensures
            r.inner.severity == Severity::Help,
            r.inner.src_id == src.id,
            r.inner.message@ == Seq::<u8>::empty(),
            r.inner.code is None,
            r.inner.labels@ == Seq::<Span>::empty(),
            r.inner.notes@ == Seq::<Vec<u8>>::empty(),
    {
        Self::build(src, Severity::Help)
    }

    /// Opens a builder at severity `Note`.
    pub fn note(src: &Source) -> (r: DiagBuilder)
        ensures
            r.inner.severity == Severity::Note,
            r.inner.src_id == src.id,
            r.inner.message@ == Seq::<u8>::empty(),
            r.inner.code is None,
            r.inner.labels@ == Seq::<Span>::empty(),
            r.inner.notes@ == Seq::<Vec<u8>>::empty(),
    {
        Self::build(src, Severity::Note)
    }

    /// Hands the finished report to the session. An error sets the sticky
    /// "error observed" flag, a bug the sticky "bug observed" flag; neither
    /// is ever cleared.
    pub fn emit(self, db: &mut Database)
        ensures
            final(db).diags@ == old(db).diags@.push(self),
            final(db).error_hit == (old(db).error_hit || self.severity == Severity::Error),
            final(db).bug_found == (old(db).bug_found || self.severity == Severity::Bug),
            final(db).next_id == old(db).next_id,
    {
        if matches!(self.severity, Severity::Bug) {
            set_bug(db);
        } else if matches!(self.severity, Severity::Error) {
            set_error(db);
        }
        db.diags.push(self);
    }
}

// ---------------------------------------------------------------------
// Rendering
// ---------------------------------------------------------------------

/// Decimal digits of `n`, most significant first.
pub open spec fn dec_digits(n: nat) -> Seq<u8>
    decreases n,
{
    if n < 10 {
        seq![(48 + n) as u8]
    } else {
        dec_digits(n / 10).push((48 + n % 10) as u8)
    }
}

fn push_dec(out: &mut Vec<u8>, n: u32)
    ensures
        final(out)@ == old(out)@ + dec_digits(n as nat),
    decreases n,
{
    if n < 10 {
        out.push(48 + n as u8);
        proof {
            assert(out@ =~= old(out)@ + dec_digits(n as nat));
        }
    } else {
        push_dec(out, n / 10);
        out.push(48 + (n % 10) as u8);
        proof {
            assert(out@ =~= old(out)@ + dec_digits(n as nat));
        }
    }
}

fn push_bytes(out: &mut Vec<u8>, s: &Vec<u8>)
    ensures
        final(out)@ == old(out)@ + s@,
{
    let mut i: usize = 0;
    while i < s.len()
        invariant
            i <= s@.len(),
            out@ == old(out)@ + s@.subrange(0, i as int),
        decreases s@.len() - i,
    {
        out.push(s[i]);
        i = i + 1;
        proof {
            assert(out@ =~= old(out)@ + s@.subrange(0, i as int));
        }
    }
    proof {
        assert(s@.subrange(0, s@.len() as int) =~= s@);
    }
}

fn push_str_bytes(out: &mut Vec<u8>, s: &str)
    ensures
        final(out)@ == old(out)@ + s.spec_bytes(),
{
    let v = s.as_bytes_vec();
    push_bytes(out, &v);
}

fn push_repeat(out: &mut Vec<u8>, b: u8, n: usize)
    ensures
        final(out)@ == old(out)@ + Seq::new(n as nat, |x: int| b),
{
    let mut i: usize = 0;
    while i < n
        invariant
            i <= n,
            out@ == old(out)@ + Seq::new(i as nat, |x: int| b),
        decreases n - i,
    {
        out.push(b);
        i = i + 1;
        proof {
            assert(out@ =~= old(out)@ + Seq::new(i as nat, |x: int| b));
        }
    }
}

/// The label a severity is rendered under.
pub open spec fn severity_label(s: Severity) -> Seq<u8> {
    match s {
        Severity::Bug => ("bug").spec_bytes(),
        Severity::Error => ("error").spec_bytes(),
        Severity::Warning => ("warning").spec_bytes(),
        Severity::Note => ("note").spec_bytes(),
        Severity::Help => ("help").spec_bytes(),
        Severity::OnceNote => ("note").spec_bytes(),
        Severity::OnceHelp => ("help").spec_bytes(),
    }
}

fn push_severity_label(out: &mut Vec<u8>, s: Severity)
    ensures
        final(out)@ == old(out)@ + severity_label(s),
{
    match s {
        Severity::Bug => push_str_bytes(out, "bug"),
        Severity::Error => push_str_bytes(out, "error"),
        Severity::Warning => push_str_bytes(out, "warning"),
        Severity::Note => push_str_bytes(out, "note"),
        Severity::Help => push_str_bytes(out, "help"),
        Severity::OnceNote => push_str_bytes(out, "note"),
        Severity::OnceHelp => push_str_bytes(out, "help"),
    }
}

/// The `--> path:line:col` locator line, 1-indexed.
pub open spec fn locator_spec(path: Seq<u8>, line: nat, col: nat) -> Seq<u8> {
    (" --> ").spec_bytes() + path + (":").spec_bytes() + dec_digits(line) + (":").spec_bytes()
        + dec_digits(col) + seq![10u8]
}

/// The caret underline: spaces up to the span's column, then carets.
pub open spec fn underline_spec(indent: nat, carets: nat) -> Seq<u8> {
    Seq::new(indent, |x: int| 32u8) + Seq::new(carets, |x: int| 94u8) + seq![10u8]
}

/// The locator and excerpt rendered for a span: a `--> path:line:col` line
/// (1-indexed), then the span's source line with its trailing carriage
/// return stripped, then a caret underline beneath the span's bytes on
/// that line (at least one caret).
pub open spec fn excerpt_spec(t: Seq<u8>, path: Seq<u8>, sp: Span) -> Seq<u8> {
    let start = sp.start as int;
    let line = 1 + crate::newlines_before(t, start);
    let ls = crate::last_line_start(t, start);
    let col = start - ls + 1;
    let le_raw = crate::line_end(t, start);
    let le = if le_raw > ls && t[le_raw - 1] == 13 {
        le_raw - 1
    } else {
        le_raw
    };
    let ce = if sp.end as int <= le {
        sp.end as int
    } else {
        le
    };
    let carets = if ce > start {
        ce - start
    } else {
        1int
    };
    locator_spec(path, line as nat, col as nat) + t.subrange(ls, le) + seq![10u8] + underline_spec(
        (start - ls) as nat,
        carets as nat,
    )
}

/// What rendering a report against a source produces: the severity label
/// and message, then, when the report's primary span belongs to the source
/// and lies inside its text, the locator and excerpt for that span. A span
/// of another source or one reaching past the text yields no excerpt.
pub open spec fn render_spec(d: Diag, src: Source) -> Seq<u8> {
    let header = severity_label(d.severity) + (": ").spec_bytes() + d.message@ + seq![10u8];
    match d.primary_span() {
        Some(sp) => if sp.src_id == src.id && sp.start <= sp.end && sp.end <= src.text@.len() {
            header + excerpt_spec(src.text@, src.path@, sp)
        } else {
            header
        },
        None => header,
    }
}

impl Diag {
    /// Renders the report against the source it names, in the shape that
    /// `render_spec` describes.
    pub fn render(&self, src: &Source) -> (r: Vec<u8>)
        requires
            src.wf(),
        ensures
            r@ == render_spec(*self, *src),
    {
        let mut out: Vec<u8> = Vec::new();
        push_severity_label(&mut out, self.severity);
        push_str_bytes(&mut out, ": ");
        push_bytes(&mut out, &self.message);
        out.push(10);
        if self.labels.len() > 0 {
            let sp = self.labels[0];
            if sp.src_id == src.id && sp.start <= sp.end && (sp.end as usize) <= src.text.len() {
                let ghost t = src.text@;
                let start = sp.start as usize;
                let line_idx = src.line_index(start);
                let ls = src.line_starts[line_idx];
                proof {
                    crate::lemma_newlines_before_bounds(t, start as int);
                    crate::lemma_last_line_start_bounds(t, start as int);
                    crate::lemma_line_end_bounds(t, start as int);
                }
                let mut le: usize = start;
                loop
                    invariant
                        start <= le <= t.len(),
                        t == src.text@,
                        crate::line_end(t, start as int) == crate::line_end(t, le as int),
                    ensures
                        start <= le <= t.len(),
                        le as int == crate::line_end(t, start as int),
                    decreases t.len() - le,
                {
                    if le >= src.text.len() {
                        break;
                    }
                    if src.text[le] == 10 {
                        break;
                    }
                    le = le + 1;
                }
                if le > ls && src.text[le - 1] == 13 {
                    le = le - 1;
                }
                push_excerpt(
                    &mut out,
                    &src.path,
                    &src.text,
                    sp,
                    (line_idx + 1) as u32,
                    (start - ls + 1) as u32,
                    ls,
                    le,
                );
                proof {
                    assert(out@ =~= render_spec(*self, *src));
                }
                return out;
            }
        }
        proof {
            assert(out@ =~= render_spec(*self, *src));
        }
        out
    }
}

fn push_locator(out: &mut Vec<u8>, path: &Vec<u8>, line: u32, col: u32)
    ensures
        final(out)@ == old(out)@ + locator_spec(path@, line as nat, col as nat),
{
    push_str_bytes(out, " --> ");
    push_bytes(out, path);
    push_str_bytes(out, ":");
    push_dec(out, line);
    push_str_bytes(out, ":");
    push_dec(out, col);
    out.push(10);
    proof {
        assert(out@ =~= old(out)@ + locator_spec(path@, line as nat, col as nat));
    }
}

fn push_underline(out: &mut Vec<u8>, indent: usize, carets: usize)
    ensures
        final(out)@ == old(out)@ + underline_spec(indent as nat, carets as nat),
{
    push_repeat(out, 32, indent);
    push_repeat(out, 94, carets);
    out.push(10);
    proof {
        assert(out@ =~= old(out)@ + underline_spec(indent as nat, carets as nat));
    }
}

/// Appends the locator and excerpt for `sp`, given the already computed
/// 1-indexed line and column of its start, the start of its line, and the
/// end of its line's text with a trailing carriage return stripped.
fn push_excerpt(
    out: &mut Vec<u8>,
    path: &Vec<u8>,
    text: &Vec<u8>,
    sp: Span,
    line: u32,
    col: u32,
    ls: usize,
    le: usize,
)
    requires
        sp.start <= sp.end,
        ls <= sp.start as usize <= text@.len(),
        ls <= le <= text@.len(),
        line as int == 1 + crate::newlines_before(text@, sp.start as int),
        col as int == sp.start - ls + 1,
        ls as int == crate::last_line_start(text@, sp.start as int),
        ({
            let le_raw = crate::line_end(text@, sp.start as int);
            le as int == (if le_raw > ls && text@[le_raw - 1] == 13 {
                le_raw - 1
            } else {
                le_raw
            })
        }),
    ensures
        final(out)@ == old(out)@ + excerpt_spec(text@, path@, sp),
{
    let start = sp.start as usize;
    push_locator(out, path, line, col);
    let lt = crate::copy_range(text, ls, le);
    push_bytes(out, &lt);
    out.push(10);
    let ce = if (sp.end as usize) <= le {
        sp.end as usize
    } else {
        le
    };
    let carets = if ce > start {
        ce - start
    } else {
        1
    };
    push_underline(out, start - ls, carets);
    proof {
        assert(out@ =~= old(out)@ + excerpt_spec(text@, path@, sp));
    }
}

/// Two rounds of appending error diagnostics compose: the oldest buffer is
/// still a prefix of the newest, and everything appended is an error.
pub proof fn lemma_diags_extend(a: Seq<Diag>, b: Seq<Diag>, c: Seq<Diag>)
    requires
        a.is_prefix_of(b),
        b.is_prefix_of(c),
        forall|k: int| a.len() <= k < b.len() ==> #[trigger] b[k].severity == Severity::Error,
        forall|k: int| b.len() <= k < c.len() ==> #[trigger] c[k].severity == Severity::Error,
    ensures
        a.is_prefix_of(c),
        forall|k: int| a.len() <= k < c.len() ==> #[trigger] c[k].severity == Severity::Error,
{
    assert forall|k: int| a.len() <= k < c.len() implies #[trigger] c[k].severity
        == Severity::Error by {
        if k < b.len() {
            assert(b =~= c.subrange(0, b.len() as int));
            assert(c[k] == b[k]);
        }
    }
    assert(a =~= c.subrange(0, a.len() as int)) by {
        assert(a =~= b.subrange(0, a.len() as int));
        assert(b =~= c.subrange(0, b.len() as int));
    }
}

/// Ordered builder for `Diag`: open at a severity, attach parts, finish.
/// Every step consumes the builder and hands back a new one, so a partially
/// built report cannot be changed after being shared.
pub struct DiagBuilder {
    pub inner: Diag,
}

impl DiagBuilder {
    /// Sets the machine-readable code.
    pub fn with_code(self, code: &str) -> (r: Self)
        ensures
            r.inner.code matches Some(c) && c@ == code.spec_bytes(),
            r.inner.severity == self.inner.severity,
            r.inner.src_id == self.inner.src_id,
            r.inner.message@ == self.inner.message@,
            r.inner.labels@ == self.inner.labels@,
            r.inner.notes@ == self.inner.notes@,
    {
        DiagBuilder { inner: Diag { code: Some(code.as_bytes_vec()), ..self.inner } }
    }

    /// Sets the primary message.
    pub fn with_message(self, message: &str) -> (r: Self)
        ensures
            r.inner.message@ == message.spec_bytes(),
            r.inner.severity == self.inner.severity,
            r.inner.src_id == self.inner.src_id,
            r.inner.code == self.inner.code,
            r.inner.labels@ == self.inner.labels@,
            r.inner.notes@ == self.inner.notes@,
    {
        DiagBuilder { inner: Diag { message: message.as_bytes_vec(), ..self.inner } }
    }

    /// Sets the primary message from raw bytes.
    pub fn with_message_bytes(self, message: Vec<u8>) -> (r: Self)
        ensures
            r.inner.message@ == message@,
            r.inner.severity == self.inner.severity,
            r.inner.src_id == self.inner.src_id,
            r.inner.code == self.inner.code,
            r.inner.labels@ == self.inner.labels@,
            r.inner.notes@ == self.inner.notes@,
    {
        DiagBuilder { inner: Diag { message, ..self.inner } }
    }

    /// Attaches one labelled span; the first attached span is the primary
    /// one.
    pub fn with_label(self, label: Span) -> (r: Self)
        ensures
            r.inner.labels@ == self.inner.labels@.push(label),
            r.inner.severity == self.inner.severity,
            r.inner.src_id == self.inner.src_id,
            r.inner.message@ == self.inner.message@,
            r.inner.code == self.inner.code,
            r.inner.notes@ == self.inner.notes@,
    {
        let mut inner = self.inner;
        inner.labels.push(label);
        DiagBuilder { inner }
    }

    /// Attaches several labelled spans, in order.
    pub fn with_labels(self, labels: Vec<Span>) -> (r: Self)
        ensures
            r.inner.labels@ == self.inner.labels@ + labels@,
            r.inner.severity == self.inner.severity,
            r.inner.src_id == self.inner.src_id,
            r.inner.message@ == self.inner.message@,
            r.inner.code == self.inner.code,
            r.inner.notes@ == self.inner.notes@,
    {
        let mut inner = self.inner;
        let mut i: usize = 0;
        while i < labels.len()
            invariant
                i <= labels@.len(),
                inner.labels@ == self.inner.labels@ + labels@.subrange(0, i as int),
                inner.severity == self.inner.severity,
                inner.src_id == self.inner.src_id,
                inner.message@ == self.inner.message@,
                inner.code == self.inner.code,
                inner.notes@ == self.inner.notes@,
            decreases labels@.len() - i,
        {
            inner.labels.push(labels[i]);
            i = i + 1;
            proof {
                assert(inner.labels@ =~= self.inner.labels@ + labels@.subrange(0, i as int));
            }
        }
        proof {
            assert(labels@.subrange(0, labels@.len() as int) =~= labels@);
        }
        DiagBuilder { inner }
    }

    /// Attaches one free-form note.
    pub fn with_note(self, note: &str) -> (r: Self)
        ensures
            r.inner.notes@.len() == self.inner.notes@.len() + 1,
            r.inner.notes@.subrange(0, self.inner.notes@.len() as int) == self.inner.notes@,
            r.inner.notes@[self.inner.notes@.len() as int]@ == note.spec_bytes(),
            r.inner.severity == self.inner.severity,
            r.inner.src_id == self.inner.src_id,
            r.inner.message@ == self.inner.message@,
            r.inner.code == self.inner.code,
            r.inner.labels@ == self.inner.labels@,
    {
        let mut inner = self.inner;
        inner.notes.push(note.as_bytes_vec());
        proof {
            assert(inner.notes@.subrange(0, self.inner.notes@.len() as int)
                =~= self.inner.notes@);
        }
        DiagBuilder { inner }
    }

    /// Attaches several free-form notes, in order.
    pub fn with_notes(self, notes: Vec<Vec<u8>>) -> (r: Self)
        ensures
            r.inner.notes@ == self.inner.notes@ + notes@,
            r.inner.severity == self.inner.severity,
            r.inner.src_id == self.inner.src_id,
            r.inner.message@ == self.inner.message@,
            r.inner.code == self.inner.code,
            r.inner.labels@ == self.inner.labels@,
    {
        let mut inner = self.inner;
        let mut rest = notes;
        inner.notes.append(&mut rest);
        DiagBuilder { inner }
    }

    /// Closes the builder and hands back the finished report.
    pub fn finish(self) -> (r: Diag)
        ensures
            r == self.inner,
    {
        self.inner
    }
}

} // verus!
