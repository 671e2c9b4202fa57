//! Lexical analysis of Escoop: token kinds, tokens, and the byte-level
//! lexer.
//!
//! The lexer is a pull-based state machine over the raw bytes of one
//! `Source`. Its working span always covers exactly the bytes consumed
//! since the last emitted token; it grows while a token is scanned, is cut
//! into the token's span on emission, and is reset to zero width at the new
//! position. Lexical errors are reported through the diagnostic engine and
//! never abort the token stream: an unterminated string still yields a
//! best-effort string token, and an unrecognized byte is skipped (with an
//! error) so that one bad character does not suppress later diagnostics.
//!
//! The functions below are specified against a mathematical model of the
//! token grammar: `next_token_spec` says which token starts at a given
//! position of the text, and `scan_clean` says whether reaching it raises
//! no error.

use vstd::prelude::*;
use vstd::string::StrSliceExecFns;
use vstd::string::StringSliceAdditionalSpecFns;

use crate::Source;
use crate::copy_range;
use crate::bytes_eq;
use crate::query::Database;
use crate::span::Span;
use crate::diag::Diag;
use crate::diag::Severity;

verus! {

/// Every kind of lexical token.
#[derive(Debug, Clone, Copy, PartialEq, Eq, Structural)]
pub enum TokenType {
    /// Identifier of items (e.g. `foo`); the token carries the matched text.
    Identifier,
    /// String literal (e.g. `'bar'`); the token carries the enclosed text.
    StringLit,
    /// Number literal (e.g. `5.4`); the token carries the matched text.
    NumberLit,
    /// The `identifier` keyword.
    IdentifierKey,
    /// The external-declaration keyword.
    Extern,
    /// The `func` keyword.
    Func,
    /// The `void` keyword.
    Void,
    /// The `is` keyword.
    Is,
    /// The `end` keyword.
    End,
    /// `,`
    Comma,
    /// `(`
    OpenParen,
    /// `)`
    CloseParen,
    /// `[`
    OpenBracket,
    /// `]`
    CloseBracket,
    /// `.`
    Dot,
    /// `=`
    Equals,
    /// `+`
    Plus,
    /// `-`
    Minus,
    /// `*`
    Star,
    /// `/`
    Slash,
    /// `:`
    Colon,
}

/// The payload a token might carry: the matched text of an identifier or
/// string literal, or the matched text of a number literal.
#[derive(Debug, Clone, PartialEq, Eq)]
pub enum LexerValue {
    /// Text payload of an identifier or string literal.
    Str(Vec<u8>),
    /// Matched text of a number literal.
    Number(Vec<u8>),
}

/// The bytes a payload carries, if any.
pub open spec fn value_bytes(v: Option<LexerValue>) -> Option<Seq<u8>> {
    match v {
        None => None,
        Some(LexerValue::Str(s)) => Some(s@),
        Some(LexerValue::Number(s)) => Some(s@),
    }
}

// ---------------------------------------------------------------------
// Byte classification
// ---------------------------------------------------------------------

/// ASCII whitespace: space, tab, line feed, form feed, carriage return.
pub open spec fn is_ws(b: u8) -> bool {
    b == 32 || b == 9 || b == 10 || b == 12 || b == 13
}

/// ASCII decimal digit.
pub open spec fn is_digit(b: u8) -> bool {
    '0' as u8 <= b <= '9' as u8
}

/// ASCII letter.
pub open spec fn is_alpha(b: u8) -> bool {
    'A' as u8 <= b <= 'Z' as u8 || 'a' as u8 <= b <= 'z' as u8
}

/// A byte that may continue an identifier: letter, digit, `-`, or `_`.
pub open spec fn is_ident_cont(b: u8) -> bool {
    is_alpha(b) || is_digit(b) || b == '-' as u8 || b == '_' as u8
}

/// The token kind of a single-byte punctuation symbol, if the byte is one.
pub open spec fn punct_token(b: u8) -> Option<TokenType> {
    if b == '(' as u8 {
        Some(TokenType::OpenParen)
    } else if b == ')' as u8 {
        Some(TokenType::CloseParen)
    } else if b == ',' as u8 {
        Some(TokenType::Comma)
    } else if b == '.' as u8 {
        Some(TokenType::Dot)
    } else if b == '=' as u8 {
        Some(TokenType::Equals)
    } else if b == '+' as u8 {
        Some(TokenType::Plus)
    } else if b == '-' as u8 {
        Some(TokenType::Minus)
    } else if b == '*' as u8 {
        Some(TokenType::Star)
    } else if b == '/' as u8 {
        Some(TokenType::Slash)
    } else if b == ':' as u8 {
        Some(TokenType::Colon)
    } else if b == '[' as u8 {
        Some(TokenType::OpenBracket)
    } else if b == ']' as u8 {
        Some(TokenType::CloseBracket)
    } else {
        None
    }
}

/// A byte that opens a recognized token: a quote, a punctuation symbol, a
/// digit, or a letter.
pub open spec fn starts_token(b: u8) -> bool {
    b == '\'' as u8 || punct_token(b) is Some || is_digit(b) || is_alpha(b)
}

fn ws_byte(b: u8) -> (r: bool)
    ensures
        r == is_ws(b),
{
    b == 32 || b == 9 || b == 10 || b == 12 || b == 13
}

fn digit_byte(b: u8) -> (r: bool)
    ensures
        r == is_digit(b),
{
    '0' as u8 <= b && b <= '9' as u8
}

fn alpha_byte(b: u8) -> (r: bool)
    ensures
        r == is_alpha(b),
{
    ('A' as u8 <= b && b <= 'Z' as u8) || ('a' as u8 <= b && b <= 'z' as u8)
}

fn ident_cont_byte(b: u8) -> (r: bool)
    ensures
        r == is_ident_cont(b),
{
    alpha_byte(b) || digit_byte(b) || b == '-' as u8 || b == '_' as u8
}

fn punct_byte(b: u8) -> (r: Option<TokenType>)
    ensures
        r == punct_token(b),
{
    if b == '(' as u8 {
        Some(TokenType::OpenParen)
    } else if b == ')' as u8 {
        Some(TokenType::CloseParen)
    } else if b == ',' as u8 {
        Some(TokenType::Comma)
    } else if b == '.' as u8 {
        Some(TokenType::Dot)
    } else if b == '=' as u8 {
        Some(TokenType::Equals)
    } else if b == '+' as u8 {
        Some(TokenType::Plus)
    } else if b == '-' as u8 {
        Some(TokenType::Minus)
    } else if b == '*' as u8 {
        Some(TokenType::Star)
    } else if b == '/' as u8 {
        Some(TokenType::Slash)
    } else if b == ':' as u8 {
        Some(TokenType::Colon)
    } else if b == '[' as u8 {
        Some(TokenType::OpenBracket)
    } else if b == ']' as u8 {
        Some(TokenType::CloseBracket)
    } else {
        None
    }
}

// ---------------------------------------------------------------------
// Keywords
// ---------------------------------------------------------------------

/// The keyword kind matching a whole word, if any.
#[verifier::opaque]
pub open spec fn keyword_kind(w: Seq<u8>) -> Option<TokenType> {
    if w == seq![
        'i' as u8,
        'd' as u8,
        'e' as u8,
        'n' as u8,
        't' as u8,
        'i' as u8,
        'f' as u8,
        'i' as u8,
        'e' as u8,
        'r' as u8,
    ] {
        Some(TokenType::IdentifierKey)
    } else if w == seq!['i' as u8, 's' as u8] {
        Some(TokenType::Is)
    } else if w == seq!['e' as u8, 'n' as u8, 'd' as u8] {
        Some(TokenType::End)
    } else if w == seq!['e' as u8, 'x' as u8, 't' as u8, 'e' as u8, 'r' as u8, 'n' as u8] {
        Some(TokenType::Extern)
    } else if w == seq!['f' as u8, 'u' as u8, 'n' as u8, 'c' as u8] {
        Some(TokenType::Func)
    } else if w == seq!['v' as u8, 'o' as u8, 'i' as u8, 'd' as u8] {
        Some(TokenType::Void)
    } else {
        None
    }
}

fn keyword_token(w: &Vec<u8>) -> (r: Option<TokenType>)
    ensures
        r == keyword_kind(w@),
{
    proof {
        reveal(keyword_kind);
    }
    let kw_identifier: Vec<u8> = vec![
        'i' as u8,
        'd' as u8,
        'e' as u8,
        'n' as u8,
        't' as u8,
        'i' as u8,
        'f' as u8,
        'i' as u8,
        'e' as u8,
        'r' as u8,
    ];
    let kw_is: Vec<u8> = vec!['i' as u8, 's' as u8];
    let kw_end: Vec<u8> = vec!['e' as u8, 'n' as u8, 'd' as u8];
    let kw_extern: Vec<u8> = vec![
        'e' as u8,
        'x' as u8,
        't' as u8,
        'e' as u8,
        'r' as u8,
        'n' as u8,
    ];
    let kw_func: Vec<u8> = vec!['f' as u8, 'u' as u8, 'n' as u8, 'c' as u8];
    let kw_void: Vec<u8> = vec!['v' as u8, 'o' as u8, 'i' as u8, 'd' as u8];
    if bytes_eq(w, &kw_identifier) {
        Some(TokenType::IdentifierKey)
    } else if bytes_eq(w, &kw_is) {
        Some(TokenType::Is)
    } else if bytes_eq(w, &kw_end) {
        Some(TokenType::End)
    } else if bytes_eq(w, &kw_extern) {
        Some(TokenType::Extern)
    } else if bytes_eq(w, &kw_func) {
        Some(TokenType::Func)
    } else if bytes_eq(w, &kw_void) {
        Some(TokenType::Void)
    } else {
        None
    }
}

// ---------------------------------------------------------------------
// The token grammar as a mathematical model
// ---------------------------------------------------------------------

/// First position at or after `i` holding a byte that is not whitespace,
/// or the end of the text.
pub open spec fn ws_end(t: Seq<u8>, i: int) -> int
    decreases t.len() - i,
{
    if i < 0 || i >= t.len() {
        i
    } else if is_ws(t[i]) {
        ws_end(t, i + 1)
    } else {
        i
    }
}

/// First position at or after `i` holding a byte that cannot continue an
/// identifier, or the end of the text.
pub open spec fn ident_end(t: Seq<u8>, i: int) -> int
    decreases t.len() - i,
{
    if i < 0 || i >= t.len() {
        i
    } else if is_ident_cont(t[i]) {
        ident_end(t, i + 1)
    } else {
        i
    }
}

/// First position at or after `i` where a number literal's run of digits
/// and at most one dot stops. `seen_dot` says whether a dot was already
/// consumed; a second dot ends the run without being consumed.
pub open spec fn num_end(t: Seq<u8>, i: int, seen_dot: bool) -> int
    decreases t.len() - i,
{
    if i < 0 || i >= t.len() {
        i
    } else if is_digit(t[i]) {
        num_end(t, i + 1, seen_dot)
    } else if t[i] == '.' as u8 && !seen_dot {
        num_end(t, i + 1, true)
    } else {
        i
    }
}

/// First position at or after `i` holding a closing quote or a line break,
/// or the end of the text: where a string literal's content stops.
pub open spec fn str_scan_end(t: Seq<u8>, i: int) -> int
    decreases t.len() - i,
{
    if i < 0 || i >= t.len() {
        i
    } else if t[i] == '\'' as u8 || t[i] == 10 {
        i
    } else {
        str_scan_end(t, i + 1)
    }
}

/// Whether the string literal opened by the quote at `i` is closed by a
/// quote before any line break or the end of the text.
pub open spec fn str_terminated(t: Seq<u8>, i: int) -> bool {
    let e = str_scan_end(t, i + 1);
    e < t.len() && t[e] == '\'' as u8
}

/// A token in the mathematical model: its kind, its half-open byte range,
/// and its payload bytes.
pub ghost struct SpecToken {
    pub kind: TokenType,
    pub start: int,
    pub end: int,
    pub value: Option<Seq<u8>>,
}

/// The token that starts exactly at position `i`, which must hold a byte
/// that opens a token.
#[verifier::opaque]
pub open spec fn token_at(t: Seq<u8>, i: int) -> SpecToken {
    let b = t[i];
    if b == '\'' as u8 {
        let e = str_scan_end(t, i + 1);
        if e < t.len() && t[e] == '\'' as u8 {
            SpecToken {
                kind: TokenType::StringLit,
                start: i,
                end: e + 1,
                value: Some(t.subrange(i + 1, e)),
            }
        } else {
            SpecToken {
                kind: TokenType::StringLit,
                start: i,
                end: e,
                value: Some(t.subrange(i + 1, e)),
            }
        }
    } else if punct_token(b) is Some {
        SpecToken { kind: punct_token(b)->Some_0, start: i, end: i + 1, value: None }
    } else if is_digit(b) {
        let e = num_end(t, i + 1, false);
        SpecToken { kind: TokenType::NumberLit, start: i, end: e, value: Some(t.subrange(i, e)) }
    } else {
        let e = ident_end(t, i + 1);
        let w = t.subrange(i, e);
        match keyword_kind(w) {
            Some(k) => SpecToken { kind: k, start: i, end: e, value: None },
            None => SpecToken { kind: TokenType::Identifier, start: i, end: e, value: Some(w) },
        }
    }
}

/// The next token of `t` at or after position `i`: whitespace and
/// unrecognized bytes are passed over, and `None` means the rest of the
/// text holds no token.
pub open spec fn next_token_spec(t: Seq<u8>, i: int) -> Option<SpecToken>
    decreases t.len() - i,
{
    if i < 0 || i >= t.len() {
        None
    } else if is_ws(t[i]) || !starts_token(t[i]) {
        next_token_spec(t, i + 1)
    } else {
        Some(token_at(t, i))
    }
}

/// Whether scanning from position `i` up to and including the next token
/// (or the end of the text) raises no error: no unrecognized byte is
/// passed over, and a string literal token found is terminated.
pub open spec fn scan_clean(t: Seq<u8>, i: int) -> bool
    decreases t.len() - i,
{
    if i < 0 || i >= t.len() {
        true
    } else if is_ws(t[i]) {
        scan_clean(t, i + 1)
    } else if !starts_token(t[i]) {
        false
    } else if t[i] == '\'' as u8 {
        str_terminated(t, i)
    } else {
        true
    }
}

// ---------------------------------------------------------------------
// Structure of the model
// ---------------------------------------------------------------------

/// Everything passed over on the way to the first non-whitespace position
/// is whitespace, and the position lies between the start and the end of
/// the text.
pub proof fn lemma_ws_end_bounds(t: Seq<u8>, i: int)
    requires
        0 <= i <= t.len(),
    ensures
        i <= ws_end(t, i) <= t.len(),
        forall|j: int| i <= j < ws_end(t, i) ==> is_ws(t[j]),
        ws_end(t, i) < t.len() ==> !is_ws(t[ws_end(t, i)]),
    decreases t.len() - i,
{
    if i < t.len() && is_ws(t[i]) {
        lemma_ws_end_bounds(t, i + 1);
    }
}

proof fn lemma_ident_end_bounds(t: Seq<u8>, i: int)
    requires
        0 <= i <= t.len(),
    ensures
        i <= ident_end(t, i) <= t.len(),
        forall|j: int| i <= j < ident_end(t, i) ==> is_ident_cont(t[j]),
        ident_end(t, i) < t.len() ==> !is_ident_cont(t[ident_end(t, i)]),
    decreases t.len() - i,
{
    if i < t.len() && is_ident_cont(t[i]) {
        lemma_ident_end_bounds(t, i + 1);
    }
}

proof fn lemma_num_end_bounds(t: Seq<u8>, i: int, seen_dot: bool)
    requires
        0 <= i <= t.len(),
    ensures
        i <= num_end(t, i, seen_dot) <= t.len(),
    decreases t.len() - i,
{
    if i < t.len() {
        if is_digit(t[i]) {
            lemma_num_end_bounds(t, i + 1, seen_dot);
        } else if t[i] == '.' as u8 && !seen_dot {
            lemma_num_end_bounds(t, i + 1, true);
        }
    }
}

proof fn lemma_str_scan_end_bounds(t: Seq<u8>, i: int)
    requires
        0 <= i <= t.len(),
    ensures
        i <= str_scan_end(t, i) <= t.len(),
        str_scan_end(t, i) < t.len() ==> (t[str_scan_end(t, i)] == '\'' as u8 || t[str_scan_end(
            t,
            i,
        )] == 10),
    decreases t.len() - i,
{
    if i < t.len() && t[i] != '\'' as u8 && t[i] != 10 {
        lemma_str_scan_end_bounds(t, i + 1);
    }
}

/// Passing over whitespace changes neither the next token nor whether the
/// scan to it is clean.
pub proof fn lemma_ws_skip_preserves(t: Seq<u8>, i: int)
    requires
        0 <= i <= t.len(),
    ensures
        next_token_spec(t, i) == next_token_spec(t, ws_end(t, i)),
        scan_clean(t, i) == scan_clean(t, ws_end(t, i)),
    decreases t.len() - i,
{
    if i < t.len() && is_ws(t[i]) {
        lemma_ws_skip_preserves(t, i + 1);
    }
}

/// A token starting at a token-opening byte covers at least that byte and
/// stays within the text.
pub proof fn lemma_token_at_bounds(t: Seq<u8>, i: int)
    requires
        0 <= i < t.len(),
        starts_token(t[i]),
    ensures
        token_at(t, i).start == i,
        i < token_at(t, i).end <= t.len(),
{
    reveal(token_at);
    let b = t[i];
    if b == '\'' as u8 {
        lemma_str_scan_end_bounds(t, i + 1);
    } else if punct_token(b) is Some {
    } else if is_digit(b) {
        lemma_num_end_bounds(t, i + 1, false);
    } else {
        lemma_ident_end_bounds(t, i + 1);
    }
}

/// The next token lies ahead of the scan position, stays within the text,
/// opens at a token-opening byte, and everything passed over before it is
/// whitespace or an unrecognized byte; when there is no next token, the
/// whole rest of the text is such bytes.
pub proof fn lemma_next_token_bounds(t: Seq<u8>, i: int)
    requires
        0 <= i,
    ensures
        next_token_spec(t, i) matches Some(st) ==> (i <= st.start && st.start < st.end <= t.len()
            && starts_token(t[st.start]) && !is_ws(t[st.start]) && st == token_at(t, st.start) && (
        forall|j: int| i <= j < st.start ==> (is_ws(t[j]) || !starts_token(t[j])))),
        next_token_spec(t, i) is None ==> (forall|j: int|
            i <= j < t.len() ==> (is_ws(t[j]) || !starts_token(t[j]))),
    decreases t.len() - i,
{
    if i < t.len() {
        if is_ws(t[i]) || !starts_token(t[i]) {
            lemma_next_token_bounds(t, i + 1);
        } else {
            lemma_token_at_bounds(t, i);
        }
    }
}

/// Every token of the text from position `i` on, in order.
pub open spec fn lex_all(t: Seq<u8>, i: int) -> Seq<SpecToken>
    decreases t.len() - i,
    via lex_all_decreases
{
    match next_token_spec(t, i) {
        None => Seq::empty(),
        Some(st) => seq![st] + lex_all(t, st.end),
    }
}

#[via_fn]
proof fn lex_all_decreases(t: Seq<u8>, i: int) {
    if 0 <= i {
        lemma_next_token_bounds(t, i);
    }
}

/// The token spans are ordered and disjoint, never empty, stay within the
/// text, and begin no earlier than `i`.
pub open spec fn tokens_ordered(t: Seq<u8>, toks: Seq<SpecToken>, i: int) -> bool {
    &&& forall|k: int|
        #![trigger toks[k]]
        0 <= k < toks.len() ==> (i <= toks[k].start && toks[k].start < toks[k].end <= t.len())
    &&& forall|k1: int, k2: int|
        #![trigger toks[k1], toks[k2]]
        0 <= k1 < k2 < toks.len() ==> toks[k1].end <= toks[k2].start
}

/// Position `j` lies inside the span of one of the tokens.
pub open spec fn in_token(toks: Seq<SpecToken>, j: int) -> bool {
    exists|k: int| #![trigger toks[k]] 0 <= k < toks.len() && toks[k].start <= j < toks[k].end
}

/// The text from position `i` on, rebuilt by concatenating, in order, the
/// gap before each token's slice, the slice itself, and finally what
/// follows the last token.
pub open spec fn reconstruct(t: Seq<u8>, toks: Seq<SpecToken>, i: int) -> Seq<u8>
    decreases toks.len(),
{
    if toks.len() == 0 {
        t.subrange(i, t.len() as int)
    } else {
        t.subrange(i, toks[0].start) + t.subrange(toks[0].start, toks[0].end) + reconstruct(
            t,
            toks.drop_first(),
            toks[0].end,
        )
    }
}

#[verifier::rlimit(100)]
proof fn lemma_lex_all_covers(t: Seq<u8>, i: int)
    requires
        0 <= i <= t.len(),
    ensures
        tokens_ordered(t, lex_all(t, i), i),
        forall|j: int|
            i <= j < t.len() && !in_token(lex_all(t, i), j) ==> (is_ws(t[j]) || !starts_token(
                t[j],
            )),
    decreases t.len() - i,
{
    lemma_next_token_bounds(t, i);
    match next_token_spec(t, i) {
        None => {
            assert(lex_all(t, i) =~= Seq::<SpecToken>::empty());
        },
        Some(st) => {
            lemma_lex_all_covers(t, st.end);
            let toks = lex_all(t, i);
            let rest = lex_all(t, st.end);
            assert(toks == seq![st] + rest);
            assert(toks.len() == 1 + rest.len());
            assert(toks[0] == st);
            assert(toks.drop_first() =~= rest);
            assert forall|k: int| #![trigger toks[k]] 0 <= k < toks.len() implies (i
                <= toks[k].start && toks[k].start < toks[k].end <= t.len()) by {
                if k > 0 {
                    assert(toks[k] == rest[k - 1]);
                }
            }
            assert forall|k1: int, k2: int|
                #![trigger toks[k1], toks[k2]]
                0 <= k1 < k2 < toks.len() implies toks[k1].end <= toks[k2].start by {
                assert(toks[k2] == rest[k2 - 1]);
                if k1 > 0 {
                    assert(toks[k1] == rest[k1 - 1]);
                }
            }
            assert forall|j: int|
                i <= j < t.len() && !in_token(toks, j) implies (is_ws(t[j]) || !starts_token(
                t[j],
            )) by {
                if j < st.start {
                } else if j < st.end {
                    assert(toks[0].start <= j < toks[0].end);
                    assert(in_token(toks, j));
                } else {
                    if in_token(rest, j) {
                        let k = choose|k: int|
                            #![trigger rest[k]]
                            0 <= k < rest.len() && rest[k].start <= j < rest[k].end;
                        assert(toks[k + 1] == rest[k]);
                        assert(in_token(toks, j));
                    }
                }
            }
        },
    }
}

proof fn lemma_reconstruct(t: Seq<u8>, i: int)
    requires
        0 <= i <= t.len(),
    ensures
        reconstruct(t, lex_all(t, i), i) == t.subrange(i, t.len() as int),
    decreases t.len() - i,
{
    lemma_next_token_bounds(t, i);
    match next_token_spec(t, i) {
        None => {
            assert(lex_all(t, i) =~= Seq::<SpecToken>::empty());
        },
        Some(st) => {
            lemma_reconstruct(t, st.end);
            let toks = lex_all(t, i);
            let rest = lex_all(t, st.end);
            assert(toks == seq![st] + rest);
            assert(toks[0] == st);
            assert(toks.drop_first() =~= rest);
            assert(reconstruct(t, toks, i) == t.subrange(i, st.start) + t.subrange(
                st.start,
                st.end,
            ) + t.subrange(st.end, t.len() as int));
            assert(t.subrange(i, st.start) + t.subrange(st.start, st.end) + t.subrange(
                st.end,
                t.len() as int,
            ) =~= t.subrange(i, t.len() as int));
        },
    }
}

/// Law: on text whose bytes all belong to the token grammar (whitespace or
/// token-opening), the spans of the lexed tokens are ordered, disjoint and
/// within the text, every byte between and around them is whitespace, and
/// concatenating each token's slice, in order, together with the
/// whitespace between them, reconstructs the source text exactly.
#[verifier::rlimit(100)]
pub proof fn lemma_round_trip(t: Seq<u8>)
    requires
        forall|j: int| 0 <= j < t.len() ==> (is_ws(t[j]) || starts_token(t[j])),
    ensures
        tokens_ordered(t, lex_all(t, 0), 0),
        forall|j: int| 0 <= j < t.len() && !in_token(lex_all(t, 0), j) ==> is_ws(t[j]),
        reconstruct(t, lex_all(t, 0), 0) == t,
{
    lemma_lex_all_covers(t, 0);
    lemma_reconstruct(t, 0);
    assert(t.subrange(0, t.len() as int) =~= t);
    assert forall|j: int| 0 <= j < t.len() && !in_token(lex_all(t, 0), j) implies is_ws(t[j]) by {
        assert(is_ws(t[j]) || starts_token(t[j]));
    }
}

/// Law: a word that starts with a letter and does not match a keyword
/// lexes to an identifier token whose payload is exactly the matched
/// slice, which runs to the first byte that cannot continue an identifier.
pub proof fn lemma_identifier_payload(t: Seq<u8>, i: int)
    requires
        0 <= i < t.len(),
        is_alpha(t[i]),
        keyword_kind(t.subrange(i, ident_end(t, i + 1))) is None,
    ensures
        next_token_spec(t, i) matches Some(st) && st.kind == TokenType::Identifier && st.start == i
            && st.end == ident_end(t, i + 1) && st.value == Some(
            t.subrange(i, ident_end(t, i + 1)),
        ),
{
    reveal(token_at);
    assert(punct_token(t[i]) is None);
    assert(next_token_spec(t, i) == Some(token_at(t, i)));
}

proof fn lemma_whitespace_only_from(t: Seq<u8>, i: int)
    requires
        0 <= i <= t.len(),
        forall|j: int| 0 <= j < t.len() ==> is_ws(t[j]),
    ensures
        next_token_spec(t, i) is None,
        scan_clean(t, i),
    decreases t.len() - i,
{
    if i < t.len() {
        lemma_whitespace_only_from(t, i + 1);
    }
}

/// Law: input consisting only of whitespace holds no token, and scanning
/// it raises no error, so the lexer yields an empty stream and leaves both
/// sticky flags as they were.
pub proof fn lemma_whitespace_only(t: Seq<u8>)
    requires
        forall|j: int| 0 <= j < t.len() ==> is_ws(t[j]),
    ensures
        next_token_spec(t, 0) is None,
        scan_clean(t, 0),
{
    lemma_whitespace_only_from(t, 0);
}

// ---------------------------------------------------------------------
// Tokens
// ---------------------------------------------------------------------

/// A classified, positioned unit of lexical output.
#[derive(Debug, Clone, PartialEq, Eq)]
pub struct Token {
    pub token_type: TokenType,
    pub span: Span,
    pub value: Option<LexerValue>,
}

impl Token {
    /// The payload variant matches the token's kind: identifiers and
    /// string literals carry text, number literals carry their matched
    /// text, and every other kind carries nothing.
    pub open spec fn wf(&self) -> bool {
        &&& self.span.wf()
        &&& match self.token_type {
            TokenType::Identifier | TokenType::StringLit => self.value matches Some(
                LexerValue::Str(_),
            ),
            TokenType::NumberLit => self.value matches Some(LexerValue::Number(_)),
            _ => self.value is None,
        }
    }

    /// The span of the token.
    pub fn span(&self) -> (r: Span)
        ensures
            r == self.span,
    {
        self.span
    }

    /// The payload of the token, borrowed.
    pub fn value(&self) -> (r: &Option<LexerValue>)
        ensures
            *r == self.value,
    {
        &self.value
    }

    /// The payload of the token, moved out.
    pub fn move_value(self) -> (r: Option<LexerValue>)
        ensures
            r == self.value,
    {
        self.value
    }

    /// The kind of the token.
    pub fn token_type(&self) -> (r: TokenType)
        ensures
            r == self.token_type,
    {
        self.token_type
    }

    /// The text the token displays as: its payload for identifiers and
    /// number literals, the quoted payload for string literals, and the
    /// fixed spelling of each keyword and punctuation symbol.
    pub fn display_bytes(&self) -> (r: Vec<u8>)
        ensures
            r@ == token_display(*self),
    {
        match self.token_type {
            TokenType::Identifier | TokenType::NumberLit => match &self.value {
                Some(LexerValue::Str(s)) => {
                    let r = copy_range(s, 0, s.len());
                    proof {
                        assert(r@ =~= s@);
                    }
                    r
                },
                Some(LexerValue::Number(s)) => {
                    let r = copy_range(s, 0, s.len());
                    proof {
                        assert(r@ =~= s@);
                    }
                    r
                },
                None => Vec::new(),
            },
            TokenType::StringLit => {
                let mut out: Vec<u8> = Vec::new();
                out.push('\'' as u8);
                match &self.value {
                    Some(LexerValue::Str(s)) => {
                        let mut i: usize = 0;
                        while i < s.len()
                            invariant
                                i <= s@.len(),
                                out@ == seq!['\'' as u8] + s@.subrange(0, i as int),
                            decreases s@.len() - i,
                        {
                            out.push(s[i]);
                            i = i + 1;
                            proof {
                                assert(out@ =~= seq!['\'' as u8] + s@.subrange(0, i as int));
                            }
                        }
                        proof {
                            assert(s@.subrange(0, s@.len() as int) =~= s@);
                        }
                    },
                    Some(LexerValue::Number(s)) => {
                        let mut i: usize = 0;
                        while i < s.len()
                            invariant
                                i <= s@.len(),
                                out@ == seq!['\'' as u8] + s@.subrange(0, i as int),
                            decreases s@.len() - i,
                        {
                            out.push(s[i]);
                            i = i + 1;
                            proof {
                                assert(out@ =~= seq!['\'' as u8] + s@.subrange(0, i as int));
                            }
                        }
                        proof {
                            assert(s@.subrange(0, s@.len() as int) =~= s@);
                        }
                    },
                    None => {},
                }
                out.push('\'' as u8);
                proof {
                    assert(out@ =~= token_display(*self));
                }
                out
            },
            TokenType::IdentifierKey => ("identifier").as_bytes_vec(),
            TokenType::Extern => {
                let r: Vec<u8> = vec![
                    'e' as u8,
                    'x' as u8,
                    't' as u8,
                    'e' as u8,
                    'r' as u8,
                    'n' as u8,
                ];
                r
            },
            TokenType::Func => ("func").as_bytes_vec(),
            TokenType::Void => ("void").as_bytes_vec(),
            TokenType::Is => ("is").as_bytes_vec(),
            TokenType::End => ("end").as_bytes_vec(),
            TokenType::Comma => (",").as_bytes_vec(),
            TokenType::OpenParen => ("(").as_bytes_vec(),
            TokenType::CloseParen => (")").as_bytes_vec(),
            TokenType::OpenBracket => ("[").as_bytes_vec(),
            TokenType::CloseBracket => ("]").as_bytes_vec(),
            TokenType::Dot => (".").as_bytes_vec(),
            TokenType::Equals => ("=").as_bytes_vec(),
            TokenType::Plus => ("+").as_bytes_vec(),
            TokenType::Minus => ("-").as_bytes_vec(),
            TokenType::Star => ("*").as_bytes_vec(),
            TokenType::Slash => ("/").as_bytes_vec(),
            TokenType::Colon => (":").as_bytes_vec(),
        }
    }
}

/// The text a token displays as.
pub open spec fn token_display(tok: Token) -> Seq<u8> {
    match tok.token_type {
        TokenType::Identifier | TokenType::NumberLit => match value_bytes(tok.value) {
            Some(v) => v,
            None => Seq::empty(),
        },
        TokenType::StringLit => seq!['\'' as u8] + (match value_bytes(tok.value) {
            Some(v) => v,
            None => Seq::empty(),
        }) + seq!['\'' as u8],
        TokenType::IdentifierKey => ("identifier").spec_bytes(),
        TokenType::Extern => seq![
            'e' as u8,
            'x' as u8,
            't' as u8,
            'e' as u8,
            'r' as u8,
            'n' as u8,
        ],
        TokenType::Func => ("func").spec_bytes(),
        TokenType::Void => ("void").spec_bytes(),
        TokenType::Is => ("is").spec_bytes(),
        TokenType::End => ("end").spec_bytes(),
        TokenType::Comma => (",").spec_bytes(),
        TokenType::OpenParen => ("(").spec_bytes(),
        TokenType::CloseParen => (")").spec_bytes(),
        TokenType::OpenBracket => ("[").spec_bytes(),
        TokenType::CloseBracket => ("]").spec_bytes(),
        TokenType::Dot => (".").spec_bytes(),
        TokenType::Equals => ("=").spec_bytes(),
        TokenType::Plus => ("+").spec_bytes(),
        TokenType::Minus => ("-").spec_bytes(),
        TokenType::Star => ("*").spec_bytes(),
        TokenType::Slash => ("/").spec_bytes(),
        TokenType::Colon => (":").spec_bytes(),
    }
}

// ---------------------------------------------------------------------
// The lexer
// ---------------------------------------------------------------------

/// Escoop lexical analyzer. Turns the text of a source into tokens, one
/// per call of `next`.
pub struct Lexer {
    pub src: Source,
    pub span: Span,
}

impl Lexer {
    /// The working span lies inside the source's text and belongs to it.
    pub open spec fn wf(&self) -> bool {
        &&& self.src.wf()
        &&& self.span.src_id == self.src.id
        &&& self.span.start <= self.span.end
        &&& self.span.end <= self.src.text@.len()
    }

    /// The current scan position: the end of the working span.
    pub open spec fn pos(&self) -> int {
        self.span.end as int
    }

    /// Builds a lexer over a source, starting at the very beginning.
    pub fn new(src: &Source) -> (r: Lexer)
        requires
            src.wf(),
        ensures
            r.wf(),
            r.src.id == src.id,
            r.src.path@ == src.path@,
            r.src.text@ == src.text@,
            r.pos() == 0,
            r.span.start == 0,
    {
        Lexer { src: src.clone(), span: Span::new(src) }
    }

    /// Consumes one byte, growing the working span over it; nothing happens
    /// at end-of-input.
    pub fn next_char(&mut self) -> (r: Option<u8>)
        requires
            old(self).wf(),
        ensures
            final(self).wf(),
            final(self).src == old(self).src,
            final(self).span.start == old(self).span.start,
            old(self).pos() < old(self).src.text@.len() ==> {
                &&& r == Some(old(self).src.text@[old(self).pos()])
                &&& final(self).pos() == old(self).pos() + 1
            },
            old(self).pos() >= old(self).src.text@.len() ==> {
                &&& r is None
                &&& final(self).pos() == old(self).pos()
            },
    {
        let p = self.span.end as usize;
        if p < self.src.text.len() {
            let b = self.src.text[p];
            self.span.grow_front(1);
            Some(b)
        } else {
            None
        }
    }

    /// Returns the byte at the current position without consuming it.
    pub fn peek_char(&self) -> (r: Option<u8>)
        requires
            self.wf(),
        ensures
            r == (if self.pos() < self.src.text@.len() {
                Some(self.src.text@[self.pos()])
            } else {
                None::<u8>
            }),
    {
        let p = self.span.end as usize;
        if p < self.src.text.len() {
            Some(self.src.text[p])
        } else {
            None
        }
    }

    /// Cuts the working span down to zero width at the current position.
    pub fn update_span(&mut self)
        requires
            old(self).wf(),
        ensures
            final(self).wf(),
            final(self).src == old(self).src,
            final(self).span.start == final(self).span.end,
            final(self).pos() == old(self).pos(),
    {
        self.span.update();
    }

    /// Passes over a run of whitespace and cuts the working span after it,
    /// so whitespace never becomes part of a token's span.
    pub fn skip_whitespace(&mut self)
        requires
            old(self).wf(),
        ensures
            final(self).wf(),
            final(self).src == old(self).src,
            final(self).span.start == final(self).span.end,
            final(self).pos() == ws_end(old(self).src.text@, old(self).pos()),
    {
        loop
            invariant
                self.wf(),
                self.src == old(self).src,
                old(self).pos() <= self.pos(),
                ws_end(self.src.text@, old(self).pos()) == ws_end(self.src.text@, self.pos()),
            ensures
                self.wf(),
                self.src == old(self).src,
                old(self).pos() <= self.pos(),
                ws_end(self.src.text@, old(self).pos()) == ws_end(self.src.text@, self.pos()),
                self.pos() == self.src.text@.len() || !is_ws(self.src.text@[self.pos()]),
            decreases self.src.text@.len() - self.pos(),
        {
            let p = self.span.end as usize;
            if p >= self.src.text.len() {
                break;
            }
            let b = self.src.text[p];
            if !ws_byte(b) {
                break;
            }
            self.span.grow_front(1);
        }
        proof {
            assert(ws_end(self.src.text@, self.pos()) == self.pos());
        }
        self.span.update();
    }

    /// True when the whole text has been consumed.
    pub fn eof(&self) -> (r: bool)
        requires
            self.wf(),
        ensures
            r == (self.pos() == self.src.text@.len()),
    {
        (self.span.end as usize) == self.src.text.len()
    }

    /// Lexes the identifier or keyword starting at the current position.
    fn lex_ident(&mut self) -> (tok: Token)
        requires
            old(self).wf(),
            old(self).span.start == old(self).span.end,
            old(self).pos() < old(self).src.text@.len(),
            is_alpha(old(self).src.text@[old(self).pos()]),
        ensures
            final(self).wf(),
            final(self).src == old(self).src,
            final(self).span.start == final(self).span.end,
            ({
                let st = token_at(old(self).src.text@, old(self).pos());
                &&& tok.token_type == st.kind
                &&& tok.span.src_id == old(self).src.id
                &&& tok.span.start as int == st.start
                &&& tok.span.end as int == st.end
                &&& value_bytes(tok.value) == st.value
                &&& tok.wf()
                &&& final(self).pos() == st.end
            }),
    {
        proof {
            reveal(token_at);
        }
        let ghost t = self.src.text@;
        let ghost i = self.pos();
        let s = self.span.end;
        self.span.grow_front(1);
        loop
            invariant
                self.wf(),
                self.src == old(self).src,
                t == self.src.text@,
                self.span.start == s,
                i + 1 <= self.pos() <= t.len(),
                ident_end(t, i + 1) == ident_end(t, self.pos()),
            ensures
                self.wf(),
                self.src == old(self).src,
                t == self.src.text@,
                self.span.start == s,
                i + 1 <= self.pos() <= t.len(),
                self.pos() == ident_end(t, i + 1),
            decreases t.len() - self.pos(),
        {
            let p = self.span.end as usize;
            if p >= self.src.text.len() {
                break;
            }
            let c = self.src.text[p];
            if !ident_cont_byte(c) {
                break;
            }
            self.span.grow_front(1);
        }
        let e = self.span.end;
        let w = copy_range(&self.src.text, s as usize, e as usize);
        let kind = keyword_token(&w);
        proof {
            reveal(token_at);
            assert(kind matches Some(k2) ==> !(k2 == TokenType::Identifier || k2
                == TokenType::StringLit || k2 == TokenType::NumberLit)) by {
                reveal(keyword_kind);
            }
        }
        let tok = match kind {
            Some(k) => Token { token_type: k, span: self.span, value: None },
            None => Token {
                token_type: TokenType::Identifier,
                span: self.span,
                value: Some(LexerValue::Str(w)),
            },
        };
        self.update_span();
        tok
    }

    /// Lexes the number literal starting at the current position: a greedy
    /// run of digits with at most one dot.
    fn lex_number(&mut self) -> (tok: Token)
        requires
            old(self).wf(),
            old(self).span.start == old(self).span.end,
            old(self).pos() < old(self).src.text@.len(),
            is_digit(old(self).src.text@[old(self).pos()]),
        ensures
            final(self).wf(),
            final(self).src == old(self).src,
            final(self).span.start == final(self).span.end,
            ({
                let st = token_at(old(self).src.text@, old(self).pos());
                &&& tok.token_type == st.kind
                &&& tok.span.src_id == old(self).src.id
                &&& tok.span.start as int == st.start
                &&& tok.span.end as int == st.end
                &&& value_bytes(tok.value) == st.value
                &&& tok.wf()
                &&& final(self).pos() == st.end
            }),
    {
        proof {
            reveal(token_at);
        }
        let ghost t = self.src.text@;
        let ghost i = self.pos();
        let s = self.span.end;
        self.span.grow_front(1);
        let mut seen_dot = false;
        loop
            invariant
                self.wf(),
                self.src == old(self).src,
                t == self.src.text@,
                self.span.start == s,
                i + 1 <= self.pos() <= t.len(),
                num_end(t, i + 1, false) == num_end(t, self.pos(), seen_dot),
            ensures
                self.wf(),
                self.src == old(self).src,
                t == self.src.text@,
                self.span.start == s,
                i + 1 <= self.pos() <= t.len(),
                self.pos() == num_end(t, i + 1, false),
            decreases t.len() - self.pos(),
        {
            let p = self.span.end as usize;
            if p >= self.src.text.len() {
                break;
            }
            let c = self.src.text[p];
            if digit_byte(c) {
                self.span.grow_front(1);
            } else if c == '.' as u8 && !seen_dot {
                seen_dot = true;
                self.span.grow_front(1);
            } else {
                break;
            }
        }
        let e = self.span.end;
        let w = copy_range(&self.src.text, s as usize, e as usize);
        let tok = Token {
            token_type: TokenType::NumberLit,
            span: self.span,
            value: Some(LexerValue::Number(w)),
        };
        self.update_span();
        tok
    }

    /// Lexes the string literal opened by the quote at the current
    /// position. The content runs to the closing quote; at a line break or
    /// the end of the input instead, an "unterminated string" error is
    /// raised, the span stops right there, and a best-effort token carrying
    /// the partial content is still produced.
    fn lex_string(&mut self, db: &mut Database) -> (tok: Token)
        requires
            old(self).wf(),
            old(self).span.start == old(self).span.end,
            old(self).pos() < old(self).src.text@.len(),
            old(self).src.text@[old(self).pos()] == '\'' as u8,
        ensures
            final(self).wf(),
            final(self).src == old(self).src,
            final(self).span.start == final(self).span.end,
            ({
                let st = token_at(old(self).src.text@, old(self).pos());
                &&& tok.token_type == st.kind
                &&& tok.span.src_id == old(self).src.id
                &&& tok.span.start as int == st.start
                &&& tok.span.end as int == st.end
                &&& value_bytes(tok.value) == st.value
                &&& tok.wf()
                &&& final(self).pos() == st.end
            }),
            final(db).next_id == old(db).next_id,
            final(db).bug_found == old(db).bug_found,
            old(db).diags@.is_prefix_of(final(db).diags@),
            forall|k: int|
                old(db).diags@.len() <= k < final(db).diags@.len()
                    ==> final(db).diags@[k].severity == Severity::Error,
            final(db).error_hit == (old(db).error_hit || !str_terminated(
                old(self).src.text@,
                old(self).pos(),
            )),
            str_terminated(old(self).src.text@, old(self).pos())
                ==> final(db).diags@ == old(db).diags@,
            !str_terminated(old(self).src.text@, old(self).pos())
                ==> final(db).diags@.len() == old(db).diags@.len() + 1,
    {
        proof {
            reveal(token_at);
        }
        let ghost t = self.src.text@;
        let ghost i = self.pos();
        let s = self.span.end;
        self.span.grow_front(1);
        let mut terminated = false;
        loop
            invariant_except_break
                !terminated,
                str_scan_end(t, i + 1) == str_scan_end(t, self.pos()),
            invariant
                self.wf(),
                self.src == old(self).src,
                t == self.src.text@,
                self.span.start == s,
                i + 1 <= self.pos() <= t.len(),
            ensures
                self.wf(),
                self.src == old(self).src,
                t == self.src.text@,
                self.span.start == s,
                i + 1 <= self.pos() <= t.len(),
                terminated ==> ({
                    let e = str_scan_end(t, i + 1);
                    &&& e < t.len()
                    &&& t[e] == '\'' as u8
                    &&& self.pos() == e + 1
                }),
                !terminated ==> ({
                    let e = str_scan_end(t, i + 1);
                    &&& self.pos() == e
                    &&& (e == t.len() || t[e] == 10)
                }),
            decreases t.len() - self.pos(),
        {
            let p = self.span.end as usize;
            if p >= self.src.text.len() {
                break;
            }
            let c = self.src.text[p];
            if c == '\'' as u8 {
                self.span.grow_front(1);
                terminated = true;
                break;
            }
            if c == 10 {
                break;
            }
            self.span.grow_front(1);
        }
        proof {
            lemma_str_scan_end_bounds(t, i + 1);
        }
        let e_tok = self.span.end;
        let content_end = if terminated {
            e_tok - 1
        } else {
            e_tok
        };
        let w = copy_range(&self.src.text, (s + 1) as usize, content_end as usize);
        if !terminated {
            let sp = self.span;
            Diag::error(&self.src).with_message("unterminated string").with_label(sp).finish().emit(
                db,
            );
            proof {
                assert(old(db).diags@.is_prefix_of(db.diags@)) by {
                    assert(old(db).diags@ =~= db.diags@.subrange(0, old(db).diags@.len() as int));
                }
            }
        }
        let tok = Token {
            token_type: TokenType::StringLit,
            span: self.span,
            value: Some(LexerValue::Str(w)),
        };
        self.update_span();
        tok
    }

    /// Produces the next token, or nothing once the input is exhausted.
    ///
    /// Whitespace is passed over silently. An unrecognized byte raises an
    /// "unknown character" error bound to its one-byte span and is skipped,
    /// so lexing continues behind it. The session's sticky "error observed"
    /// flag is set exactly when an error was raised on the way to the
    /// returned token; the stream itself never fails.
    pub fn next(&mut self, db: &mut Database) -> (r: Option<Token>)
        requires
            old(self).wf(),
        ensures
            final(self).wf(),
            final(self).src == old(self).src,
            final(self).span.start == final(self).span.end,
            old(self).pos() <= final(self).pos() <= old(self).src.text@.len(),
            r is None ==> (next_token_spec(old(self).src.text@, old(self).pos()) is None
                && final(self).pos() == old(self).src.text@.len()),
            r matches Some(tok) ==> (next_token_spec(old(self).src.text@, old(self).pos())
                matches Some(st) && tok.token_type == st.kind && tok.span.src_id == old(self).src.id
                && tok.span.start as int == st.start && tok.span.end as int == st.end
                && value_bytes(tok.value) == st.value && tok.wf() && final(self).pos() == st.end),
            final(db).next_id == old(db).next_id,
            final(db).bug_found == old(db).bug_found,
            old(db).diags@.is_prefix_of(final(db).diags@),
            forall|k: int|
                old(db).diags@.len() <= k < final(db).diags@.len()
                    ==> final(db).diags@[k].severity == Severity::Error,
            final(db).error_hit == (old(db).error_hit || !scan_clean(
                old(self).src.text@,
                old(self).pos(),
            )),
            scan_clean(old(self).src.text@, old(self).pos()) ==> final(db).diags@ == old(
                db,
            ).diags@,
            !scan_clean(old(self).src.text@, old(self).pos()) ==> final(db).diags@.len() > old(
                db,
            ).diags@.len(),
    {
        let ghost t = old(self).src.text@;
        let ghost i0 = old(self).pos();
        loop
            invariant
                self.wf(),
                self.src == old(self).src,
                t == self.src.text@,
                i0 == old(self).pos(),
                i0 <= self.pos() <= t.len(),
                next_token_spec(t, i0) == next_token_spec(t, self.pos()),
                db.next_id == old(db).next_id,
                db.bug_found == old(db).bug_found,
                old(db).diags@.is_prefix_of(db.diags@),
                forall|k: int|
                    old(db).diags@.len() <= k < db.diags@.len() ==> db.diags@[k].severity
                        == Severity::Error,
                (db.error_hit == old(db).error_hit && db.diags@ == old(db).diags@ && scan_clean(
                    t,
                    i0,
                ) == scan_clean(t, self.pos())) || (db.error_hit && !scan_clean(t, i0)
                    && db.diags@.len() > old(db).diags@.len()),
            decreases t.len() - self.pos(),
        {
            let ghost p_before = self.pos();
            self.skip_whitespace();
            proof {
                lemma_ws_end_bounds(t, p_before);
                lemma_ws_skip_preserves(t, p_before);
            }
            if self.eof() {
                proof {
                    assert(next_token_spec(t, self.pos()) is None);
                    assert(scan_clean(t, self.pos()));
                }
                return None;
            }
            let b = self.peek_char().unwrap();
            if b == '\'' as u8 {
                let ghost s = self.pos();
                proof {
                    assert(next_token_spec(t, s) == Some(token_at(t, s)));
                    assert(scan_clean(t, s) == str_terminated(t, s));
                }
                let ghost db_pre = *db;
                let tok = self.lex_string(db);
                proof {
                    lemma_token_at_bounds(t, s);
                    crate::diag::lemma_diags_extend(old(db).diags@, db_pre.diags@, db.diags@);
                }
                return Some(tok);
            }
            match punct_byte(b) {
                Some(k) => {
                    let ghost s = self.pos();
                    proof {
                        reveal(token_at);
                        assert(next_token_spec(t, s) == Some(token_at(t, s)));
                        assert(scan_clean(t, s));
                        lemma_token_at_bounds(t, s);
                    }
                    self.span.grow_front(1);
                    let tok = Token { token_type: k, span: self.span, value: None };
                    self.update_span();
                    return Some(tok);
                },
                None => {},
            }
            if digit_byte(b) {
                let ghost s = self.pos();
                proof {
                    assert(next_token_spec(t, s) == Some(token_at(t, s)));
                    assert(scan_clean(t, s));
                    lemma_token_at_bounds(t, s);
                }
                let tok = self.lex_number();
                return Some(tok);
            }
            if alpha_byte(b) {
                let ghost s = self.pos();
                proof {
                    assert(next_token_spec(t, s) == Some(token_at(t, s)));
                    assert(scan_clean(t, s));
                    lemma_token_at_bounds(t, s);
                }
                let tok = self.lex_ident();
                return Some(tok);
            }
            let ghost s = self.pos();
            proof {
                assert(next_token_spec(t, s) == next_token_spec(t, s + 1));
                assert(!scan_clean(t, s));
            }
            self.span.grow_front(1);
            let sp = self.span;
            let mut msg: Vec<u8> = ("unknown character `").as_bytes_vec();
            msg.push(b);
            msg.push('`' as u8);
            let ghost db_pre = *db;
            Diag::error(&self.src).with_message_bytes(msg).with_label(sp).finish().emit(db);
            proof {
                assert(db_pre.diags@.is_prefix_of(db.diags@)) by {
                    assert(db_pre.diags@ =~= db.diags@.subrange(0, db_pre.diags@.len() as int));
                }
                crate::diag::lemma_diags_extend(old(db).diags@, db_pre.diags@, db.diags@);
            }
            self.update_span();
        }
    }
}

} // verus!
