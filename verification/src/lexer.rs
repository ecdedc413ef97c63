//! The line lexer for syntax highlighting.
//!
//! `tokenize_first_line` locates the first non-blank line (with
//! trailing carriage returns removed, but not trimmed otherwise) and
//! splits it into classified token spans by longest-match,
//! leftmost-first scanning.  Offsets are byte offsets into the whole
//! buffer, not into the extracted line.  The lexer never fails: a line
//! that does not lex cleanly yields no spans at all.

use vstd::prelude::*;

use vstd::slice::slice_subrange;
use vstd::string::StringSliceAdditionalSpecFns;

use crate::grammar::ident_p;
use crate::grammar::ident_run_end;
use crate::grammar::is_ident_start;
use crate::grammar::is_lex_value_byte;
use crate::grammar::is_space;
use crate::grammar::lemma_run_len_bounds;
use crate::grammar::lex_value_p;
use crate::grammar::lex_value_run_end;
use crate::grammar::run_len;
use crate::grammar::space_p;
use crate::grammar::space_run_end;
use crate::lines::find_candidate;
use crate::lines::lemma_candidate_bounds;
use crate::lines::spec_candidate;
use crate::lines::spec_trim_cr;
use crate::lines::trim_cr;
use crate::slicing::clean_cut;
use crate::slicing::string_bytes;
use crate::slicing::substring_owned;

verus! {

/// The classification of a highlighting token.
#[derive(Debug, Clone, Copy, PartialEq, Eq, Structural)]
pub enum TokenKind {
    At,
    Ident,
    Equals,
    Whitespace,
    Value,
}

/// A classified token: `start` and `end` are byte offsets into the
/// original full buffer, and `text` is the matched substring, so that
/// `end - start == text.len()` in bytes.
#[derive(Debug, Clone, PartialEq, Eq)]
pub struct TokenSpan {
    pub kind: TokenKind,
    pub start: usize,
    pub end: usize,
    pub text: String,
}

/// The shape of a token: its kind and its extent.
pub struct SpecToken {
    pub kind: TokenKind,
    pub lo: int,
    pub hi: int,
}

/// The token starting at position `i` of the line: its kind and the
/// (longest-match) length, or length 0 when the byte cannot start a
/// token.
pub open spec fn spec_token_at(line: Seq<u8>, i: int) -> (TokenKind, int) {
    let b = line[i];
    if b == 64 {
        (TokenKind::At, 1)
    } else if b == 61 {
        (TokenKind::Equals, 1)
    } else if is_space(b) {
        (TokenKind::Whitespace, run_len(line, i, space_p()))
    } else if is_ident_start(b) {
        (TokenKind::Ident, run_len(line, i, ident_p()))
    } else if is_lex_value_byte(b) {
        (TokenKind::Value, run_len(line, i, lex_value_p()))
    } else {
        (TokenKind::At, 0)
    }
}

/// Longest-match, leftmost-first lexing of the line from position `i`:
/// the token shapes (with line-local offsets), or `None` when some
/// residual byte cannot be classified.
pub open spec fn spec_lex(line: Seq<u8>, i: int) -> Option<Seq<SpecToken>>
    decreases line.len() - i,
{
    if !(0 <= i) {
        None
    } else if i >= line.len() {
        Some(seq![])
    } else {
        let (kind, len) = spec_token_at(line, i);
        if len <= 0 || i + len > line.len() {
            None
        } else {
            match spec_lex(line, i + len) {
                Some(rest) => Some(seq![SpecToken { kind, lo: i, hi: i + len }] + rest),
                None => None,
            }
        }
    }
}

/// Token shapes moved by `d`: line-local offsets become buffer offsets.
pub open spec fn shift_tokens(ts: Seq<SpecToken>, d: int) -> Seq<SpecToken> {
    ts.map_values(|t: SpecToken| SpecToken { kind: t.kind, lo: t.lo + d, hi: t.hi + d })
}

/// The token shapes that the lexer owes on the buffer `b`, with
/// absolute byte offsets: empty when no candidate line exists or the
/// candidate line does not lex cleanly.
pub open spec fn spec_tokenize(b: Seq<u8>) -> Seq<SpecToken> {
    match spec_candidate(b, 0) {
        Option::None => seq![],
        Option::Some((ls, le)) => {
            let ce = spec_trim_cr(b, ls, le);
            match spec_lex(b.subrange(ls, ce), 0) {
                Option::Some(toks) => shift_tokens(toks, ls),
                Option::None => seq![],
            }
        },
    }
}

/// The shapes of executable spans.
pub open spec fn span_shapes(ss: Seq<TokenSpan>) -> Seq<SpecToken> {
    ss.map_values(
        |s: TokenSpan| SpecToken { kind: s.kind, lo: s.start as int, hi: s.end as int },
    )
}

/// The span's text is exactly the bytes of `b` in `[start, end)`.
pub open spec fn span_matches_buffer(s: TokenSpan, b: Seq<u8>) -> bool {
    &&& s.start <= s.end <= b.len()
    &&& string_bytes(s.text) == b.subrange(s.start as int, s.end as int)
}

/// Splits the first non-blank line of `src` into classified spans.
///
/// Never fails and keeps no state: the spans' kinds and extents are
/// exactly [`spec_tokenize`] of the buffer's bytes, and each span's
/// text is the buffer's substring at its extent.
pub fn tokenize_first_line(src: &str) -> (spans: Vec<TokenSpan>)
    ensures
        span_shapes(spans@) == spec_tokenize(src.spec_bytes()),
        forall|x: int|
            0 <= x < spans@.len() ==> span_matches_buffer(#[trigger] spans@[x], src.spec_bytes()),
{
    let bytes = src.as_bytes();
    match find_candidate(bytes) {
        None => {
            proof {
                assert(span_shapes(Seq::<TokenSpan>::empty()) =~= seq![]);
            }
            Vec::new()
        },
        Some((ls, le)) => {
            proof {
                lemma_candidate_bounds(bytes@, 0);
                crate::lines::lemma_trim_cr_core(bytes@, ls as int, le as int);
            }
            let ce = trim_cr(bytes, ls, le);
            lex_line(src, ls, ce)
        },
    }
}

/// Lexes the line `[ls, ce)` of the buffer, producing spans with
/// absolute offsets.
#[verifier::loop_isolation(false)]
#[verifier::rlimit(100)]
fn lex_line(src: &str, ls: usize, ce: usize) -> (spans: Vec<TokenSpan>)
    requires
        ls <= ce <= src.spec_bytes().len(),
        forall|k: int| ls <= k < ce ==> #[trigger] src.spec_bytes()[k] != 10,
        ls == 0 || src.spec_bytes()[ls - 1] == 10,
        ce < src.spec_bytes().len() ==> src.spec_bytes()[ce as int] < 128,
    ensures
        ({
            let lineg = src.spec_bytes().subrange(ls as int, ce as int);
            match spec_lex(lineg, 0) {
                Option::Some(toks) => span_shapes(spans@) == shift_tokens(toks, ls as int),
                Option::None => spans@ == Seq::<TokenSpan>::empty(),
            }
        }),
        forall|x: int|
            0 <= x < spans@.len() ==> span_matches_buffer(#[trigger] spans@[x], src.spec_bytes()),
{
    let ghost b = src.spec_bytes();
    let ghost lineg = b.subrange(ls as int, ce as int);
    let bytes = src.as_bytes();
    let line = slice_subrange(bytes, ls, ce);
    let n = line.len();
    proof {
        assert forall|k: int| 0 <= k < lineg.len() implies #[trigger] lineg[k] != 10 by {
            assert(lineg[k] == b[ls + k]);
        }
        lemma_lex_total(lineg, 0);
        if spec_lex(lineg, 0) is Some {
            let all = spec_lex(lineg, 0)->Some_0;
            assert(span_shapes(Seq::<TokenSpan>::empty()) + shift_tokens(all, ls as int)
                =~= shift_tokens(all, ls as int));
        }
        assert(span_shapes(Seq::<TokenSpan>::empty()) =~= Seq::<SpecToken>::empty());
    }

    let mut spans: Vec<TokenSpan> = Vec::new();
    let mut i: usize = 0;
    while i < n
        invariant
            0 <= i <= n,
            spec_lex(lineg, i as int) is Some,
            span_shapes(spans@) + shift_tokens(spec_lex(lineg, i as int)->Some_0, ls as int)
                == shift_tokens(spec_lex(lineg, 0)->Some_0, ls as int),
            forall|x: int|
                0 <= x < spans@.len() ==> span_matches_buffer(#[trigger] spans@[x], b),
            i == 0 || i == n || lineg[i - 1] < 128 || !is_lex_value_byte(lineg[i as int]),
        decreases n - i,
    {
        let c = line[i];
        let kind: TokenKind;
        let e2: usize;
        if c == 64 {
            kind = TokenKind::At;
            e2 = i + 1;
        } else if c == 61 {
            kind = TokenKind::Equals;
            e2 = i + 1;
        } else if c == 32 || c == 9 {
            kind = TokenKind::Whitespace;
            e2 = space_run_end(line, i);
            proof {
                lemma_run_len_bounds(lineg, i as int, space_p());
            }
        } else if c == 95 || (65 <= c && c <= 90) || (97 <= c && c <= 122) {
            kind = TokenKind::Ident;
            e2 = ident_run_end(line, i);
            proof {
                lemma_run_len_bounds(lineg, i as int, ident_p());
            }
        } else {
            kind = TokenKind::Value;
            e2 = lex_value_run_end(line, i);
            proof {
                assert(lineg[i as int] != 10);
                assert(is_lex_value_byte(lineg[i as int]));
                lemma_run_len_bounds(lineg, i as int, lex_value_p());
            }
        }
        proof {
            assert(spec_token_at(lineg, i as int) == (kind, e2 - i as int));
            assert(clean_cut(b, ls + i)) by {
                if kind is Value {
                    if i > 0 {
                        assert(lineg[i - 1] < 128);
                        assert(b[ls + i - 1] == lineg[i - 1]);
                    }
                } else {
                    assert(b[ls + i] == lineg[i as int]);
                }
            }
            assert(clean_cut(b, ls + e2)) by {
                if e2 < n {
                    if kind is Value {
                        assert(!is_lex_value_byte(lineg[e2 as int]));
                        assert(lineg[e2 as int] != 10);
                        assert(b[ls + e2] == lineg[e2 as int]);
                    } else {
                        assert(b[ls + e2 - 1] == lineg[e2 - 1]);
                    }
                } else if ls + e2 < b.len() {
                    assert(b[ls + e2] < 128);
                }
            }
        }
        let text = substring_owned(src, ls + i, ls + e2);
        let span = TokenSpan { kind, start: ls + i, end: ls + e2, text };
        proof {
            assert(string_bytes(span.text) =~= b.subrange(ls + i as int, ls + e2 as int));
            assert(span_matches_buffer(span, b));
            let tok = SpecToken { kind, lo: i as int, hi: e2 as int };
            let rest = spec_lex(lineg, e2 as int)->Some_0;
            assert(spec_lex(lineg, i as int)->Some_0 == seq![tok] + rest);
            assert(span_shapes(spans@.push(span)) =~= span_shapes(spans@) + seq![
                SpecToken { kind, lo: ls + i as int, hi: ls + e2 as int },
            ]);
            assert(shift_tokens(seq![tok] + rest, ls as int) =~= seq![
                SpecToken { kind, lo: ls + i as int, hi: ls + e2 as int },
            ] + shift_tokens(rest, ls as int));
            assert((span_shapes(spans@) + seq![
                SpecToken { kind, lo: ls + i as int, hi: ls + e2 as int },
            ]) + shift_tokens(rest, ls as int) =~= span_shapes(spans@) + (seq![
                SpecToken { kind, lo: ls + i as int, hi: ls + e2 as int },
            ] + shift_tokens(rest, ls as int)));
        }
        spans.push(span);
        i = e2;
    }
    proof {
        assert(spec_lex(lineg, i as int)->Some_0 =~= Seq::<SpecToken>::empty());
        assert(shift_tokens(Seq::<SpecToken>::empty(), ls as int) =~= Seq::<SpecToken>::empty());
        assert(span_shapes(spans@) + Seq::<SpecToken>::empty() =~= span_shapes(spans@));
    }
    spans
}

/// A line without newline bytes always lexes cleanly: every byte
/// starts or continues some token.
pub proof fn lemma_lex_total(line: Seq<u8>, i: int)
    requires
        0 <= i <= line.len(),
        forall|k: int| 0 <= k < line.len() ==> #[trigger] line[k] != 10,
    ensures
        spec_lex(line, i) is Some,
    decreases line.len() - i,
{
    if i < line.len() {
        let (kind, len) = spec_token_at(line, i);
        assert(1 <= len && i + len <= line.len()) by {
            let c = line[i];
            if c == 64 || c == 61 {
            } else if is_space(c) {
                crate::grammar::lemma_run_len_pos(line, i, space_p());
                lemma_run_len_bounds(line, i, space_p());
            } else if is_ident_start(c) {
                crate::grammar::lemma_run_len_pos(line, i, ident_p());
                lemma_run_len_bounds(line, i, ident_p());
            } else {
                assert(is_lex_value_byte(c));
                crate::grammar::lemma_run_len_pos(line, i, lex_value_p());
                lemma_run_len_bounds(line, i, lex_value_p());
            }
        }
        lemma_lex_total(line, i + len);
    }
}

} // verus!
