//! Laws relating the parser and the lexer.
//!
//! These proof functions state the crate-level guarantees: blank
//! buffers yield nothing; parsing is a pure function of the buffer;
//! spans cover the candidate line contiguously, starting at the byte
//! length of the skipped blank lines; and a buffer that parses as a
//! directive always lexes in full.

use vstd::prelude::*;

use vstd::utf8::encode_utf8_decode_utf8;

use crate::lexer::span_matches_buffer;
use crate::lexer::span_shapes;
use crate::lexer::spec_lex;
use crate::lexer::spec_token_at;
use crate::lexer::spec_tokenize;
use crate::lexer::SpecToken;
use crate::lexer::TokenSpan;
use crate::lines::all_lines_blank;
use crate::lines::blank_run_end;
use crate::lines::is_blank_byte;
use crate::lines::lemma_all_blank_no_candidate;
use crate::lines::lemma_candidate_bounds;
use crate::lines::lemma_line_end_bounds;
use crate::lines::lemma_one_byte_blank_run;
use crate::lines::lemma_trim_cr_core;
use crate::lines::spec_candidate;
use crate::lines::spec_line_end;
use crate::lines::spec_trim_cr;
use crate::parser::outcome_of;
use crate::parser::spec_parse_first_line;
use crate::parser::ParsedFirstLine;
use crate::parser::ParseError;
use crate::slicing::string_bytes;

verus! {

/// A buffer of blank lines only (or no bytes at all) has no candidate
/// line: parsing returns `Empty` and lexing returns no spans.
pub proof fn lemma_blank_buffer(b: Seq<u8>)
    requires
        all_lines_blank(b, 0),
    ensures
        spec_parse_first_line(b) is Empty,
        spec_tokenize(b) == Seq::<SpecToken>::empty(),
{
    lemma_all_blank_no_candidate(b, 0);
}

/// A buffer holding only one-byte whitespace characters consists of
/// blank lines, so parsing returns `Empty` and lexing returns no
/// spans.
pub proof fn lemma_one_byte_blank_buffer(b: Seq<u8>)
    requires
        forall|k: int| 0 <= k < b.len() ==> is_blank_byte(#[trigger] b[k]) || b[k] == 10,
    ensures
        spec_parse_first_line(b) is Empty,
        spec_tokenize(b) == Seq::<SpecToken>::empty(),
{
    lemma_one_byte_blank_lines(b, 0);
    lemma_blank_buffer(b);
}

proof fn lemma_one_byte_blank_lines(b: Seq<u8>, i: int)
    requires
        0 <= i <= b.len(),
        forall|k: int| 0 <= k < b.len() ==> is_blank_byte(#[trigger] b[k]) || b[k] == 10,
    ensures
        all_lines_blank(b, i),
    decreases b.len() - i + 1,
{
    if i < b.len() {
        let e = spec_line_end(b, i);
        lemma_line_end_bounds(b, i);
        lemma_one_byte_blank_run(b, i, e);
        if e < b.len() {
            lemma_one_byte_blank_lines(b, e + 1);
        } else {
            assert(all_lines_blank(b, e + 1));
        }
    }
}

/// Parsing keeps no hidden state: any two results that meet
/// `parse_first_line`'s contract on the same buffer denote the same
/// outcome, so two calls on one buffer agree.
pub proof fn lemma_parse_idempotent(
    b: Seq<u8>,
    r1: Result<ParsedFirstLine, ParseError>,
    r2: Result<ParsedFirstLine, ParseError>,
)
    requires
        outcome_of(r1) == spec_parse_first_line(b),
        outcome_of(r2) == spec_parse_first_line(b),
    ensures
        outcome_of(r1) == outcome_of(r2),
{
}

/// An outcome pins string contents: strings with the same UTF-8 bytes
/// hold the same characters, so agreeing outcomes mean agreeing text.
pub proof fn lemma_same_bytes_same_chars(s1: String, s2: String)
    requires
        string_bytes(s1) == string_bytes(s2),
    ensures
        s1@ == s2@,
{
    encode_utf8_decode_utf8(s1@);
    encode_utf8_decode_utf8(s2@);
}

/// Two directives with one outcome agree character for character: the
/// names hold the same text, and the pair lists pair off with equal
/// keys and equal values.
pub proof fn lemma_same_outcome_same_text(
    n1: String,
    p1: Vec<(String, String)>,
    n2: String,
    p2: Vec<(String, String)>,
)
    requires
        outcome_of(Ok(ParsedFirstLine::Directive { name: n1, pairs: p1 })) == outcome_of(
            Ok(ParsedFirstLine::Directive { name: n2, pairs: p2 }),
        ),
    ensures
        n1@ == n2@,
        p1@.len() == p2@.len(),
        forall|i: int|
            0 <= i < p1@.len() ==> (#[trigger] p1@[i]).0@ == p2@[i].0@ && p1@[i].1@ == p2@[i].1@,
{
    lemma_same_bytes_same_chars(n1, n2);
    assert(crate::parser::view_pairs(p1@).len() == p1@.len());
    assert(crate::parser::view_pairs(p2@).len() == p2@.len());
    assert forall|i: int|
        0 <= i < p1@.len() implies (#[trigger] p1@[i]).0@ == p2@[i].0@ && p1@[i].1@
        == p2@[i].1@ by {
        assert(crate::parser::view_pairs(p1@)[i] == crate::parser::view_pairs(p2@)[i]);
        lemma_same_bytes_same_chars(p1@[i].0, p2@[i].0);
        lemma_same_bytes_same_chars(p1@[i].1, p2@[i].1);
    }
}

/// Adjacent spans touch: span `x` ends where span `x + 1` starts.
pub open spec fn spans_adjacent_at(spans: Seq<TokenSpan>, x: int) -> bool {
    spans[x].end == spans[x + 1].start
}

/// Adjacent tokens touch: token `x` ends where token `x + 1` starts.
pub open spec fn tokens_adjacent_at(toks: Seq<SpecToken>, x: int) -> bool {
    toks[x].hi == toks[x + 1].lo
}

/// Tokens lexed from position `i` tile the line: the first starts at
/// `i`, each begins where the one before it ends, and the last ends at
/// the end of the line.
#[verifier::rlimit(100)]
pub proof fn lemma_lex_covers(line: Seq<u8>, i: int)
    requires
        0 <= i <= line.len(),
        spec_lex(line, i) is Some,
    ensures
        ({
            let toks = spec_lex(line, i)->Some_0;
            &&& toks.len() == 0 ==> i == line.len()
            &&& toks.len() > 0 ==> toks[0].lo == i && toks[toks.len() - 1].hi == line.len()
            &&& forall|x: int|
                0 <= x < toks.len() ==> i <= (#[trigger] toks[x]).lo < toks[x].hi <= line.len()
            &&& forall|x: int|
                0 <= x < toks.len() - 1 ==> #[trigger] tokens_adjacent_at(toks, x)
        }),
    decreases line.len() - i,
{
    if i < line.len() {
        let (kind, len) = spec_token_at(line, i);
        let toks = spec_lex(line, i)->Some_0;
        let rest = spec_lex(line, i + len)->Some_0;
        lemma_lex_covers(line, i + len);
        assert(toks == seq![SpecToken { kind, lo: i, hi: i + len }] + rest);
        assert(toks[0] == SpecToken { kind, lo: i, hi: i + len });
        assert forall|x: int| 1 <= x < toks.len() implies #[trigger] toks[x] == rest[x - 1] by {}
        if rest.len() > 0 {
            assert(toks[toks.len() - 1] == rest[rest.len() - 1]);
        }
        assert forall|x: int|
            0 <= x < toks.len() - 1 implies #[trigger] tokens_adjacent_at(toks, x) by {
            if x == 0 {
                assert(toks[1] == rest[0]);
                assert(rest[0].lo == i + len);
            } else {
                assert(tokens_adjacent_at(rest, x - 1));
                assert(toks[x] == rest[x - 1]);
                assert(toks[x + 1] == rest[x]);
            }
        }
    }
}

/// The bytes of the spans' texts, in order.
pub open spec fn concat_texts(spans: Seq<TokenSpan>) -> Seq<u8>
    decreases spans.len(),
{
    if spans.len() == 0 {
        seq![]
    } else {
        string_bytes(spans[0].text) + concat_texts(spans.drop_first())
    }
}

#[verifier::rlimit(100)]
proof fn lemma_concat_pieces(b: Seq<u8>, spans: Seq<TokenSpan>, lo: int, hi: int)
    requires
        0 <= lo <= hi <= b.len(),
        spans.len() == 0 ==> lo == hi,
        spans.len() > 0 ==> spans[0].start == lo && spans[spans.len() - 1].end == hi,
        forall|x: int| 0 <= x < spans.len() ==> span_matches_buffer(#[trigger] spans[x], b),
        forall|x: int| 0 <= x < spans.len() ==> (#[trigger] spans[x]).end <= hi,
        forall|x: int| 0 <= x < spans.len() - 1 ==> #[trigger] spans_adjacent_at(spans, x),
    ensures
        concat_texts(spans) == b.subrange(lo, hi),
    decreases spans.len(),
{
    if spans.len() == 0 {
        assert(b.subrange(lo, hi) =~= seq![]);
    } else {
        let mid = spans[0].end as int;
        let rest = spans.drop_first();
        assert forall|x: int| 0 <= x < rest.len() implies #[trigger] rest[x] == spans[x + 1] by {}
        if rest.len() > 0 {
            assert(spans_adjacent_at(spans, 0));
            assert(rest[0].start == mid);
            assert(rest[rest.len() - 1].end == spans[spans.len() - 1].end);
        }
        assert forall|x: int|
            0 <= x < rest.len() - 1 implies #[trigger] spans_adjacent_at(rest, x) by {
            assert(spans_adjacent_at(spans, x + 1));
            assert(rest[x] == spans[x + 1]);
            assert(rest[x + 1] == spans[x + 2]);
        }
        lemma_concat_pieces(b, rest, mid, hi);
        assert(string_bytes(spans[0].text) == b.subrange(lo, mid));
        assert(b.subrange(lo, hi) =~= b.subrange(lo, mid) + b.subrange(mid, hi));
    }
}

/// Span coverage and offset correctness.  When a candidate line
/// exists, there is at least one span; the first starts exactly at the
/// cumulative byte length of the skipped blank lines (newlines
/// included); the spans are contiguous and end at the line's end; and
/// the texts of spans produced against this buffer, concatenated in
/// order, reproduce the candidate line exactly.
#[verifier::rlimit(100)]
pub proof fn lemma_span_coverage(b: Seq<u8>, spans: Seq<TokenSpan>)
    requires
        spec_candidate(b, 0) is Some,
        span_shapes(spans) == spec_tokenize(b),
        forall|x: int| 0 <= x < spans.len() ==> span_matches_buffer(#[trigger] spans[x], b),
    ensures
        ({
            let (ls, le) = spec_candidate(b, 0)->Some_0;
            let ce = spec_trim_cr(b, ls, le);
            &&& spans.len() > 0
            &&& spans[0].start == ls
            &&& spans[spans.len() - 1].end == ce
            &&& forall|x: int|
                0 <= x < spans.len() ==> ls <= (#[trigger] spans[x]).start < spans[x].end <= ce
            &&& forall|x: int| 0 <= x < spans.len() - 1 ==> #[trigger] spans_adjacent_at(spans, x)
            &&& concat_texts(spans) == b.subrange(ls, ce)
        }),
{
    let (ls, le) = spec_candidate(b, 0)->Some_0;
    let ce = spec_trim_cr(b, ls, le);
    lemma_candidate_bounds(b, 0);
    lemma_trim_cr_core(b, ls, le);
    let line = b.subrange(ls, ce);
    assert forall|k: int| 0 <= k < line.len() implies #[trigger] line[k] != 10 by {
        assert(line[k] == b[ls + k]);
    }
    crate::lexer::lemma_lex_total(line, 0);
    lemma_lex_covers(line, 0);
    let toks = spec_lex(line, 0)->Some_0;
    let shifted = crate::lexer::shift_tokens(toks, ls);
    assert(spec_tokenize(b) == shifted);
    // the candidate line still holds content after removing trailing
    // carriage returns: a line of carriage returns alone would be blank
    assert(line.len() > 0) by {
        if ce == ls {
            assert forall|k: int| ls <= k < le implies is_blank_byte(#[trigger] b[k]) by {}
            lemma_one_byte_blank_run(b, ls, le);
        }
    }
    assert(toks.len() > 0);
    assert(span_shapes(spans).len() == spans.len());
    assert(shifted.len() == toks.len());
    assert(spans.len() == toks.len());
    assert forall|x: int|
        0 <= x < spans.len() implies ls <= (#[trigger] spans[x]).start < spans[x].end <= ce by {
        assert(span_shapes(spans)[x] == shifted[x]);
        assert(toks[x].lo < toks[x].hi);
    }
    assert forall|x: int|
        0 <= x < spans.len() - 1 implies #[trigger] spans_adjacent_at(spans, x) by {
        assert(span_shapes(spans)[x] == shifted[x]);
        assert(span_shapes(spans)[x + 1] == shifted[x + 1]);
        assert(tokens_adjacent_at(toks, x));
    }
    assert(span_shapes(spans)[0] == shifted[0]);
    assert(span_shapes(spans)[spans.len() - 1] == shifted[toks.len() - 1]);
    lemma_concat_pieces(b, spans, ls, ce);
}

/// Round trip: a buffer whose candidate line parses as a directive
/// always lexes in full -- highlighting covers the whole line whenever
/// validation succeeds, so the two outputs agree on valid input.
#[verifier::rlimit(100)]
pub proof fn lemma_round_trip(b: Seq<u8>, spans: Seq<TokenSpan>)
    requires
        spec_parse_first_line(b) is Directive,
        span_shapes(spans) == spec_tokenize(b),
        forall|x: int| 0 <= x < spans.len() ==> span_matches_buffer(#[trigger] spans[x], b),
    ensures
        spec_candidate(b, 0) is Some,
        spans.len() > 0,
        ({
            let (ls, le) = spec_candidate(b, 0)->Some_0;
            let ce = spec_trim_cr(b, ls, le);
            &&& spans[0].start == ls
            &&& spans[spans.len() - 1].end == ce
            &&& concat_texts(spans) == b.subrange(ls, ce)
        }),
{
    assert(spec_candidate(b, 0) is Some) by {
        if spec_candidate(b, 0) is None {
            assert(spec_parse_first_line(b) is Empty);
        }
    }
    lemma_span_coverage(b, spans);
}

} // verus!
