//! Rendering: the JSON wire format for spans, and error messages.
//!
//! `highlight_first_line_json` serializes the spans of
//! `tokenize_first_line` as a JSON array of records with `kind`,
//! `start`, `end` and `text` fields; embedded quote characters in a
//! span's text are escaped.  The whole output is pinned by
//! [`spec_highlight`].

use vstd::prelude::*;

use vstd::string::StringExecFns;
use vstd::string::StringSliceAdditionalSpecFns;
use vstd::string::StrSliceExecFns;
use vstd::utf8::decode_utf8;
use vstd::utf8::encode_utf8_decode_utf8;

use crate::lexer::spec_tokenize;
use crate::lexer::span_shapes;
use crate::lexer::tokenize_first_line;
use crate::lexer::SpecToken;
use crate::lexer::TokenKind;
use crate::lexer::TokenSpan;
use crate::parser::ParseError;
use crate::slicing::string_bytes;

verus! {

impl TokenKind {
    /// The stable string tag of this kind in the JSON wire format.
    pub open spec fn spec_tag(self) -> Seq<char> {
        match self {
            TokenKind::At => "At"@,
            TokenKind::Ident => "Ident"@,
            TokenKind::Equals => "Equals"@,
            TokenKind::Whitespace => "Whitespace"@,
            TokenKind::Value => "Value"@,
        }
    }

    /// The JSON tag of this kind.
    pub fn tag(&self) -> (r: &'static str)
        ensures
            r@ == self.spec_tag(),
    {
        match self {
            TokenKind::At => "At",
            TokenKind::Ident => "Ident",
            TokenKind::Equals => "Equals",
            TokenKind::Whitespace => "Whitespace",
            TokenKind::Value => "Value",
        }
    }
}

/// The decimal digit `d` as a character.
pub open spec fn spec_digit(d: int) -> char {
    ((48 + d) as u8) as char
}

/// The decimal numeral of the non-negative number `n`.
pub open spec fn spec_dec(n: int) -> Seq<char>
    decreases n,
{
    if n < 10 {
        seq![spec_digit(n)]
    } else {
        spec_dec(n / 10).push(spec_digit(n % 10))
    }
}

/// `cs` with every `"` turned into `\"`.
pub open spec fn spec_escape(cs: Seq<char>) -> Seq<char>
    decreases cs.len(),
{
    if cs.len() == 0 {
        seq![]
    } else {
        (if cs[0] == '"' {
            seq!['\\', '"']
        } else {
            seq![cs[0]]
        }) + spec_escape(cs.drop_first())
    }
}

proof fn lemma_escape_push(cs: Seq<char>, c: char)
    ensures
        spec_escape(cs.push(c)) == spec_escape(cs) + (if c == '"' {
            seq!['\\', '"']
        } else {
            seq![c]
        }),
    decreases cs.len(),
{
    let unit: Seq<char> = if c == '"' {
        seq!['\\', '"']
    } else {
        seq![c]
    };
    if cs.len() == 0 {
        assert(cs.push(c) =~= seq![c]);
        assert(cs.push(c).drop_first() =~= Seq::<char>::empty());
        assert(spec_escape(Seq::<char>::empty()) == Seq::<char>::empty());
        assert(cs.push(c)[0] == c);
        assert(spec_escape(cs.push(c)) =~= spec_escape(cs) + unit);
    } else {
        lemma_escape_push(cs.drop_first(), c);
        assert(cs.push(c).drop_first() =~= cs.drop_first().push(c));
        assert(spec_escape(cs.push(c)) =~= spec_escape(cs) + unit);
    }
}

/// The JSON record of one span: its kind tag, its absolute extent, and
/// its (escaped) text.
pub open spec fn spec_span_json(b: Seq<u8>, t: SpecToken) -> Seq<char> {
    "{\"kind\":\""@ + t.kind.spec_tag() + "\",\"start\":"@ + spec_dec(t.lo) + ",\"end\":"@
        + spec_dec(t.hi) + ",\"text\":\""@ + spec_escape(decode_utf8(b.subrange(t.lo, t.hi)))
        + "\"}"@
}

/// The comma-separated JSON records of the spans from index `x` on.
pub open spec fn spec_spans_json(b: Seq<u8>, toks: Seq<SpecToken>, x: int) -> Seq<char>
    decreases toks.len() - x,
{
    if !(0 <= x < toks.len()) {
        seq![]
    } else {
        (if x > 0 {
            ","@
        } else {
            Seq::<char>::empty()
        }) + spec_span_json(b, toks[x]) + spec_spans_json(b, toks, x + 1)
    }
}

/// The JSON array that highlighting owes on the buffer `b`.
pub open spec fn spec_highlight(b: Seq<u8>) -> Seq<char> {
    "["@ + spec_spans_json(b, spec_tokenize(b), 0) + "]"@
}

/// Relies on `String::push`: it appends exactly the given character.
#[verifier::external_body]
fn push_char(s: &mut String, c: char)
    ensures
        final(s)@ == old(s)@ + seq![c],
{
    s.push(c)
}

/// Appends the decimal numeral of `v`.
fn append_usize(out: &mut String, v: usize)
    ensures
        final(out)@ == old(out)@ + spec_dec(v as int),
    decreases v,
{
    if v < 10 {
        let d: u8 = v as u8 + 48;
        push_char(out, d as char);
        proof {
            assert(d as char == spec_digit(v as int));
            assert(old(out)@ + seq![spec_digit(v as int)] =~= old(out)@ + spec_dec(v as int));
        }
    } else {
        append_usize(out, v / 10);
        let d: u8 = (v % 10) as u8 + 48;
        push_char(out, d as char);
        proof {
            assert(d as char == spec_digit(v as int % 10));
            assert((old(out)@ + spec_dec(v as int / 10)).push(spec_digit(v as int % 10))
                =~= old(out)@ + spec_dec(v as int));
        }
    }
}

/// Appends `text` with every quote character escaped.
#[verifier::loop_isolation(false)]
fn append_escaped(out: &mut String, text: &String)
    ensures
        final(out)@ == old(out)@ + spec_escape(text@),
{
    let l = text.as_str().unicode_len();
    let mut j: usize = 0;
    proof {
        assert(text@.subrange(0, 0) =~= Seq::<char>::empty());
        assert(spec_escape(Seq::<char>::empty()) =~= Seq::<char>::empty());
        assert(out@ + Seq::<char>::empty() =~= out@);
    }
    while j < l
        invariant
            j <= l,
            l == text@.len(),
            out@ == old(out)@ + spec_escape(text@.subrange(0, j as int)),
        decreases l - j,
    {
        let c = text.as_str().get_char(j);
        if c == '"' {
            push_char(out, '\\');
            push_char(out, '"');
        } else {
            push_char(out, c);
        }
        proof {
            lemma_escape_push(text@.subrange(0, j as int), c);
            assert(text@.subrange(0, j + 1) =~= text@.subrange(0, j as int).push(c));
            assert(out@ =~= old(out)@ + spec_escape(text@.subrange(0, j + 1)));
        }
        j = j + 1;
    }
    proof {
        assert(text@.subrange(0, text@.len() as int) =~= text@);
    }
}

/// Appends the JSON record of one span.
#[verifier::rlimit(100)]
fn append_span(out: &mut String, span: &TokenSpan, Ghost(b): Ghost<Seq<u8>>)
    requires
        crate::lexer::span_matches_buffer(*span, b),
    ensures
        final(out)@ == old(out)@ + spec_span_json(
            b,
            SpecToken { kind: span.kind, lo: span.start as int, hi: span.end as int },
        ),
{
    proof {
        encode_utf8_decode_utf8(span.text@);
        assert(decode_utf8(b.subrange(span.start as int, span.end as int)) == span.text@);
    }
    out.append("{\"kind\":\"");
    out.append(span.kind.tag());
    out.append("\",\"start\":");
    append_usize(out, span.start);
    out.append(",\"end\":");
    append_usize(out, span.end);
    out.append(",\"text\":\"");
    append_escaped(out, &span.text);
    out.append("\"}");
    proof {
        let t = SpecToken { kind: span.kind, lo: span.start as int, hi: span.end as int };
        assert(out@ =~= old(out)@ + spec_span_json(b, t));
    }
}

/// Serializes the spans of the first non-blank line as a JSON array.
///
/// Never fails: a buffer with no candidate line, or one whose line
/// does not lex, yields `"[]"`.  The output is exactly
/// [`spec_highlight`] of the buffer's bytes.
#[verifier::loop_isolation(false)]
#[verifier::rlimit(100)]
pub fn highlight_first_line_json(src: &str) -> (r: String)
    ensures
        r@ == spec_highlight(src.spec_bytes()),
{
    let ghost b = src.spec_bytes();
    let ghost toks = spec_tokenize(b);
    let spans = tokenize_first_line(src);
    let mut out = String::new();
    out.append("[");
    let mut x: usize = 0;
    proof {
        assert(out@ =~= "["@);
    }
    while x < spans.len()
        invariant
            x <= spans@.len(),
            out@ + spec_spans_json(b, toks, x as int) == "["@ + spec_spans_json(b, toks, 0),
        decreases spans@.len() - x,
    {
        let span = &spans[x];
        proof {
            assert(span_shapes(spans@)[x as int] == toks[x as int]);
            assert(toks[x as int] == SpecToken {
                kind: span.kind,
                lo: span.start as int,
                hi: span.end as int,
            });
        }
        if x > 0 {
            out.append(",");
        }
        append_span(&mut out, span, Ghost(b));
        proof {
            assert(out@ + spec_spans_json(b, toks, x + 1) =~= "["@ + spec_spans_json(b, toks, 0));
        }
        x = x + 1;
    }
    out.append("]");
    proof {
        assert(spec_spans_json(b, toks, spans@.len() as int) =~= Seq::<char>::empty());
        assert(out@ =~= spec_highlight(b));
    }
    out
}

impl ParseError {
    /// The human-readable description of this error: it names the
    /// offending token (a printable byte is shown as itself) and its
    /// column within the candidate line.
    pub open spec fn spec_message(self) -> Seq<char> {
        match self {
            ParseError::MissingMarker => "First non-empty line must start with @"@,
            ParseError::Malformed { col, found } => (match found {
                Some(c) => if 33 <= c <= 126 {
                    "DSL parse error: unexpected '"@ + seq![c as char] + "' at column "@
                } else {
                    "DSL parse error: unexpected character at column "@
                },
                None => "DSL parse error: unexpected end of line at column "@,
            }) + spec_dec(col as int),
        }
    }

    /// Renders the error as its message.
    pub fn message(&self) -> (r: String)
        ensures
            r@ == self.spec_message(),
    {
        match self {
            ParseError::MissingMarker => "First non-empty line must start with @".to_owned(),
            ParseError::Malformed { col, found } => {
                let mut out: String;
                match found {
                    Some(c) => {
                        if 33 <= *c && *c <= 126 {
                            out = "DSL parse error: unexpected '".to_owned();
                            push_char(&mut out, *c as char);
                            out.append("' at column ");
                            proof {
                                assert(out@ =~= "DSL parse error: unexpected '"@ + seq![
                                    *c as char,
                                ] + "' at column "@);
                            }
                        } else {
                            out = "DSL parse error: unexpected character at column ".to_owned();
                        }
                    },
                    None => {
                        out = "DSL parse error: unexpected end of line at column ".to_owned();
                    },
                }
                append_usize(&mut out, *col);
                out
            },
        }
    }
}

} // verus!
