//! The directive parser.
//!
//! `parse_first_line` finds the first non-blank line of a buffer, trims
//! it, and parses it against the grammar
//!
//! ```text
//! directive := '@' ident (ws+ pair)* ws* EOF
//! pair      := ident ws* '=' ws* value
//! ident     := [A-Za-z_][A-Za-z0-9_]*
//! value     := (any char except space, tab, newline)+
//! ```
//!
//! The whole behaviour is pinned by one spec function,
//! [`spec_parse_first_line`], a recursive-descent rendering of the
//! grammar over the buffer's UTF-8 bytes.

use vstd::prelude::*;

use vstd::slice::slice_subrange;
use vstd::string::StringSliceAdditionalSpecFns;

use crate::grammar::ident_p;
use crate::grammar::ident_run_end;
use crate::grammar::is_ident_start;
use crate::grammar::lemma_run_len_bounds;
use crate::grammar::run_len;
use crate::grammar::space_p;
use crate::grammar::space_run_end;
use crate::grammar::value_p;
use crate::grammar::value_run_end;
use crate::lines::blank_len_at;
use crate::lines::blank_run_end;
use crate::lines::find_candidate;
use crate::lines::lemma_candidate_bounds;
use crate::lines::lemma_trim_core;
use crate::lines::spec_candidate;
use crate::lines::spec_trim_end;
use crate::lines::trim_end;
use crate::lines::trim_start;
use crate::slicing::clean_cut;
use crate::slicing::string_bytes;
use crate::slicing::substring_owned;

verus! {

/// Result of parsing the first non-blank line of a buffer: either no
/// such line exists, or it is a directive with a name and ordered
/// `key=value` pairs (duplicates kept, order preserved).
#[derive(Debug, Clone, PartialEq, Eq)]
pub enum ParsedFirstLine {
    Empty,
    Directive { name: String, pairs: Vec<(String, String)> },
}

/// Why the candidate line failed to parse.  `col` is a byte offset
/// within the trimmed candidate line; `found` is the offending byte, or
/// `None` when the line ended where more input was owed.
#[derive(Debug, Clone, PartialEq, Eq)]
pub enum ParseError {
    MissingMarker,
    Malformed { col: usize, found: Option<u8> },
}

/// The mathematical outcome of a parse, over plain byte sequences.
pub enum Outcome {
    Empty,
    Directive { name: Seq<u8>, pairs: Seq<(Seq<u8>, Seq<u8>)> },
    MissingMarker,
    Malformed { col: int, found: Option<u8> },
}

/// `(ws+ pair)* ws* EOF` from position `i` of the candidate line: the
/// pairs as `(key, value)` byte sequences, or the position and byte at
/// which the grammar is violated.
pub open spec fn spec_pairs(line: Seq<u8>, i: int) -> Result<
    Seq<(Seq<u8>, Seq<u8>)>,
    (int, Option<u8>),
>
    decreases line.len() - i,
{
    if !(0 <= i <= line.len()) {
        Err((i, None))  // cannot happen: positions stay within the line
    } else if i == line.len() {
        Ok(seq![])
    } else {
        let w = run_len(line, i, space_p());
        if i + w == line.len() {
            Ok(seq![])  // ws* EOF
        } else if w == 0 {
            Err((i, Some(line[i])))  // a pair needs whitespace before it
        } else {
            let j = i + w;
            if !is_ident_start(line[j]) {
                Err((j, Some(line[j])))  // a pair starts with an identifier
            } else {
                let k = j + run_len(line, j, ident_p());
                let a = k + run_len(line, k, space_p());
                if a >= line.len() {
                    Err((line.len() as int, None))  // `=` still owed
                } else if line[a] != 61 {
                    Err((a, Some(line[a])))  // `=` expected
                } else {
                    let v = a + 1 + run_len(line, a + 1, space_p());
                    let ve = v + run_len(line, v, value_p());
                    if ve <= v {
                        if v >= line.len() {
                            Err((line.len() as int, None))  // value still owed
                        } else {
                            Err((v, Some(line[v])))  // value expected
                        }
                    } else if !(i < ve && ve <= line.len()) {
                        Err((i, None))  // cannot happen: runs stay within the line
                    } else {
                        match spec_pairs(line, ve) {
                            Ok(rest) => Ok(
                                seq![(line.subrange(j, k), line.subrange(v, ve))] + rest,
                            ),
                            Err(e) => Err(e),
                        }
                    }
                }
            }
        }
    }
}

/// The trimmed candidate line (which starts with the marker) against
/// the directive grammar.
pub open spec fn spec_parse_line(line: Seq<u8>) -> Outcome {
    if line.len() < 2 || !is_ident_start(line[1]) {
        Outcome::Malformed {
            col: 1,
            found: if line.len() >= 2 {
                Some(line[1])
            } else {
                None
            },
        }
    } else {
        let n = 1 + run_len(line, 1, ident_p());
        match spec_pairs(line, n) {
            Ok(ps) => Outcome::Directive { name: line.subrange(1, n), pairs: ps },
            Err((c, f)) => Outcome::Malformed { col: c, found: f },
        }
    }
}

/// The outcome that parsing owes on the buffer `b`: `Empty` when every
/// line is blank, `MissingMarker` when the first non-blank line does
/// not start with `@`, and otherwise the grammar's verdict on the
/// trimmed candidate line.
pub open spec fn spec_parse_first_line(b: Seq<u8>) -> Outcome {
    match spec_candidate(b, 0) {
        Option::None => Outcome::Empty,
        Option::Some((ls, le)) => {
            let ts = blank_run_end(b, ls, le);
            let te = spec_trim_end(b, ts, le);
            if b[ts] != 64 {
                Outcome::MissingMarker
            } else {
                spec_parse_line(b.subrange(ts, te))
            }
        },
    }
}

/// The `(key, value)` byte sequences of parsed pairs.
pub open spec fn view_pairs(pairs: Seq<(String, String)>) -> Seq<(Seq<u8>, Seq<u8>)> {
    pairs.map_values(|p: (String, String)| (string_bytes(p.0), string_bytes(p.1)))
}

/// The mathematical outcome that an executable result denotes.
pub open spec fn outcome_of(r: Result<ParsedFirstLine, ParseError>) -> Outcome {
    match r {
        Ok(ParsedFirstLine::Empty) => Outcome::Empty,
        Ok(ParsedFirstLine::Directive { name, pairs }) => Outcome::Directive {
            name: string_bytes(name),
            pairs: view_pairs(pairs@),
        },
        Err(ParseError::MissingMarker) => Outcome::MissingMarker,
        Err(ParseError::Malformed { col, found }) => Outcome::Malformed {
            col: col as int,
            found,
        },
    }
}

/// Parses the first non-blank line of `src`.
///
/// Never panics and keeps no state: the result is exactly
/// [`spec_parse_first_line`] of the buffer's bytes.
pub fn parse_first_line(src: &str) -> (r: Result<ParsedFirstLine, ParseError>)
    ensures
        outcome_of(r) == spec_parse_first_line(src.spec_bytes()),
{
    let bytes = src.as_bytes();
    match find_candidate(bytes) {
        None => Ok(ParsedFirstLine::Empty),
        Some((ls, le)) => {
            proof {
                lemma_candidate_bounds(bytes@, 0);
                lemma_trim_core(bytes@, ls as int, le as int);
            }
            let ts = trim_start(bytes, ls, le);
            let te = trim_end(bytes, ts, le);
            proof {
                if te < bytes@.len() && te < le {
                    assert(blank_len_at(bytes@, te as int) > 0);
                    assert(bytes@[te as int] < 128 || bytes@[te as int] >= 192);
                }
            }
            if bytes[ts] != 64 {
                Err(ParseError::MissingMarker)
            } else {
                parse_line(src, ts, te)
            }
        },
    }
}

/// Parses the trimmed candidate line `[ts, te)`, which starts with the
/// marker byte and is free of newlines; the byte after it, if any,
/// starts a character.
#[verifier::loop_isolation(false)]
#[verifier::rlimit(100)]
fn parse_line(src: &str, ts: usize, te: usize) -> (r: Result<ParsedFirstLine, ParseError>)
    requires
        ts < te <= src.spec_bytes().len(),
        src.spec_bytes()[ts as int] == 64,
        forall|k: int| ts <= k < te ==> #[trigger] src.spec_bytes()[k] != 10,
        te < src.spec_bytes().len() ==> (src.spec_bytes()[te as int] < 128 || src.spec_bytes()[
            te as int
        ] >= 192),
    ensures
        outcome_of(r) == spec_parse_line(src.spec_bytes().subrange(ts as int, te as int)),
{
    let ghost b = src.spec_bytes();
    let ghost lineg = b.subrange(ts as int, te as int);
    let bytes = src.as_bytes();
    let line = slice_subrange(bytes, ts, te);
    let n = line.len();

    if n < 2 || !is_ident_start_byte(line[1]) {
        let found: Option<u8> = if n >= 2 {
            Some(line[1])
        } else {
            None
        };
        return Err(ParseError::Malformed { col: 1, found });
    }
    let name_end = ident_run_end(line, 1);
    proof {
        lemma_run_len_bounds(lineg, 1, ident_p());
        assert(clean_cut(b, ts + 1)) by {
            assert(b[ts as int] == 64);
        }
        assert(clean_cut(b, ts + name_end)) by {
            assert(lineg[name_end - 1] == b[ts + name_end - 1]);
            assert(crate::grammar::is_ident_byte(lineg[name_end - 1]));
        }
    }
    let name = substring_owned(src, ts + 1, ts + name_end);
    proof {
        assert(string_bytes(name) =~= lineg.subrange(1, name_end as int));
    }

    let mut pairs: Vec<(String, String)> = Vec::new();
    let ghost start = name_end as int;
    let mut i: usize = name_end;
    proof {
        assert(view_pairs(pairs@) =~= Seq::<(Seq<u8>, Seq<u8>)>::empty());
        if spec_pairs(lineg, start) is Ok {
            let rest = spec_pairs(lineg, start)->Ok_0;
            assert(view_pairs(pairs@) + rest =~= rest);
        }
    }
    loop
        invariant
            name_end <= i <= n,
            n == lineg.len(),
            lineg == b.subrange(ts as int, te as int),
            string_bytes(name) == lineg.subrange(1, name_end as int),
            match spec_pairs(lineg, i as int) {
                Ok(rest) => spec_pairs(lineg, start) == Ok::<_, (int, Option<u8>)>(
                    view_pairs(pairs@) + rest,
                ),
                Err(e) => spec_pairs(lineg, start) == Err::<Seq<(Seq<u8>, Seq<u8>)>, _>(e),
            },
        decreases n - i,
    {
        if i == n {
            proof {
                assert(view_pairs(pairs@) + seq![] =~= view_pairs(pairs@));
            }
            return Ok(ParsedFirstLine::Directive { name, pairs });
        }
        let w_end = space_run_end(line, i);
        proof {
            lemma_run_len_bounds(lineg, i as int, space_p());
        }
        if w_end == n {
            proof {
                assert(view_pairs(pairs@) + seq![] =~= view_pairs(pairs@));
            }
            return Ok(ParsedFirstLine::Directive { name, pairs });
        }
        if w_end == i {
            return Err(ParseError::Malformed { col: i, found: Some(line[i]) });
        }
        let j = w_end;
        if !is_ident_start_byte(line[j]) {
            return Err(ParseError::Malformed { col: j, found: Some(line[j]) });
        }
        let k = ident_run_end(line, j);
        proof {
            lemma_run_len_bounds(lineg, j as int, ident_p());
        }
        let a = space_run_end(line, k);
        proof {
            lemma_run_len_bounds(lineg, k as int, space_p());
        }
        if a == n {
            return Err(ParseError::Malformed { col: n, found: None });
        }
        if line[a] != 61 {
            return Err(ParseError::Malformed { col: a, found: Some(line[a]) });
        }
        let v = space_run_end(line, a + 1);
        proof {
            lemma_run_len_bounds(lineg, a + 1, space_p());
        }
        let ve = value_run_end(line, v);
        proof {
            lemma_run_len_bounds(lineg, v as int, value_p());
        }
        if ve == v {
            if v == n {
                return Err(ParseError::Malformed { col: n, found: None });
            }
            return Err(ParseError::Malformed { col: v, found: Some(line[v]) });
        }
        proof {
            assert(clean_cut(b, ts + j)) by {
                assert(b[ts + j] == lineg[j as int]);
                assert(crate::grammar::is_ident_start(lineg[j as int]));
            }
            assert(clean_cut(b, ts + k)) by {
                assert(b[ts + k - 1] == lineg[k - 1]);
                assert(crate::grammar::is_ident_byte(lineg[k - 1]));
            }
            assert(clean_cut(b, ts + v)) by {
                assert(b[ts + v - 1] == lineg[v - 1]);
                // the byte before the value is `=` or a space
                assert(lineg[v - 1] == 61 || crate::grammar::is_space(lineg[v - 1]));
            }
            assert(clean_cut(b, ts + ve)) by {
                if ve < n {
                    // the value run stopped at a space or tab
                    assert(b[ts + ve] == lineg[ve as int]);
                    assert(!crate::grammar::is_value_byte(lineg[ve as int]));
                } else if ts + ve < b.len() {
                    // end of the trimmed line: the next byte starts a character
                    assert(b[ts + ve] < 128 || b[ts + ve] >= 192);
                }
            }
        }
        let key = substring_owned(src, ts + j, ts + k);
        let value = substring_owned(src, ts + v, ts + ve);
        proof {
            assert(string_bytes(key) =~= lineg.subrange(j as int, k as int));
            assert(string_bytes(value) =~= lineg.subrange(v as int, ve as int));
            assert(view_pairs(pairs@.push((key, value))) =~= view_pairs(pairs@) + seq![
                (string_bytes(key), string_bytes(value)),
            ]);
            assert(view_pairs(pairs@) + (seq![
                (lineg.subrange(j as int, k as int), lineg.subrange(v as int, ve as int)),
            ] + spec_pairs(lineg, ve as int)->Ok_0) =~= (view_pairs(pairs@) + seq![
                (lineg.subrange(j as int, k as int), lineg.subrange(v as int, ve as int)),
            ]) + spec_pairs(lineg, ve as int)->Ok_0);
        }
        pairs.push((key, value));
        i = ve;
    }
}

/// Whether `b` may start an identifier: `[A-Za-z_]`.
fn is_ident_start_byte(b: u8) -> (r: bool)
    ensures
        r == is_ident_start(b),
{
    b == 95 || (65 <= b && b <= 90) || (97 <= b && b <= 122)
}

} // verus!
