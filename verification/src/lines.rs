//! Locating the candidate line: the first non-blank line of a buffer.
//!
//! Lines are delimited by `\n`.  A line is blank when it holds only
//! whitespace characters — the Unicode White_Space set, recognized
//! here by the UTF-8 byte sequences of its members.  The parser works
//! on the candidate line trimmed of whitespace at both ends; the lexer
//! works on the candidate line with only trailing carriage returns
//! removed, so that inner whitespace still produces tokens.

use vstd::prelude::*;

verus! {

/// A one-byte whitespace character inside a line: tab, vertical tab,
/// form feed, carriage return or space.  (A newline never stands
/// inside a line.)
pub open spec fn is_blank_byte(b: u8) -> bool {
    b == 9 || b == 11 || b == 12 || b == 13 || b == 32
}

/// Byte length of the whitespace character that starts at `i`, or 0
/// when no whitespace character starts there.  The patterns are the
/// UTF-8 encodings of the Unicode White_Space set, the characters
/// that `char::is_whitespace` accepts; none of them can be mistaken
/// for part of another character, since no continuation byte matches
/// a pattern's first byte.
pub open spec fn blank_len_at(s: Seq<u8>, i: int) -> int {
    if !(0 <= i < s.len()) {
        0
    } else if is_blank_byte(s[i]) || s[i] == 10 {
        1
    } else if s[i] == 0xc2 && i + 1 < s.len() && (s[i + 1] == 0x85 || s[i + 1] == 0xa0) {
        2  // next line, no-break space
    } else if s[i] == 0xe1 && i + 2 < s.len() && s[i + 1] == 0x9a && s[i + 2] == 0x80 {
        3  // ogham space mark
    } else if s[i] == 0xe2 && i + 2 < s.len() && s[i + 1] == 0x80 && ((0x80 <= s[i + 2]
        && s[i + 2] <= 0x8a) || s[i + 2] == 0xa8 || s[i + 2] == 0xa9 || s[i + 2] == 0xaf) {
        3  // en quad .. hair space, line and paragraph separators, narrow no-break space
    } else if s[i] == 0xe2 && i + 2 < s.len() && s[i + 1] == 0x81 && s[i + 2] == 0x9f {
        3  // medium mathematical space
    } else if s[i] == 0xe3 && i + 2 < s.len() && s[i + 1] == 0x80 && s[i + 2] == 0x80 {
        3  // ideographic space
    } else {
        0
    }
}

/// Where the run of whitespace characters that starts at `i` ends,
/// within `[i, e)`.
pub open spec fn blank_run_end(s: Seq<u8>, i: int, e: int) -> int
    decreases e - i,
{
    if !(0 <= i < e && e <= s.len()) {
        i
    } else {
        let w = blank_len_at(s, i);
        if w > 0 && i + w <= e {
            blank_run_end(s, i + w, e)
        } else {
            i
        }
    }
}

/// The whitespace run ends within bounds, and — unless it covers the
/// whole range — at a position where no whitespace character fits.
pub proof fn lemma_blank_run_props(s: Seq<u8>, i: int, e: int)
    requires
        0 <= i <= e <= s.len(),
    ensures
        ({
            let r = blank_run_end(s, i, e);
            &&& i <= r <= e
            &&& r < e ==> (blank_len_at(s, r) == 0 || r + blank_len_at(s, r) > e)
        }),
    decreases e - i,
{
    if i < e {
        let w = blank_len_at(s, i);
        if w > 0 && i + w <= e {
            lemma_blank_run_props(s, i + w, e);
        }
    }
}

/// A range of one-byte whitespace characters is one whitespace run.
pub proof fn lemma_one_byte_blank_run(s: Seq<u8>, i: int, e: int)
    requires
        0 <= i <= e <= s.len(),
        forall|k: int| i <= k < e ==> is_blank_byte(#[trigger] s[k]),
    ensures
        blank_run_end(s, i, e) == e,
    decreases e - i,
{
    if i < e {
        assert(blank_len_at(s, i) == 1);
        lemma_one_byte_blank_run(s, i + 1, e);
    }
}

/// Exec counterpart of `blank_len_at`.
pub fn blank_len(s: &[u8], i: usize) -> (w: usize)
    requires
        i <= s@.len(),
    ensures
        w == blank_len_at(s@, i as int),
{
    if i == s.len() {
        return 0;
    }
    let b0 = s[i];
    if b0 == 9 || b0 == 10 || b0 == 11 || b0 == 12 || b0 == 13 || b0 == 32 {
        1
    } else if b0 == 0xc2 && s.len() - i > 1 && (s[i + 1] == 0x85 || s[i + 1] == 0xa0) {
        2
    } else if b0 == 0xe1 && s.len() - i > 2 && s[i + 1] == 0x9a && s[i + 2] == 0x80 {
        3
    } else if b0 == 0xe2 && s.len() - i > 2 && s[i + 1] == 0x80 && ((0x80 <= s[i + 2] && s[i + 2]
        <= 0x8a) || s[i + 2] == 0xa8 || s[i + 2] == 0xa9 || s[i + 2] == 0xaf) {
        3
    } else if b0 == 0xe2 && s.len() - i > 2 && s[i + 1] == 0x81 && s[i + 2] == 0x9f {
        3
    } else if b0 == 0xe3 && s.len() - i > 2 && s[i + 1] == 0x80 && s[i + 2] == 0x80 {
        3
    } else {
        0
    }
}

/// Index just past the last byte of the line that starts at `i`: the
/// position of the first newline at or after `i`, or the end of `s`.
pub open spec fn spec_line_end(s: Seq<u8>, i: int) -> int
    decreases s.len() - i,
{
    if 0 <= i < s.len() {
        if s[i] == 10 {
            i
        } else {
            spec_line_end(s, i + 1)
        }
    } else {
        s.len() as int
    }
}

pub proof fn lemma_line_end_bounds(s: Seq<u8>, i: int)
    requires
        0 <= i <= s.len(),
    ensures
        i <= spec_line_end(s, i) <= s.len(),
        forall|k: int| i <= k < spec_line_end(s, i) ==> #[trigger] s[k] != 10,
        spec_line_end(s, i) < s.len() ==> s[spec_line_end(s, i)] == 10,
    decreases s.len() - i,
{
    if i < s.len() && s[i] != 10 {
        lemma_line_end_bounds(s, i + 1);
    }
}

/// The extent `(start, end)` of the first non-blank line of `s` at or
/// after `i`, or `None` when every remaining line is blank.
pub open spec fn spec_candidate(s: Seq<u8>, i: int) -> Option<(int, int)>
    decreases s.len() - i + 1,
{
    if !(0 <= i <= s.len()) {
        None
    } else if i == s.len() {
        None
    } else {
        let e = spec_line_end(s, i);
        if !(i <= e <= s.len()) {
            None  // cannot happen: a line ends within the buffer, at or after its start
        } else if blank_run_end(s, i, e) != e {
            Some((i, e))
        } else {
            spec_candidate(s, e + 1)
        }
    }
}

/// A found candidate line is in bounds, is delimited by newlines, and
/// is not covered by whitespace; every line before it is blank.
pub proof fn lemma_candidate_bounds(s: Seq<u8>, i: int)
    requires
        0 <= i <= s.len(),
        spec_candidate(s, i) is Some,
    ensures
        ({
            let (ls, le) = spec_candidate(s, i)->Some_0;
            &&& i <= ls <= le <= s.len()
            &&& le == spec_line_end(s, ls)
            &&& blank_run_end(s, ls, le) < le
            &&& forall|k: int| ls <= k < le ==> #[trigger] s[k] != 10
            &&& le < s.len() ==> s[le] == 10
            &&& ls == i || (0 < ls <= s.len() && s[ls - 1] == 10)
        }),
    decreases s.len() - i + 1,
{
    if 0 <= i < s.len() {
        let e = spec_line_end(s, i);
        lemma_line_end_bounds(s, i);
        lemma_blank_run_props(s, i, e);
        if blank_run_end(s, i, e) == e {
            lemma_candidate_bounds(s, e + 1);
        }
    }
}

/// Finds the first non-blank line of `s`: its start and its end (the
/// next newline, or the end of the buffer).
#[verifier::loop_isolation(false)]
pub fn find_candidate(s: &[u8]) -> (r: Option<(usize, usize)>)
    ensures
        match r {
            Some((ls, le)) => spec_candidate(s@, 0) == Some((ls as int, le as int)),
            None => spec_candidate(s@, 0) is None,
        },
{
    let mut ls: usize = 0;
    loop
        invariant
            0 <= ls <= s@.len(),
            spec_candidate(s@, 0) == spec_candidate(s@, ls as int),
        decreases s@.len() - ls,
    {
        if ls == s.len() {
            return None;
        }
        // scan to the end of the line that starts at ls
        let mut j: usize = ls;
        while j < s.len() && s[j] != 10
            invariant
                ls <= j <= s@.len(),
                spec_line_end(s@, ls as int) == spec_line_end(s@, j as int),
            decreases s@.len() - j,
        {
            j = j + 1;
        }
        proof {
            assert(spec_line_end(s@, j as int) == j);
        }
        // the line is blank exactly when its whitespace run reaches its end
        let k = trim_start(s, ls, j);
        if k < j {
            return Some((ls, j));
        }
        if j == s.len() {
            proof {
                assert(spec_candidate(s@, j as int + 1) is None);
                assert(spec_candidate(s@, ls as int) is None);
            }
            return None;
        }
        ls = j + 1;
    }
}

/// Scans past the whitespace characters at the start of `[lo, hi)`.
#[verifier::loop_isolation(false)]
pub fn trim_start(s: &[u8], lo: usize, hi: usize) -> (r: usize)
    requires
        lo <= hi <= s@.len(),
    ensures
        r == blank_run_end(s@, lo as int, hi as int),
        lo <= r <= hi,
{
    let mut j: usize = lo;
    loop
        invariant
            lo <= j <= hi,
            blank_run_end(s@, lo as int, hi as int) == blank_run_end(s@, j as int, hi as int),
        decreases hi - j,
    {
        if j == hi {
            proof {
                assert(blank_run_end(s@, j as int, hi as int) == j);
            }
            return j;
        }
        let w = blank_len(s, j);
        if w == 0 || w > hi - j {
            proof {
                assert(blank_run_end(s@, j as int, hi as int) == j);
            }
            return j;
        }
        proof {
            assert(blank_run_end(s@, j as int, hi as int) == blank_run_end(
                s@,
                j as int + w,
                hi as int,
            ));
        }
        j = j + w;
    }
}

/// Position just past the last byte of `[i, e)` that does not belong
/// to a trailing run of whitespace characters, scanning forward from
/// `i`; `i` itself when whitespace covers the whole range.
pub open spec fn spec_trim_end(s: Seq<u8>, i: int, e: int) -> int
    decreases e - i,
{
    if !(0 <= i < e && e <= s.len()) {
        i
    } else {
        let w = blank_len_at(s, i);
        if w > 0 && i + w <= e {
            let rest = spec_trim_end(s, i + w, e);
            if rest == i + w {
                i  // only whitespace from here on
            } else {
                rest
            }
        } else {
            let rest = spec_trim_end(s, i + 1, e);
            if rest > i + 1 {
                rest
            } else {
                i + 1
            }
        }
    }
}

/// The trimmed end is in bounds and — unless it is the range's end —
/// a whitespace character starts right at it.
pub proof fn lemma_trim_end_props(s: Seq<u8>, i: int, e: int)
    requires
        0 <= i <= e <= s.len(),
    ensures
        ({
            let te = spec_trim_end(s, i, e);
            &&& i <= te <= e
            &&& te < e ==> blank_len_at(s, te) > 0
        }),
    decreases e - i,
{
    if i < e {
        let w = blank_len_at(s, i);
        if w > 0 && i + w <= e {
            lemma_trim_end_props(s, i + w, e);
        } else {
            lemma_trim_end_props(s, i + 1, e);
        }
    }
}

/// On a non-blank range, trimming yields a non-empty core, and only
/// whitespace characters follow it.
pub proof fn lemma_trim_core(s: Seq<u8>, ls: int, le: int)
    requires
        0 <= ls <= le <= s.len(),
        blank_run_end(s, ls, le) != le,
    ensures
        ({
            let ts = blank_run_end(s, ls, le);
            let te = spec_trim_end(s, ts, le);
            &&& ls <= ts < le
            &&& ts < te <= le
            &&& te < le ==> blank_len_at(s, te) > 0
        }),
{
    lemma_blank_run_props(s, ls, le);
    let ts = blank_run_end(s, ls, le);
    let w = blank_len_at(s, ts);
    lemma_trim_end_props(s, ts, le);
    lemma_trim_end_props(s, ts + 1, le);
    assert(w == 0 || ts + w > le);
    assert(spec_trim_end(s, ts, le) >= ts + 1);
}

/// Exec counterpart of `spec_trim_end`: forward scan keeping the
/// position just past the last non-whitespace byte.
#[verifier::loop_isolation(false)]
pub fn trim_end(s: &[u8], lo: usize, hi: usize) -> (r: usize)
    requires
        lo <= hi <= s@.len(),
    ensures
        r == spec_trim_end(s@, lo as int, hi as int),
        lo <= r <= hi,
{
    let mut i: usize = lo;
    let mut te: usize = lo;
    loop
        invariant
            lo <= te <= i <= hi,
            spec_trim_end(s@, lo as int, hi as int) == (if spec_trim_end(s@, i as int, hi as int)
                == i {
                te as int
            } else {
                spec_trim_end(s@, i as int, hi as int)
            }),
        decreases hi - i,
    {
        if i == hi {
            proof {
                assert(spec_trim_end(s@, i as int, hi as int) == i);
            }
            return te;
        }
        let w = blank_len(s, i);
        if w > 0 && w <= hi - i {
            proof {
                lemma_trim_end_props(s@, i as int + w, hi as int);
                assert(spec_trim_end(s@, i as int, hi as int) == (if spec_trim_end(
                    s@,
                    i as int + w,
                    hi as int,
                ) == i + w {
                    i as int
                } else {
                    spec_trim_end(s@, i as int + w, hi as int)
                }));
            }
            i = i + w;
        } else {
            proof {
                lemma_trim_end_props(s@, i as int + 1, hi as int);
                assert(spec_trim_end(s@, i as int, hi as int) == (if spec_trim_end(
                    s@,
                    i as int + 1,
                    hi as int,
                ) > i + 1 {
                    spec_trim_end(s@, i as int + 1, hi as int)
                } else {
                    i as int + 1
                }));
            }
            i = i + 1;
            te = i;
        }
    }
}

/// Position just past the last byte of `[lo, hi)` that is not part of
/// a trailing run of carriage returns.
pub open spec fn spec_trim_cr(s: Seq<u8>, lo: int, hi: int) -> int
    decreases hi - lo,
{
    if lo < hi && 0 <= hi - 1 < s.len() && s[hi - 1] == 13 {
        spec_trim_cr(s, lo, hi - 1)
    } else {
        hi
    }
}

/// Only carriage returns lie between the carriage-return-trimmed end
/// and the raw end of a line.
pub proof fn lemma_trim_cr_core(s: Seq<u8>, lo: int, hi: int)
    requires
        0 <= lo <= hi <= s.len(),
    ensures
        lo <= spec_trim_cr(s, lo, hi) <= hi,
        forall|k: int| spec_trim_cr(s, lo, hi) <= k < hi ==> #[trigger] s[k] == 13,
    decreases hi - lo,
{
    if lo < hi && s[hi - 1] == 13 {
        lemma_trim_cr_core(s, lo, hi - 1);
    }
}

#[verifier::loop_isolation(false)]
pub fn trim_cr(s: &[u8], lo: usize, hi: usize) -> (r: usize)
    requires
        lo <= hi <= s@.len(),
    ensures
        r == spec_trim_cr(s@, lo as int, hi as int),
        lo <= r <= hi,
{
    let mut j: usize = hi;
    while j > lo && s[j - 1] == 13
        invariant
            lo <= j <= hi,
            spec_trim_cr(s@, lo as int, hi as int) == spec_trim_cr(s@, lo as int, j as int),
        decreases j,
    {
        j = j - 1;
    }
    j
}

/// Every line of `s` at or after `i` is blank.
pub open spec fn all_lines_blank(s: Seq<u8>, i: int) -> bool
    decreases s.len() - i + 1,
{
    if !(0 <= i < s.len()) {
        true
    } else {
        let e = spec_line_end(s, i);
        if !(i <= e <= s.len()) {
            true  // cannot happen: a line ends within the buffer, at or after its start
        } else {
            blank_run_end(s, i, e) == e && all_lines_blank(s, e + 1)
        }
    }
}

/// A buffer of blank lines has no candidate line.
pub proof fn lemma_all_blank_no_candidate(s: Seq<u8>, i: int)
    requires
        0 <= i <= s.len(),
        all_lines_blank(s, i),
    ensures
        spec_candidate(s, i) is None,
    decreases s.len() - i + 1,
{
    if i < s.len() {
        let e = spec_line_end(s, i);
        lemma_line_end_bounds(s, i);
        if e < s.len() {
            lemma_all_blank_no_candidate(s, e + 1);
        } else {
            assert(spec_candidate(s, e + 1) is None);
        }
    }
}

} // verus!
