//! Byte-indexed slicing of `&str`.
//!
//! The parser and the lexer cut tokens out of the buffer at byte
//! positions.  Every cut sits at an end of the buffer, at a byte that
//! starts a character, or right after an ASCII byte (a marker, an
//! equals sign, whitespace, an identifier byte), and such a position
//! is always a character boundary of the UTF-8 encoding; these lemmas
//! let the cuts use `str::split_at`.

use vstd::prelude::*;

use vstd::string::StringSliceAdditionalSpecFns;
use vstd::utf8::is_char_boundary;
use vstd::utf8::is_char_boundary_iff_not_is_continuation_byte;
use vstd::utf8::is_char_boundary_start_end_of_seq;
use vstd::utf8::is_continuation_byte;
use vstd::utf8::length_of_first_scalar;
use vstd::utf8::pop_first_scalar;
use vstd::utf8::valid_first_scalar;
use vstd::utf8::valid_utf8;
use vstd::utf8::valid_utf8_split;
use vstd::utf8::encode_utf8_valid_utf8;
use vstd::utf8::encode_utf8;

verus! {

/// Position `p` can be cut at: it is an end of the sequence, sits at
/// a byte that starts a character (no continuation byte), or follows
/// an ASCII byte.
pub open spec fn clean_cut(b: Seq<u8>, p: int) -> bool {
    p == 0 || p == b.len() || b[p] < 128 || b[p] >= 192 || b[p - 1] < 128
}

/// In valid UTF-8, the position right after an ASCII byte is a
/// character boundary.
proof fn lemma_boundary_after_ascii(b: Seq<u8>, p: int)
    requires
        valid_utf8(b),
        0 < p <= b.len(),
        b[p - 1] < 128,
    ensures
        is_char_boundary(b, p),
    decreases b.len(),
{
    assert(valid_first_scalar(b));
    let l = length_of_first_scalar(b);
    if p <= l {
        // an ASCII byte inside the first scalar: the scalar is 1 byte wide
        assert(l == 1 && p == 1);
        assert(is_char_boundary(b, 1)) by {
            reveal_with_fuel(is_char_boundary, 2);
        }
    } else {
        let rest = pop_first_scalar(b);
        lemma_boundary_after_ascii(rest, p - l);
    }
}

/// In valid UTF-8, a clean-cut position is a character boundary.
pub proof fn lemma_clean_cut_boundary(b: Seq<u8>, p: int)
    requires
        valid_utf8(b),
        0 <= p <= b.len(),
        clean_cut(b, p),
    ensures
        is_char_boundary(b, p),
{
    if p == 0 || p == b.len() {
        is_char_boundary_start_end_of_seq(b);
    } else if b[p] < 128 || b[p] >= 192 {
        assert(!is_continuation_byte(b[p]));
        is_char_boundary_iff_not_is_continuation_byte(b, p);
    } else {
        lemma_boundary_after_ascii(b, p);
    }
}

/// The bytes of any `&str` are valid UTF-8.
pub proof fn lemma_str_bytes_valid(s: &str)
    ensures
        valid_utf8(s.spec_bytes()),
{
    encode_utf8_valid_utf8(s@);
}

/// Cuts `s` at byte positions `start` and `end`, both of which are
/// clean cuts.
pub fn substring_bytes<'a>(s: &'a str, start: usize, end: usize) -> (r: &'a str)
    requires
        start <= end <= s.spec_bytes().len(),
        clean_cut(s.spec_bytes(), start as int),
        clean_cut(s.spec_bytes(), end as int),
    ensures
        r.spec_bytes() == s.spec_bytes().subrange(start as int, end as int),
{
    let ghost b = s.spec_bytes();
    proof {
        lemma_str_bytes_valid(s);
        lemma_clean_cut_boundary(b, start as int);
        lemma_clean_cut_boundary(b, end as int);
    }
    let (_, tail) = s.split_at(start);
    let ghost t = tail.spec_bytes();
    proof {
        valid_utf8_split(b, start as int);
        assert(t == b.subrange(start as int, b.len() as int));
        if end == start {
            assert(is_char_boundary(t, 0));
        } else if end == b.len() {
            assert(end - start == t.len());
            is_char_boundary_start_end_of_seq(t);
        } else if b[end as int] < 128 || b[end as int] >= 192 {
            assert(t[end - start] == b[end as int]);
            assert(!is_continuation_byte(t[end - start]));
            is_char_boundary_iff_not_is_continuation_byte(t, end - start);
        } else {
            // then the byte before `end` is ASCII, and `end > start >= 0`
            assert(b[end - 1] < 128);
            assert(t[end - start - 1] == b[end - 1]);
            lemma_boundary_after_ascii(t, end - start);
        }
    }
    let (head, _) = tail.split_at(end - start);
    proof {
        assert(head.spec_bytes() =~= b.subrange(start as int, end as int));
    }
    head
}

/// The UTF-8 bytes of an owned string.
pub open spec fn string_bytes(s: String) -> Seq<u8> {
    encode_utf8(s@)
}

/// Copies the bytes `[start, end)` of `s` into an owned string.
pub fn substring_owned(s: &str, start: usize, end: usize) -> (r: String)
    requires
        start <= end <= s.spec_bytes().len(),
        clean_cut(s.spec_bytes(), start as int),
        clean_cut(s.spec_bytes(), end as int),
    ensures
        string_bytes(r) == s.spec_bytes().subrange(start as int, end as int),
{
    let piece = substring_bytes(s, start, end);
    let r = piece.to_owned();
    proof {
        assert(encode_utf8(r@) == piece.spec_bytes());
    }
    r
}

} // verus!
