//! Byte classes of the directive grammar, and maximal-run scanning.
//!
//! The grammar works on the UTF-8 bytes of the buffer, so that span
//! offsets are byte offsets.  All significant bytes (`@`, `=`, space,
//! tab, newline, identifier characters) are ASCII; bytes of multi-byte
//! characters are all at least 0x80 and fall only into value runs.

use vstd::prelude::*;

verus! {

/// Space or tab: the whitespace that separates tokens within a line.
pub open spec fn is_space(b: u8) -> bool {
    b == 32 || b == 9
}

/// First byte of an identifier: `[A-Za-z_]`.
pub open spec fn is_ident_start(b: u8) -> bool {
    (65 <= b && b <= 90) || (97 <= b && b <= 122) || b == 95
}

/// Later byte of an identifier: `[A-Za-z0-9_]`.
pub open spec fn is_ident_byte(b: u8) -> bool {
    is_ident_start(b) || (48 <= b && b <= 57)
}

/// Byte of a directive value: anything but space, tab and newline.
pub open spec fn is_value_byte(b: u8) -> bool {
    b != 32 && b != 9 && b != 10
}

/// Byte of a highlighting `Value` token: a value byte that is neither
/// `@` nor `=`, which lex as tokens of their own.
pub open spec fn is_lex_value_byte(b: u8) -> bool {
    is_value_byte(b) && b != 64 && b != 61
}

/// The space/tab class as a function value, for `run_len`.
pub open spec fn space_p() -> spec_fn(u8) -> bool {
    |b: u8| is_space(b)
}

/// The identifier-byte class as a function value, for `run_len`.
pub open spec fn ident_p() -> spec_fn(u8) -> bool {
    |b: u8| is_ident_byte(b)
}

/// The value-byte class as a function value, for `run_len`.
pub open spec fn value_p() -> spec_fn(u8) -> bool {
    |b: u8| is_value_byte(b)
}

/// The `Value`-token byte class as a function value, for `run_len`.
pub open spec fn lex_value_p() -> spec_fn(u8) -> bool {
    |b: u8| is_lex_value_byte(b)
}

/// Length of the maximal run of bytes satisfying `p` that starts at `i`.
pub open spec fn run_len(s: Seq<u8>, i: int, p: spec_fn(u8) -> bool) -> int
    decreases s.len() - i,
{
    if 0 <= i < s.len() && p(s[i]) {
        1 + run_len(s, i + 1, p)
    } else {
        0
    }
}

/// The run starting at `i` ends within the sequence, at the first byte
/// (or the end) that does not satisfy `p`.
pub proof fn lemma_run_len_bounds(s: Seq<u8>, i: int, p: spec_fn(u8) -> bool)
    requires
        0 <= i <= s.len(),
    ensures
        0 <= run_len(s, i, p),
        i + run_len(s, i, p) <= s.len(),
        forall|k: int| i <= k < i + run_len(s, i, p) ==> p(#[trigger] s[k]),
        i + run_len(s, i, p) < s.len() ==> !p(s[i + run_len(s, i, p)]),
    decreases s.len() - i,
{
    if i < s.len() && p(s[i]) {
        lemma_run_len_bounds(s, i + 1, p);
    }
}

/// A run whose first byte satisfies `p` has length at least 1.
pub proof fn lemma_run_len_pos(s: Seq<u8>, i: int, p: spec_fn(u8) -> bool)
    requires
        0 <= i < s.len(),
        p(s[i]),
    ensures
        run_len(s, i, p) >= 1,
{
    lemma_run_len_bounds(s, i + 1, p);
}

/// Exec counterpart of `run_len` for identifier bytes.
#[verifier::loop_isolation(false)]
pub fn ident_run_end(s: &[u8], i: usize) -> (r: usize)
    requires
        i <= s@.len(),
    ensures
        r == i + run_len(s@, i as int, ident_p()),
{
    let ghost p = ident_p();
    let mut j: usize = i;
    while j < s.len() && (s[j] == 95 || (65 <= s[j] && s[j] <= 90) || (97 <= s[j] && s[j] <= 122)
        || (48 <= s[j] && s[j] <= 57))
        invariant
            i <= j <= s@.len(),
            run_len(s@, i as int, p) == (j - i) + run_len(s@, j as int, p),
            forall|k: int| i <= k < j ==> is_ident_byte(#[trigger] s@[k]),
        decreases s@.len() - j,
    {
        proof {
            assert(p(s@[j as int]));
            assert(run_len(s@, j as int, p) == 1 + run_len(s@, j as int + 1, p));
        }
        j = j + 1;
    }
    proof {
        assert(run_len(s@, j as int, p) == 0);
    }
    j
}

/// Exec counterpart of `run_len` for space/tab bytes.
#[verifier::loop_isolation(false)]
pub fn space_run_end(s: &[u8], i: usize) -> (r: usize)
    requires
        i <= s@.len(),
    ensures
        r == i + run_len(s@, i as int, space_p()),
{
    let ghost p = space_p();
    let mut j: usize = i;
    while j < s.len() && (s[j] == 32 || s[j] == 9)
        invariant
            i <= j <= s@.len(),
            run_len(s@, i as int, p) == (j - i) + run_len(s@, j as int, p),
        decreases s@.len() - j,
    {
        proof {
            assert(p(s@[j as int]));
            assert(run_len(s@, j as int, p) == 1 + run_len(s@, j as int + 1, p));
        }
        j = j + 1;
    }
    proof {
        assert(run_len(s@, j as int, p) == 0);
    }
    j
}

/// Exec counterpart of `run_len` for value bytes.
#[verifier::loop_isolation(false)]
pub fn value_run_end(s: &[u8], i: usize) -> (r: usize)
    requires
        i <= s@.len(),
    ensures
        r == i + run_len(s@, i as int, value_p()),
{
    let ghost p = value_p();
    let mut j: usize = i;
    while j < s.len() && s[j] != 32 && s[j] != 9 && s[j] != 10
        invariant
            i <= j <= s@.len(),
            run_len(s@, i as int, p) == (j - i) + run_len(s@, j as int, p),
        decreases s@.len() - j,
    {
        proof {
            assert(p(s@[j as int]));
            assert(run_len(s@, j as int, p) == 1 + run_len(s@, j as int + 1, p));
        }
        j = j + 1;
    }
    proof {
        assert(run_len(s@, j as int, p) == 0);
    }
    j
}

/// Exec counterpart of `run_len` for `Value`-token bytes.
#[verifier::loop_isolation(false)]
pub fn lex_value_run_end(s: &[u8], i: usize) -> (r: usize)
    requires
        i <= s@.len(),
    ensures
        r == i + run_len(s@, i as int, lex_value_p()),
{
    let ghost p = lex_value_p();
    let mut j: usize = i;
    while j < s.len() && s[j] != 32 && s[j] != 9 && s[j] != 10 && s[j] != 64 && s[j] != 61
        invariant
            i <= j <= s@.len(),
            run_len(s@, i as int, p) == (j - i) + run_len(s@, j as int, p),
        decreases s@.len() - j,
    {
        proof {
            assert(is_value_byte(s@[j as int]));
            assert(p(s@[j as int]));
            assert(run_len(s@, j as int, p) == 1 + run_len(s@, j as int + 1, p));
        }
        j = j + 1;
    }
    proof {
        assert(run_len(s@, j as int, p) == 0);
    }
    j
}

} // verus!
