//! Platform facts the library reasons about: the prefix of its own files and
//! how file names clash on case-sensitive and case-insensitive filesystems.

pub mod quoting;
pub mod linux;
pub mod macos;
pub mod windows;

use vstd::prelude::*;
use crate::text::{chars_of, push_char};
use crate::models::hex_digit;

verus! {

/// Prefix shared by the library's own files (temporary files, journals, lock).
/// Scans leave such files out.
pub const INTERNAL_PREFIX: &'static str = ".hashrename";

pub open spec fn ascii_fold(c: char) -> char {
    crate::sorter::ascii_lower(c)
}

/// `a` and `b` equal up to ASCII case.
pub open spec fn eq_ignore_ascii_case_spec(a: Seq<char>, b: Seq<char>) -> bool {
    a.len() == b.len() && forall|i: int| 0 <= i < a.len() ==> ascii_fold(#[trigger] a[i]) == ascii_fold(b[i])
}

fn fold_char(c: char) -> (r: char)
    ensures
        r == ascii_fold(c),
{
    if 'A' <= c && c <= 'Z' {
        let u: u32 = c as u32;
        assert(65 <= u <= 90);
        let v: u8 = (u + 32) as u8;
        v as char
    } else {
        c
    }
}

/// Whether two names name the same file: exact equality on a case-sensitive
/// filesystem, equality up to ASCII case otherwise.
pub fn names_conflict(case_sensitive: bool, a: &str, b: &str) -> (r: bool)
    ensures
        r == (if case_sensitive { a@ == b@ } else { eq_ignore_ascii_case_spec(a@, b@) }),
{
    let ca = chars_of(a);
    let cb = chars_of(b);
    if ca.len() != cb.len() {
        return false;
    }
    let mut i: usize = 0;
    while i < ca.len()
        invariant
            ca@ == a@,
            cb@ == b@,
            ca.len() == cb.len(),
            i <= ca.len(),
            forall|k: int| 0 <= k < i ==> if case_sensitive { ca@[k] == cb@[k] } else { ascii_fold(ca@[k]) == ascii_fold(cb@[k]) },
        decreases ca.len() - i,
    {
        let same = if case_sensitive { ca[i] == cb[i] } else { fold_char(ca[i]) == fold_char(cb[i]) };
        if !same {
            return false;
        }
        i += 1;
    }
    if case_sensitive {
        assert(a@ =~= b@);
    }
    true
}

/// The `k` low hexadecimal digits of `x`, most significant first, in
/// lowercase.
pub open spec fn hex_fixed(x: nat, k: nat) -> Seq<char>
    decreases k,
{
    if k == 0 {
        Seq::empty()
    } else {
        hex_fixed(x / 16, (k - 1) as nat).push(hex_digit((x % 16) as int))
    }
}

fn hex_digit_char(n: u64) -> (c: char)
    requires
        n < 16,
    ensures
        c == hex_digit(n as int),
{
    if n < 10 {
        ((48 + n) as u8) as char
    } else {
        ((87 + n) as u8) as char
    }
}

fn push_hex16(s: &mut String, x: u64)
    ensures
        final(s)@ == old(s)@ + hex_fixed(x as nat, 16),
{
    let mut digits: Vec<char> = Vec::new();
    let mut v: u64 = x;
    let mut k: usize = 0;
    assert(pow16(0) == 1);
    assert(x as nat / pow16(0) == x as nat);
    while k < 16
        invariant
            k <= 16,
            digits@.len() == k,
            forall|j: int| 0 <= j < k ==> #[trigger] digits@[j] == hex_digit(((x as nat / pow16(j as nat)) % 16) as int),
            v as nat == x as nat / pow16(k as nat),
        decreases 16 - k,
    {
        proof {
            lemma_pow16_step(x as nat, k as nat);
        }
        digits.push(hex_digit_char(v % 16));
        v = v / 16;
        k += 1;
    }
    let ghost start = s@;
    let mut j: usize = 16;
    while j > 0
        invariant
            j <= 16,
            digits@.len() == 16,
            forall|i: int| 0 <= i < 16 ==> #[trigger] digits@[i] == hex_digit(((x as nat / pow16(i as nat)) % 16) as int),
            s@ == start + hex_fixed(x as nat / pow16(j as nat), (16 - j) as nat),
        decreases j,
    {
        proof {
            lemma_pow16_step(x as nat, (j - 1) as nat);
        }
        push_char(s, digits[j - 1]);
        j -= 1;
    }
    assert(pow16(0) == 1);
}

pub open spec fn pow16(k: nat) -> nat
    decreases k,
{
    if k == 0 {
        1
    } else {
        16 * pow16((k - 1) as nat)
    }
}

proof fn lemma_pow16_step(x: nat, k: nat)
    ensures
        pow16(k) > 0,
        x / pow16(k + 1) == (x / pow16(k)) / 16,
    decreases k,
{
    if k > 0 {
        lemma_pow16_step(x, (k - 1) as nat);
    }
    assert(pow16(k + 1) == 16 * pow16(k));
    vstd::arithmetic::div_mod::lemma_div_denominator(x as int, pow16(k) as int, 16);
    assert(pow16(k) * 16 == 16 * pow16(k)) by (nonlinear_arith);
}

/// A run token: two 64-bit values as 32 lowercase hexadecimal digits.
pub fn token_hex(a: u64, b: u64) -> (r: String)
    ensures
        r@ == hex_fixed(a as nat, 16) + hex_fixed(b as nat, 16),
{
    let mut s = String::new();
    push_hex16(&mut s, a);
    push_hex16(&mut s, b);
    s
}

/// Attempts made by a rename that retries on transient errors.
pub const RENAME_ATTEMPTS: usize = 3;

/// Whether a rename that has failed `attempts` times should be tried again:
/// not after `AlreadyExists` or `NotFound` (`conclusive`), and at most
/// `RENAME_ATTEMPTS` times in all.
pub fn should_retry_rename(attempts: usize, conclusive: bool) -> (r: bool)
    ensures
        r == (!conclusive && attempts < RENAME_ATTEMPTS),
{
    !conclusive && attempts < RENAME_ATTEMPTS
}

} // verus!
