//! Parsing decimal strings into fixed-point scalars.
//!
//! The accepted grammar is an optional sign, then digits with at most one
//! decimal point and at least one digit (`-12`, `0.5`, `5.`, `.5`).  At most
//! nine digits are accepted before the point (the model's range), and digits
//! beyond the ninth after the point are ignored (they lie below the model's
//! resolution).  Infinities, exponents and other float syntax are not part
//! of the model and are rejected.

use crate::fixed::{Fx, SCALE};
use vstd::math::min;
use vstd::string::StringSliceAdditionalSpecFns;
use vstd::prelude::*;

verus! {

/// An ASCII decimal digit.
pub open spec fn is_digit(b: u8) -> bool {
    48 <= b <= 57
}

/// Every byte of `s` in `[a, b)` is a digit.
pub open spec fn all_digits_range(s: Seq<u8>, a: int, b: int) -> bool {
    forall|i: int| a <= i < b ==> is_digit(#[trigger] s[i])
}

/// The value of the digit run `s[a..b]`, most significant first.
pub open spec fn digits_range_val(s: Seq<u8>, a: int, b: int) -> int
    decreases b - a,
{
    if b <= a {
        0
    } else {
        digits_range_val(s, a, b - 1) * 10 + (s[b - 1] - 48)
    }
}

/// The `k`-th power of ten.
pub open spec fn pow10(k: nat) -> int
    decreases k,
{
    if k == 0 {
        1
    } else {
        10 * pow10((k - 1) as nat)
    }
}

/// The index of the first `.` in `s` at or after `i`.
pub open spec fn find_dot(s: Seq<u8>, i: int) -> Option<int>
    decreases s.len() - i,
{
    if i < 0 || i >= s.len() {
        None
    } else if s[i] == 46 {
        Some(i)
    } else {
        find_dot(s, i + 1)
    }
}

/// Whether an unsigned payload (everything after the sign) is well-formed:
/// digits with at most one point, at least one digit, and at most nine
/// digits before the point.
pub open spec fn payload_ok(s: Seq<u8>) -> bool {
    match find_dot(s, 0) {
        None => 1 <= s.len() <= 9 && all_digits_range(s, 0, s.len() as int),
        Some(d) => s.len() >= 2 && d <= 9 && all_digits_range(s, 0, d) && all_digits_range(
            s,
            d + 1,
            s.len() as int,
        ),
    }
}

/// The raw count an unsigned payload stands for: the integer digits scaled
/// up, plus the first nine fraction digits scaled and truncated.
pub open spec fn payload_val(s: Seq<u8>) -> int {
    match find_dot(s, 0) {
        None => digits_range_val(s, 0, s.len() as int) * SCALE,
        Some(d) => {
            let k = min(s.len() - (d + 1), 9);
            digits_range_val(s, 0, d) * SCALE + (digits_range_val(s, d + 1, d + 1 + k) * SCALE)
                / pow10(k as nat)
        },
    }
}

/// The raw count a decimal string stands for, or `None` where the grammar
/// does not match.
pub open spec fn parse_fx_bytes(s: Seq<u8>) -> Option<int> {
    let neg = s.len() > 0 && s[0] == 45;
    let p = if s.len() > 0 && (s[0] == 43 || s[0] == 45) {
        s.skip(1)
    } else {
        s
    };
    if payload_ok(p) {
        Some(
            if neg {
                -payload_val(p)
            } else {
                payload_val(p)
            },
        )
    } else {
        None
    }
}

/// A digit run of at most nine digits stays below one billion.
proof fn lemma_digits_range_val_bound(s: Seq<u8>, a: int, b: int)
    requires
        all_digits_range(s, a, b),
        b - a <= 9,
    ensures
        0 <= digits_range_val(s, a, b) < pow10((if b <= a { 0int } else { b - a }) as nat),
        digits_range_val(s, a, b) < 1000000000,
    decreases b - a,
{
    proof_pow10_concrete();
    if b > a {
        lemma_digits_range_val_bound(s, a, b - 1);
        if b - 1 <= a {
            assert(digits_range_val(s, a, b) == s[b - 1] - 48);
        }
    }
}

/// Evaluates the first ten powers of ten.
proof fn proof_pow10_concrete()
    ensures
        pow10(0) == 1,
        pow10(1) == 10,
        pow10(2) == 100,
        pow10(3) == 1000,
        pow10(4) == 10000,
        pow10(5) == 100000,
        pow10(6) == 1000000,
        pow10(7) == 10000000,
        pow10(8) == 100000000,
        pow10(9) == 1000000000,
{
    reveal_with_fuel(pow10, 11);
}

/// The `k`-th power of ten, for `k` up to nine.
fn pow10_u64(k: usize) -> (r: u64)
    requires
        k <= 9,
    ensures
        r == pow10(k as nat),
        1 <= r <= 1000000000,
{
    proof {
        proof_pow10_concrete();
    }
    let mut p: u64 = 1;
    let mut i: usize = 0;
    while i < k
        invariant
            i <= k <= 9,
            p == pow10(i as nat),
            p <= 1000000000,
        decreases k - i,
    {
        proof {
            proof_pow10_concrete();
            lemma_pow10_mono(i as nat, 8);
        }
        p = p * 10;
        i = i + 1;
    }
    proof {
        lemma_pow10_mono(k as nat, 9);
    }
    p
}

/// Powers of ten grow with the exponent.
proof fn lemma_pow10_mono(a: nat, b: nat)
    requires
        a <= b,
    ensures
        pow10(a) <= pow10(b),
        pow10(a) >= 1,
    decreases b,
{
    if a < b {
        lemma_pow10_mono(a, (b - 1) as nat);
        assert(pow10(b) == 10 * pow10((b - 1) as nat));
    } else if a == b && a > 0 {
        lemma_pow10_mono((a - 1) as nat, (b - 1) as nat);
    }
}

/// Accumulates the value of the digit run `bytes[a..b]`.
fn digits_value(bytes: &[u8], a: usize, b: usize) -> (v: u64)
    requires
        a <= b <= bytes@.len(),
        b - a <= 9,
        all_digits_range(bytes@, a as int, b as int),
    ensures
        v == digits_range_val(bytes@, a as int, b as int),
        v < 1000000000,
{
    proof {
        proof_pow10_concrete();
        lemma_digits_range_val_bound(bytes@, a as int, a as int);
    }
    let mut acc: u64 = 0;
    let mut j = a;
    while j < b
        invariant
            a <= j <= b <= bytes@.len(),
            b - a <= 9,
            all_digits_range(bytes@, a as int, b as int),
            acc == digits_range_val(bytes@, a as int, j as int),
            acc < 1000000000,
        decreases b - j,
    {
        proof {
            lemma_digits_range_val_bound(bytes@, a as int, j as int);
            lemma_digits_range_val_bound(bytes@, a as int, j + 1 as int);
        }
        acc = acc * 10 + ((bytes[j] - 48) as u64);
        j = j + 1;
    }
    acc
}

/// Parses a decimal string into a fixed-point scalar, exactly as
/// [`parse_fx_bytes`] says.
pub fn parse_fx(s: &str) -> (r: Option<Fx>)
    ensures
        match r {
            Some(f) => parse_fx_bytes(s.spec_bytes()) == Some(f@),
            None => parse_fx_bytes(s.spec_bytes()) is None,
        },
{
    let bytes = s.as_bytes();
    let n = bytes.len();
    let mut start: usize = 0;
    let mut negative = false;
    if n > 0 && (bytes[0] == 43 || bytes[0] == 45) {
        negative = bytes[0] == 45;
        start = 1;
    }
    let ghost p = bytes@.skip(start as int);
    proof {
        assert(bytes@.skip(0) =~= bytes@);
        assert(forall|i: int| 0 <= i < p.len() ==> p[i] == bytes@[start + i]);
    }
    let mut dot_pos: Option<usize> = None;
    let mut j = start;
    while j < n
        invariant
            start <= j <= n == bytes@.len(),
            start <= 1,
            bytes@ == s.spec_bytes(),
            p == bytes@.skip(start as int),
            start == 0 ==> p == bytes@,
            (start == 1) == (bytes@.len() > 0 && (bytes@[0] == 43 || bytes@[0] == 45)),
            forall|i: int| 0 <= i < p.len() ==> p[i] == bytes@[start + i],
            match dot_pos {
                None => find_dot(p, 0) == find_dot(p, j - start) && forall|t: int|
                    start <= t < j ==> is_digit(#[trigger] bytes@[t]),
                Some(dp) => start <= dp < j && bytes@[dp as int] == 46 && find_dot(p, 0) == Some(
                    dp - start,
                ) && forall|t: int| start <= t < j && t != dp ==> is_digit(#[trigger] bytes@[t]),
            },
        decreases n - j,
    {
        let b = bytes[j];
        if b == 46 {
            if dot_pos.is_some() {
                proof {
                    assert(p[j - start] == 46 && !is_digit(p[j - start]));
                    assert(!payload_ok(p));
                }
                return None;
            }
            dot_pos = Some(j);
        } else if !(48 <= b && b <= 57) {
            proof {
                assert(p[j - start] != 46 && !is_digit(p[j - start]));
                lemma_find_dot_props(p, 0);
                assert(!payload_ok(p));
            }
            return None;
        }
        j = j + 1;
    }
    proof {
        lemma_find_dot_none_past(p, n - start);
    }
    match dot_pos {
        None => {
            if n - start < 1 || n - start > 9 {
                return None;
            }
            let v = digits_value(bytes, start, n);
            proof {
                lemma_digits_shift(bytes@, start as int, n as int);
            }
            finish(v * 65536, negative)
        },
        Some(dp) => {
            if n - start < 2 || dp - start > 9 {
                return None;
            }
            let int_val = digits_value(bytes, start, dp);
            let frac_len = if n - (dp + 1) > 9 {
                9
            } else {
                n - (dp + 1)
            };
            let frac_val = digits_value(bytes, dp + 1, dp + 1 + frac_len);
            let scale_div = pow10_u64(frac_len);
            proof {
                lemma_digits_shift(bytes@, start as int, dp as int);
                lemma_digits_shift(bytes@, dp + 1 as int, dp + 1 + frac_len as int);
            }
            let frac_scaled = (frac_val * 65536) / scale_div;
            finish(int_val * 65536 + frac_scaled, negative)
        },
    }
}

/// Digit runs keep their value under an index shift into a suffix.
proof fn lemma_digits_shift(s: Seq<u8>, a: int, b: int)
    requires
        0 <= a,
        a <= b <= s.len(),
    ensures
        forall|o: int|
            0 <= o <= a ==> digits_range_val(s, a, b) == digits_range_val(
                #[trigger] s.skip(o),
                a - o,
                b - o,
            ),
    decreases b - a,
{
    if b > a {
        lemma_digits_shift(s, a, b - 1);
    }
}

/// `find_dot` never finds a dot at or past the end of what was scanned
/// without one.
proof fn lemma_find_dot_none_past(s: Seq<u8>, i: int)
    ensures
        i >= s.len() ==> find_dot(s, i) is None,
{
}

/// A found dot lies at or after the start of the search, inside the
/// sequence, on an actual dot byte.
proof fn lemma_find_dot_props(s: Seq<u8>, i: int)
    ensures
        find_dot(s, i) matches Some(d) ==> i <= d < s.len() && s[d] == 46,
    decreases s.len() - i,
{
    if 0 <= i < s.len() && s[i] != 46 {
        lemma_find_dot_props(s, i + 1);
    }
}

/// Applies the sign and packs the raw count.
fn finish(magnitude: u64, negative: bool) -> (r: Option<Fx>)
    requires
        magnitude < 0x8000_0000_0000_0000,
    ensures
        r matches Some(f) && f@ == if negative {
            -(magnitude as int)
        } else {
            magnitude as int
        },
{
    if negative {
        Some(Fx::from_raw(-(magnitude as i64)))
    } else {
        Some(Fx::from_raw(magnitude as i64))
    }
}

} // verus!
