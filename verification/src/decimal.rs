//! Normalization of venue price and quantity encodings.
//!
//! Venues encode prices and quantities as decimal strings of varying
//! shapes ("25930.04000000", "101", "0.5"). They are normalized to one
//! fixed-point representation: an unsigned integer scaled by `SCALE`
//! (eight fractional digits). The accepted grammar — digits, optionally
//! one dot and one to eight fraction digits, the integer part at most
//! eleven digits — is stated by `valid_decimal`, and every accepted
//! value fits in a `u64`.

use vstd::prelude::*;

verus! {

/// Fixed-point scale: a stored value of `SCALE` is the decimal one.
pub const SCALE: u64 = 100_000_000;

pub open spec fn is_digit(c: u8) -> bool {
    48 <= c <= 57
}

pub open spec fn all_digits(s: Seq<u8>) -> bool {
    forall|i: int| 0 <= i < s.len() ==> is_digit(#[trigger] s[i])
}

/// The number a digit string denotes.
pub open spec fn digits_val(s: Seq<u8>) -> int
    decreases s.len(),
{
    if s.len() == 0 {
        0
    } else {
        digits_val(s.drop_last()) * 10 + (s.last() - 48)
    }
}

/// Index of the first dot, or a negative value if there is none.
pub open spec fn dot_index(s: Seq<u8>) -> int
    decreases s.len(),
{
    if s.len() == 0 {
        -1
    } else if s[0] == 46 {
        0
    } else {
        let r = dot_index(s.drop_first());
        if r < 0 {
            -1
        } else {
            r + 1
        }
    }
}

pub open spec fn pow10(n: nat) -> int
    decreases n,
{
    if n == 0 {
        1
    } else {
        10 * pow10((n - 1) as nat)
    }
}

/// The accepted decimal grammar: one to eleven integer digits, then
/// optionally one dot and one to eight fraction digits.
pub open spec fn valid_decimal(s: Seq<u8>) -> bool {
    let d = dot_index(s);
    if d < 0 {
        1 <= s.len() <= 11 && all_digits(s)
    } else {
        &&& 1 <= d <= 11
        &&& all_digits(s.subrange(0, d))
        &&& 1 <= s.len() - d - 1 <= 8
        &&& all_digits(s.subrange(d + 1, s.len() as int))
    }
}

/// The fixed-point value a valid decimal string denotes.
pub open spec fn decimal_value(s: Seq<u8>) -> int {
    let d = dot_index(s);
    if d < 0 {
        digits_val(s) * (SCALE as int)
    } else {
        let frac = s.subrange(d + 1, s.len() as int);
        digits_val(s.subrange(0, d)) * (SCALE as int) + digits_val(frac) * pow10(
            (8 - frac.len()) as nat,
        )
    }
}

proof fn lemma_pow10_values()
    ensures
        pow10(0) == 1,
        pow10(1) == 10,
        pow10(2) == 100,
        pow10(3) == 1000,
        pow10(4) == 10000,
        pow10(5) == 100000,
        pow10(6) == 1000000,
        pow10(7) == 10000000,
        pow10(8) == 100000000,
        pow10(9) == 1000000000,
        pow10(10) == 10000000000,
        pow10(11) == 100000000000,
{
    assert(pow10(0) == 1);
    assert(pow10(1) == 10);
    assert(pow10(2) == 100);
    assert(pow10(3) == 1000);
    assert(pow10(4) == 10000);
    assert(pow10(5) == 100000);
    assert(pow10(6) == 1000000);
    assert(pow10(7) == 10000000);
    assert(pow10(8) == 100000000);
    assert(pow10(9) == 1000000000);
    assert(pow10(10) == 10000000000);
    assert(pow10(11) == 100000000000);
}

proof fn lemma_pow10_pos(n: nat)
    ensures
        pow10(n) >= 1,
    decreases n,
{
    if n > 0 {
        lemma_pow10_pos((n - 1) as nat);
    }
}

proof fn lemma_pow10_mono(a: nat, b: nat)
    requires
        a <= b,
    ensures
        pow10(a) <= pow10(b),
        pow10(a) >= 1,
    decreases b,
{
    lemma_pow10_pos(a);
    if a < b {
        lemma_pow10_mono(a, (b - 1) as nat);
    }
}

/// A digit string of `n` digits denotes a value below `pow10(n)`.
proof fn lemma_digits_bound(s: Seq<u8>)
    requires
        all_digits(s),
    ensures
        0 <= digits_val(s) < pow10(s.len() as nat),
    decreases s.len(),
{
    if s.len() > 0 {
        assert(forall|i: int|
            0 <= i < s.drop_last().len() ==> #[trigger] s.drop_last()[i] == s[i]);
        lemma_digits_bound(s.drop_last());
    }
}

proof fn lemma_dot_at(s: Seq<u8>, i: int)
    requires
        0 <= i < s.len(),
        forall|j: int| 0 <= j < i ==> #[trigger] s[j] != 46,
        s[i] == 46,
    ensures
        dot_index(s) == i,
    decreases i,
{
    if i > 0 {
        assert(forall|j: int|
            0 <= j < s.drop_first().len() ==> #[trigger] s.drop_first()[j] == s[j + 1]);
        lemma_dot_at(s.drop_first(), i - 1);
    }
}

proof fn lemma_dot_none(s: Seq<u8>)
    requires
        forall|j: int| 0 <= j < s.len() ==> #[trigger] s[j] != 46,
    ensures
        dot_index(s) < 0,
    decreases s.len(),
{
    if s.len() > 0 {
        assert(forall|j: int|
            0 <= j < s.drop_first().len() ==> #[trigger] s.drop_first()[j] == s[j + 1]);
        lemma_dot_none(s.drop_first());
    }
}

fn frac_scale(flen: usize) -> (r: u64)
    requires
        1 <= flen <= 8,
    ensures
        r as int == pow10((8 - flen) as nat),
{
    proof {
        lemma_pow10_values();
    }
    match flen {
        1 => 10_000_000,
        2 => 1_000_000,
        3 => 100_000,
        4 => 10_000,
        5 => 1_000,
        6 => 100,
        7 => 10,
        _ => 1,
    }
}

/// Parse a decimal string into the fixed-point representation. Returns
/// the value exactly when the input matches the accepted grammar.
pub fn parse_decimal(s: &[u8]) -> (r: Option<u64>)
    ensures
        r is Some <==> valid_decimal(s@),
        r matches Some(v) ==> v as int == decimal_value(s@),
{
    let n = s.len();
    let mut d: usize = 0;
    while d < n && s[d] != 46u8
        invariant
            d <= n,
            n == s@.len(),
            forall|j: int| 0 <= j < d ==> #[trigger] s@[j] != 46,
        decreases n - d,
    {
        d = d + 1;
    }
    proof {
        if d < n {
            lemma_dot_at(s@, d as int);
        } else {
            lemma_dot_none(s@);
        }
    }
    let has_dot = d < n;
    if d < 1 || d > 11 {
        return None;
    }
    let mut acc: u64 = 0;
    let mut i: usize = 0;
    while i < d
        invariant
            i <= d,
            1 <= d <= 11,
            d <= n == s@.len(),
            acc as int == digits_val(s@.subrange(0, i as int)),
            all_digits(s@.subrange(0, i as int)),
            (acc as int) < pow10(i as nat),
            has_dot == (d < n),
            has_dot ==> dot_index(s@) == d as int,
            !has_dot ==> dot_index(s@) < 0 && d == n,
        decreases d - i,
    {
        let c = s[i];
        if c < 48 || c > 57 {
            proof {
                assert(s@.subrange(0, d as int)[i as int] == s@[i as int]);
                assert(!all_digits(s@.subrange(0, d as int)));
                if !has_dot {
                    assert(s@.subrange(0, d as int) =~= s@);
                }
            }
            return None;
        }
        proof {
            lemma_pow10_values();
            lemma_pow10_mono((i + 1) as nat, 11);
            let pre = s@.subrange(0, i as int);
            let cur = s@.subrange(0, i + 1 as int);
            assert(cur.drop_last() =~= pre);
            assert(cur.last() == s@[i as int]);
            assert(forall|j: int| 0 <= j < cur.len() ==> #[trigger] cur[j] == s@[j]);
        }
        acc = acc * 10 + ((c - 48) as u64);
        i = i + 1;
    }
    if !has_dot {
        proof {
            assert(s@.subrange(0, d as int) =~= s@);
            lemma_pow10_values();
            lemma_pow10_mono(d as nat, 11);
            assert(valid_decimal(s@));
        }
        return Some(acc * SCALE);
    }
    let flen = n - d - 1;
    if flen < 1 || flen > 8 {
        return None;
    }
    let mut facc: u64 = 0;
    let mut k: usize = 0;
    while k < flen
        invariant
            k <= flen,
            1 <= flen <= 8,
            d + 1 + flen == n,
            n == s@.len(),
            1 <= d <= 11,
            dot_index(s@) == d as int,
            facc as int == digits_val(s@.subrange(d + 1 as int, d + 1 + k as int)),
            all_digits(s@.subrange(d + 1 as int, d + 1 + k as int)),
            (facc as int) < pow10(k as nat),
        decreases flen - k,
    {
        let c = s[d + 1 + k];
        if c < 48 || c > 57 {
            proof {
                assert(s@.subrange(d + 1 as int, n as int)[k as int] == s@[d + 1 + k as int]);
                assert(!all_digits(s@.subrange(d + 1 as int, n as int)));
            }
            return None;
        }
        proof {
            lemma_pow10_values();
            lemma_pow10_mono((k + 1) as nat, 8);
            let pre = s@.subrange(d + 1 as int, d + 1 + k as int);
            let cur = s@.subrange(d + 1 as int, d + 1 + (k + 1) as int);
            assert(cur.drop_last() =~= pre);
            assert(cur.last() == s@[d + 1 + k as int]);
            assert(forall|j: int| 0 <= j < cur.len() ==> #[trigger] cur[j] == s@[d + 1 + j]);
        }
        facc = facc * 10 + ((c - 48) as u64);
        k = k + 1;
    }
    let factor = frac_scale(flen);
    proof {
        lemma_pow10_values();
        lemma_pow10_mono(d as nat, 11);
        lemma_pow10_mono(flen as nat, 8);
        assert(s@.subrange(d + 1 as int, d + 1 + flen as int) =~= s@.subrange(
            d + 1 as int,
            n as int,
        ));
        assert(valid_decimal(s@));
        lemma_pow10_adds(flen as nat, (8 - flen) as nat);
        assert((facc as int) * (factor as int) <= (pow10(flen as nat) - 1) * pow10(
            (8 - flen) as nat,
        )) by (nonlinear_arith)
            requires
                (facc as int) < pow10(flen as nat),
                factor as int == pow10((8 - flen) as nat),
                factor >= 1,
        ;
        assert((pow10(flen as nat) - 1) * pow10((8 - flen) as nat) < pow10(8)) by (nonlinear_arith)
            requires
                pow10(flen as nat) >= 1,
                pow10((8 - flen) as nat) >= 1,
                pow10(flen as nat) * pow10((8 - flen) as nat) == pow10(8),
        ;
    }
    Some(acc * SCALE + facc * factor)
}

proof fn lemma_pow10_adds(a: nat, b: nat)
    ensures
        pow10(a) * pow10(b) == pow10(a + b),
    decreases a,
{
    if a > 0 {
        lemma_pow10_adds((a - 1) as nat, b);
        assert(pow10(a) * pow10(b) == 10 * (pow10((a - 1) as nat) * pow10(b)))
            by (nonlinear_arith)
            requires
                pow10(a) == 10 * pow10((a - 1) as nat),
        ;
    }
}

} // verus!
