//! Floating-point values, held as their IEEE-754 bit patterns, written with three decimals as
//! std's `{:.3}` writes them: the exact value rounded to the nearest thousandth, a tie going to
//! the even thousandth.
use vstd::prelude::*;
use vstd::string::*;

use crate::fmt::{decimal, digit, fmt_padded, fmt_u64, padded_text, pow10};
use crate::text::string_of;
use vstd::arithmetic::power2::{
    lemma2_to64, lemma2_to64_rest, lemma_pow2_strictly_increases, lemma_pow2_unfold, pow2,
};

verus! {

/// The number of thousandths nearest to `m * 2^e`, a tie going to the even one.
pub open spec fn thousandths(m: nat, e: int) -> nat {
    if e >= 0 {
        m * pow2(e as nat) * 1000
    } else {
        let d = pow2((-e) as nat);
        let q = (m * 1000) / d;
        let r = (m * 1000) % d;
        if 2 * r > d || (2 * r == d && q % 2 == 1) {
            q + 1
        } else {
            q
        }
    }
}

/// The text of `m * 2^e` with three decimals.
pub open spec fn fixed3_text(m: nat, e: int) -> Seq<char> {
    let n = thousandths(m, e);
    decimal(n / 1000) + "."@ + padded_text((n % 1000) as int, 3)
}

/// The text of a finite value of sign `negative` and magnitude `m * 2^e`: a `-` for a set
/// sign bit (also for zero), then the magnitude with three decimals.
pub open spec fn signed_fixed3_text(negative: bool, m: nat, e: int) -> Seq<char> {
    if negative {
        "-"@ + fixed3_text(m, e)
    } else {
        fixed3_text(m, e)
    }
}

/// What `{:.3}` writes for the `f64` with bit pattern `bits`.
pub open spec fn f64_text(bits: u64) -> Seq<char> {
    let b = bits as nat;
    let negative = b / pow2(63) == 1;
    let exp = (b / pow2(52)) % 2048;
    let frac = b % pow2(52);
    if exp == 2047 {
        if frac != 0 {
            "NaN"@
        } else if negative {
            "-inf"@
        } else {
            "inf"@
        }
    } else if exp == 0 {
        signed_fixed3_text(negative, frac, -1074)
    } else {
        signed_fixed3_text(negative, (frac + pow2(52)) as nat, exp - 1075)
    }
}

/// What `{:.3}` writes for the `f32` with bit pattern `bits`.
pub open spec fn f32_text(bits: u32) -> Seq<char> {
    let b = bits as nat;
    let negative = b / pow2(31) == 1;
    let exp = (b / pow2(23)) % 256;
    let frac = b % pow2(23);
    if exp == 255 {
        if frac != 0 {
            "NaN"@
        } else if negative {
            "-inf"@
        } else {
            "inf"@
        }
    } else if exp == 0 {
        signed_fixed3_text(negative, frac, -149)
    } else {
        signed_fixed3_text(negative, (frac + pow2(23)) as nat, exp - 150)
    }
}

/// The value of decimal digits, least significant first.
pub open spec fn digits_value(ds: Seq<u8>) -> nat
    decreases ds.len(),
{
    if ds.len() == 0 {
        0
    } else {
        digits_value(ds.drop_last()) + ds.last() as nat * pow10((ds.len() - 1) as nat)
    }
}

/// Whether every entry is a decimal digit.
pub open spec fn all_digits(ds: Seq<u8>) -> bool {
    forall|i: int| 0 <= i < ds.len() ==> #[trigger] ds[i] < 10
}

/// Whether the digits have no leading zero (the last, most significant, is not zero).
pub open spec fn canonical(ds: Seq<u8>) -> bool {
    ds.len() >= 1 && ds.last() != 0 && all_digits(ds)
}

/// The text of digits, most significant first.
pub open spec fn digits_text(ds: Seq<u8>) -> Seq<char> {
    Seq::new(ds.len(), |j: int| digit(ds[ds.len() - 1 - j] as int))
}

/// Ten to a power is positive, and grows by ten with each step.
proof fn lemma_pow10_step(k: nat)
    ensures
        pow10(k) >= 1,
        pow10(k + 1) == 10 * pow10(k),
    decreases k,
{
    if k > 0 {
        lemma_pow10_step((k - 1) as nat);
    }
}

/// Two to a power grows with the power, and is positive.
proof fn lemma_pow2_mono(a: nat, b: nat)
    requires
        a <= b,
    ensures
        pow2(a) <= pow2(b),
        pow2(a) >= 1,
{
    lemma2_to64();
    if a > 0 {
        lemma_pow2_strictly_increases(0, a);
    }
    if a < b {
        lemma_pow2_strictly_increases(a, b);
    }
}

/// The value of digits counted from the most significant end.
proof fn lemma_digits_value_front(ds: Seq<u8>)
    requires
        ds.len() >= 1,
    ensures
        digits_value(ds) == ds[0] as nat + 10 * digits_value(ds.drop_first()),
    decreases ds.len(),
{
    if ds.len() == 1 {
        assert(ds.drop_last() =~= Seq::<u8>::empty());
        assert(ds.drop_first() =~= Seq::<u8>::empty());
        assert(pow10(0) == 1);
        assert(digits_value(ds.drop_last()) == 0);
        assert(digits_value(ds) == digits_value(ds.drop_last()) + ds.last() as nat * pow10(0));
    } else {
        let t = ds.drop_last();
        let u = ds.drop_first();
        lemma_digits_value_front(t);
        assert(t.drop_first() =~= u.drop_last());
        let n = (ds.len() - 1) as nat;
        lemma_pow10_step((n - 1) as nat);
        assert(u.last() == ds.last());
        assert(t[0] == ds[0]);
        let a = ds.last() as nat;
        assert(digits_value(u) == digits_value(u.drop_last()) + a * pow10((n - 1) as nat));
        assert(digits_value(ds) == digits_value(t) + a * pow10(n));
        assert(10 * (digits_value(t.drop_first()) + a * pow10((n - 1) as nat)) == 10
            * digits_value(t.drop_first()) + a * (10 * pow10((n - 1) as nat))) by (nonlinear_arith);
    }
}

/// Canonical digits have the value of a number with that many digits.
proof fn lemma_digits_value_low(ds: Seq<u8>)
    requires
        canonical(ds),
    ensures
        digits_value(ds) >= pow10((ds.len() - 1) as nat),
{
    let p = pow10((ds.len() - 1) as nat);
    assert(ds.last() as nat * p >= p) by (nonlinear_arith)
        requires
            ds.last() as nat >= 1,
    ;
}

/// The text of canonical digits is the decimal text of their value.
proof fn lemma_digits_text(ds: Seq<u8>)
    requires
        canonical(ds),
    ensures
        decimal(digits_value(ds)) == digits_text(ds),
    decreases ds.len(),
{
    lemma_digits_value_front(ds);
    if ds.len() == 1 {
        assert(ds.drop_first().len() == 0);
        assert(digits_text(ds) =~= seq![digit(ds[0] as int)]);
    } else {
        let t = ds.drop_first();
        assert(t.last() == ds.last());
        assert(canonical(t));
        lemma_digits_text(t);
        lemma_digits_value_low(t);
        lemma_pow10_step(0);
        let v = digits_value(ds);
        assert(v / 10 == digits_value(t));
        assert(v % 10 == ds[0] as nat);
        assert(digits_text(ds) =~= digits_text(t).push(digit(ds[0] as int)));
    }
}

/// Adding a most significant digit.
proof fn lemma_digits_value_push(ds: Seq<u8>, d: u8)
    ensures
        digits_value(ds.push(d)) == digits_value(ds) + d as nat * pow10(ds.len()),
{
    assert(ds.push(d).drop_last() =~= ds);
}

/// The decimal digits of `n`, least significant first; none for zero.
fn digits_of_u64(n: u64) -> (r: Vec<u8>)
    ensures
        all_digits(r@),
        digits_value(r@) == n,
        n > 0 ==> canonical(r@),
{
    let mut r: Vec<u8> = Vec::new();
    let mut m: u64 = n;
    assert(pow10(0) == 1);
    assert(digits_value(r@) == 0);
    while m > 0
        invariant
            all_digits(r@),
            digits_value(r@) + m * pow10(r@.len()) == n,
            r@.len() == 0 || m > 0 || r@.last() != 0,
            n > 0 ==> (r@.len() > 0 || m > 0),
        decreases m,
    {
        let d = (m % 10) as u8;
        let ghost k = r@.len();
        proof {
            lemma_digits_value_push(r@, d);
            lemma_pow10_step(k);
            let p = pow10(k);
            assert(m * p == (m % 10) * p + (m / 10) * (10 * p)) by (nonlinear_arith);
        }
        r.push(d);
        m = m / 10;
    }
    r
}

/// The digits of twice the value.
fn double_digits(ds: &Vec<u8>) -> (r: Vec<u8>)
    requires
        all_digits(ds@),
    ensures
        all_digits(r@),
        digits_value(r@) == 2 * digits_value(ds@),
        canonical(ds@) ==> canonical(r@),
{
    let mut r: Vec<u8> = Vec::new();
    let mut carry: u8 = 0;
    let mut i: usize = 0;
    while i < ds.len()
        invariant
            all_digits(ds@),
            all_digits(r@),
            i <= ds@.len(),
            r@.len() == i,
            carry <= 1,
            digits_value(r@) + carry * pow10(i as nat) == 2 * digits_value(ds@.take(i as int)),
            i > 0 ==> (carry == 0 ==> r@.last() >= 2 * ds@[i - 1]),
        decreases ds@.len() - i,
    {
        let x = 2 * ds[i] + carry;
        let ghost p = pow10(i as nat);
        proof {
            lemma_digits_value_push(r@, x % 10);
            lemma_digits_value_push(ds@.take(i as int), ds@[i as int]);
            assert(ds@.take(i + 1) =~= ds@.take(i as int).push(ds@[i as int]));
            lemma_pow10_step(i as nat);
            assert((x % 10) as nat * p + (x / 10) as nat * (10 * p) == x as nat * p) by (nonlinear_arith);
            assert(x as nat * p == 2 * (ds@[i as int] as nat * p) + carry * p) by (nonlinear_arith)
                requires
                    x == 2 * ds@[i as int] + carry,
            ;
        }
        r.push(x % 10);
        carry = x / 10;
        i = i + 1;
    }
    assert(ds@.take(i as int) =~= ds@);
    if carry > 0 {
        proof {
            lemma_digits_value_push(r@, 1);
        }
        r.push(1);
    }
    r
}

/// The decimal text of `m * 2^e`.
fn big_text(m: u64, e: u32) -> (r: String)
    requires
        m > 0,
    ensures
        r@ == decimal(m as nat * pow2(e as nat)),
{
    let mut ds = digits_of_u64(m);
    let mut i: u32 = 0;
    proof {
        lemma2_to64();
    }
    while i < e
        invariant
            i <= e,
            canonical(ds@),
            digits_value(ds@) == m as nat * pow2(i as nat),
        decreases e - i,
    {
        ds = double_digits(&ds);
        proof {
            lemma_pow2_unfold((i + 1) as nat);
            assert(2 * (m * pow2(i as nat)) == m * (2 * pow2(i as nat))) by (nonlinear_arith);
        }
        i = i + 1;
    }
    let mut chars: Vec<char> = Vec::new();
    let n = ds.len();
    let mut j: usize = 0;
    while j < n
        invariant
            n == ds@.len(),
            canonical(ds@),
            j <= n,
            chars@ == digits_text(ds@).take(j as int),
        decreases n - j,
    {
        let d = ds[n - 1 - j];
        let c = (48u8 + d) as char;
        chars.push(c);
        assert(chars@ =~= digits_text(ds@).take(j + 1));
        j = j + 1;
    }
    proof {
        lemma_digits_text(ds@);
        assert(chars@ =~= digits_text(ds@));
    }
    string_of(&chars, 0, chars.len())
}

/// Two to the `k`, for `k < 64`.
fn pow2_u64(k: u32) -> (r: u64)
    requires
        k < 64,
    ensures
        r == pow2(k as nat),
{
    let mut r: u64 = 1;
    let mut i: u32 = 0;
    proof {
        lemma2_to64();
    }
    while i < k
        invariant
            i <= k < 64,
            r == pow2(i as nat),
        decreases k - i,
    {
        proof {
            lemma_pow2_mono(i as nat, 62);
            lemma2_to64_rest();
            lemma_pow2_unfold((i + 1) as nat);
        }
        r = r * 2;
        i = i + 1;
    }
    r
}

/// The text of `m * 2^e` with three decimals, `e` given by its sign and size.
fn fixed3(m: u64, e_negative: bool, k: u32) -> (r: String)
    requires
        m < 0x20_0000_0000_0000,
    ensures
        r@ == fixed3_text(m as nat, if e_negative { -(k as int) } else { k as int }),
{
    let ghost e: int = if e_negative { -(k as int) } else { k as int };
    if !e_negative && m > 0 {
        let mut out = big_text(m, k);
        proof {
            let v = m * pow2(k as nat);
            assert(v * 1000 / 1000 == v) by (nonlinear_arith);
            assert(v * 1000 % 1000 == 0) by (nonlinear_arith);
            assert(thousandths(m as nat, e) == v * 1000);
            reveal_strlit("000");
            reveal_strlit(".000");
            assert(padded_text(0, 3) =~= "000"@);
        }
        out.append(".000");
        proof {
            reveal_strlit(".");
            assert(".000"@ =~= "."@ + "000"@);
        }
        return out;
    }
    let x: u64 = m * 1000;
    let n: u64 = if !e_negative {
        proof {
            assert(m * pow2(k as nat) * 1000 == 0) by (nonlinear_arith)
                requires
                    m == 0,
            ;
        }
        0
    } else if k >= 64 {
        proof {
            lemma_pow2_mono(64, k as nat);
            lemma2_to64();
            let d = pow2(k as nat);
            assert(x < 0x8000_0000_0000_0000);
            assert((x as nat) / d == 0 && (x as nat) % d == x as nat) by (nonlinear_arith)
                requires
                    (x as nat) < d,
            ;
            assert(m as nat * 1000 == x as nat);
            assert(thousandths(m as nat, e) == 0);
        }
        0
    } else {
        let d = pow2_u64(k);
        proof {
            lemma_pow2_mono(0, k as nat);
            lemma2_to64();
            assert(m as nat * 1000 == x as nat);
        }
        let q = x / d;
        let r = x % d;
        proof {
            if k == 0 {
                assert(d == 1);
                assert(q == x && r == 0) by (nonlinear_arith)
                    requires
                        d == 1,
                        q == x / d,
                        r == x % d,
                ;
                assert(m as nat * pow2(0) * 1000 == x as nat);
            } else {
                assert(e < 0);
                assert((-e) as nat == k as nat);
                assert((m as nat * 1000) / pow2((-e) as nat) == q as nat);
                assert((m as nat * 1000) % pow2((-e) as nat) == r as nat);
            }
        }
        if (2 * (r as u128) > d as u128) || (2 * (r as u128) == d as u128 && q % 2 == 1) {
            proof {
                assert(q <= x);
                assert(x < 0x8000_0000_0000_0000);
                assert(thousandths(m as nat, e) == q + 1);
            }
            q + 1
        } else {
            assert(thousandths(m as nat, e) == q);
            q
        }
    };
    let mut out = fmt_u64(n / 1000);
    out.append(".");
    let frac = fmt_padded((n % 1000) as i64, 3);
    out.append(frac.as_str());
    out
}

/// What `{:.3}` writes for a finite value of sign `negative` and magnitude `m * 2^e`.
fn signed_fixed3(negative: bool, m: u64, e_negative: bool, k: u32) -> (r: String)
    requires
        m < 0x20_0000_0000_0000,
    ensures
        r@ == signed_fixed3_text(negative, m as nat, if e_negative { -(k as int) } else { k as int }),
{
    let t = fixed3(m, e_negative, k);
    if negative {
        let mut out = String::from_str("-");
        out.append(t.as_str());
        out
    } else {
        t
    }
}

/// Writes the `f64` with bit pattern `bits` as `{:.3}` does.
pub fn fmt_f64_bits(bits: u64) -> (r: String)
    ensures
        r@ == f64_text(bits),
{
    proof {
        lemma2_to64_rest();
    }
    let negative = bits / 0x8000_0000_0000_0000 == 1;
    let exp = (bits / 0x10_0000_0000_0000) % 2048;
    let frac = bits % 0x10_0000_0000_0000;
    if exp == 2047 {
        if frac != 0 {
            String::from_str("NaN")
        } else if negative {
            String::from_str("-inf")
        } else {
            String::from_str("inf")
        }
    } else if exp == 0 {
        signed_fixed3(negative, frac, true, 1074)
    } else {
        let m = frac + 0x10_0000_0000_0000;
        if exp >= 1075 {
            signed_fixed3(negative, m, false, (exp - 1075) as u32)
        } else {
            signed_fixed3(negative, m, true, (1075 - exp) as u32)
        }
    }
}

/// Writes the `f32` with bit pattern `bits` as `{:.3}` does.
pub fn fmt_f32_bits(bits: u32) -> (r: String)
    ensures
        r@ == f32_text(bits),
{
    proof {
        lemma2_to64();
    }
    let negative = bits / 0x8000_0000 == 1;
    let exp = (bits / 0x80_0000) % 256;
    let frac = bits % 0x80_0000;
    if exp == 255 {
        if frac != 0 {
            String::from_str("NaN")
        } else if negative {
            String::from_str("-inf")
        } else {
            String::from_str("inf")
        }
    } else if exp == 0 {
        signed_fixed3(negative, frac as u64, true, 149)
    } else {
        let m = (frac + 0x80_0000) as u64;
        if exp >= 150 {
            signed_fixed3(negative, m, false, exp - 150)
        } else {
            signed_fixed3(negative, m, true, 150 - exp)
        }
    }
}

} // verus!
