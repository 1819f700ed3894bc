//! Decimal text of integers, as std's `Display` writes them.
use vstd::prelude::*;
use vstd::string::*;

use crate::text::string_of;

verus! {

/// The character of a decimal digit.
pub open spec fn digit(d: int) -> char {
    ((48 + d) as u8) as char
}

/// The decimal digits of `n`, without leading zeros.
pub open spec fn decimal(n: nat) -> Seq<char>
    decreases n,
{
    if n < 10 {
        seq![digit(n as int)]
    } else {
        decimal(n / 10).push(digit((n % 10) as int))
    }
}

/// The decimal text of a number is a non-empty run of ASCII digits.
pub proof fn lemma_decimal_digits(n: nat)
    ensures
        decimal(n).len() >= 1,
        forall|i: int| 0 <= i < decimal(n).len() ==> '0' <= #[trigger] decimal(n)[i] <= '9',
    decreases n,
{
    if n >= 10 {
        lemma_decimal_digits(n / 10);
    }
}

/// Ten to the `k`.
pub open spec fn pow10(k: nat) -> nat
    decreases k,
{
    if k == 0 {
        1
    } else {
        10 * pow10((k - 1) as nat)
    }
}

/// A number below `10^k` has at most `k` digits.
pub proof fn lemma_decimal_len(n: nat, k: nat)
    requires
        k >= 1,
        n < pow10(k),
    ensures
        decimal(n).len() <= k,
    decreases k,
{
    if n >= 10 {
        assert(k >= 2) by {
            if k == 1 {
                assert(pow10(1) == 10) by {
                    assert(pow10(0) == 1);
                }
            }
        }
        assert(n / 10 < pow10((k - 1) as nat));
        lemma_decimal_len(n / 10, (k - 1) as nat);
    }
}

/// The digits of a `u64` are at most twenty.
pub proof fn lemma_decimal_len_u64(n: u64)
    ensures
        decimal(n as nat).len() <= 20,
{
    reveal_with_fuel(pow10, 21);
    assert(pow10(20) == 100000000000000000000nat);
    lemma_decimal_len(n as nat, 20);
}

/// The text of an integer: a `-` for negative ones, then the digits.
pub open spec fn int_text(n: int) -> Seq<char> {
    if n < 0 {
        seq!['-'] + decimal((-n) as nat)
    } else {
        decimal(n as nat)
    }
}

/// `k` zeros.
pub open spec fn zeros(k: int) -> Seq<char> {
    Seq::new(if k > 0 { k as nat } else { 0 }, |_i: int| '0')
}

/// The text of an integer padded with zeros after its sign to at least `w` characters
/// (what `{:0w}` writes).
pub open spec fn padded_text(n: int, w: int) -> Seq<char> {
    let sign: Seq<char> = if n < 0 { seq!['-'] } else { Seq::empty() };
    let digits = decimal((if n < 0 { -n } else { n }) as nat);
    sign + zeros(w - sign.len() - digits.len()) + digits
}

/// The digit characters of `n` (as chars).
fn digits_of(n: u64) -> (v: Vec<char>)
    ensures
        v@ == decimal(n as nat),
{
    let mut v: Vec<char> = Vec::new();
    let mut m: u64 = n;
    let ghost mut acc: Seq<char> = Seq::empty();
    while m >= 10
        invariant
            decimal(n as nat) == decimal(m as nat) + v@,
        decreases m,
    {
        let d = (m % 10) as u8;
        let c = (48u8 + d) as char;
        proof {
            assert(decimal(m as nat) == decimal((m / 10) as nat).push(digit((m % 10) as int)));
            assert(decimal(m as nat) + v@ =~= decimal((m / 10) as nat) + v@.insert(0, c));
        }
        v.insert(0, c);
        m = m / 10;
    }
    let c = (48u8 + (m as u8)) as char;
    proof {
        assert(decimal(m as nat) == seq![c]);
        assert(decimal(n as nat) =~= v@.insert(0, c));
    }
    v.insert(0, c);
    v
}

/// The decimal text of an unsigned integer.
pub fn fmt_u64(n: u64) -> (r: String)
    ensures
        r@ == decimal(n as nat),
{
    let v = digits_of(n);
    string_of(&v, 0, v.len())
}

/// The decimal text of a signed integer.
pub fn fmt_i64(n: i64) -> (r: String)
    ensures
        r@ == int_text(n as int),
{
    if n < 0 {
        let m: u64 = (0i128 - (n as i128)) as u64;
        let v = digits_of(m);
        let mut s = String::from_str("-");
        s.append(string_of(&v, 0, v.len()).as_str());
        proof {
            reveal_strlit("-");
            assert(s@ =~= seq!['-'] + decimal((-n) as nat));
        }
        s
    } else {
        fmt_u64(n as u64)
    }
}

/// The text of a signed integer padded with zeros after its sign to at least `w` characters.
pub fn fmt_padded(n: i64, w: usize) -> (r: String)
    ensures
        r@ == padded_text(n as int, w as int),
{
    let negative = n < 0;
    let m: u64 = if negative {
        (0i128 - (n as i128)) as u64
    } else {
        n as u64
    };
    let digits = digits_of(m);
    proof {
        lemma_decimal_len_u64(m);
    }
    let sign_len: usize = if negative {
        1
    } else {
        0
    };
    let mut out: Vec<char> = Vec::new();
    if negative {
        out.push('-');
    }
    let used = sign_len + digits.len();
    let pad: usize = if w > used {
        w - used
    } else {
        0
    };
    let ghost start = out@;
    let mut i: usize = 0;
    while i < pad
        invariant
            i <= pad,
            out@.len() == start.len() + i,
            out@.subrange(0, start.len() as int) == start,
            forall|j: int| start.len() <= j < out@.len() ==> out@[j] == '0',
        decreases pad - i,
    {
        out.push('0');
        i = i + 1;
    }
    let ghost before = out@;
    let mut j: usize = 0;
    while j < digits.len()
        invariant
            j <= digits@.len(),
            out@ == before + digits@.subrange(0, j as int),
        decreases digits@.len() - j,
    {
        out.push(digits[j]);
        j = j + 1;
        assert(out@ =~= before + digits@.subrange(0, j as int));
    }
    proof {
        let sign: Seq<char> = if n < 0 {
            seq!['-']
        } else {
            Seq::empty()
        };
        assert(start =~= sign);
        assert(m as nat == (if n < 0 {
            -n
        } else {
            n as int
        }) as nat);
        assert(before =~= sign + zeros(w - sign.len() - digits@.len()));
        assert(out@ =~= padded_text(n as int, w as int));
    }
    string_of(&out, 0, out.len())
}

} // verus!
