//! Exact decimal numbers and their canonical text.

use vstd::prelude::*;
use crate::text::{push_chars, push_zeros, zeros};

verus! {

/// The number `±mantissa × 10^exponent`, sign given by `negative`.
#[derive(Clone, Copy, Debug, PartialEq, Eq)]
pub struct Decimal {
    pub negative: bool,
    pub mantissa: u64,
    pub exponent: i32,
}

/// The character of the decimal digit `d` (`d < 10`).
pub open spec fn digit_char(d: nat) -> char {
    ((d + 48) as u8) as char
}

/// The decimal digits of `n`, most significant first, with no leading zero
/// (`"0"` for zero).
pub open spec fn digits(n: nat) -> Seq<char>
    decreases n,
{
    if n < 10 {
        seq![digit_char(n)]
    } else {
        digits(n / 10).push(digit_char(n % 10))
    }
}

/// The same number with the trailing zeros of its fractional part moved
/// out of the mantissa.
pub open spec fn trimmed(m: nat, e: int) -> (nat, int)
    decreases m,
{
    if e < 0 && m > 0 && m % 10 == 0 {
        trimmed(m / 10, e + 1)
    } else {
        (m, e)
    }
}

/// Positional text of `m × 10^e`: integer digits, then a point and the
/// fractional digits when there are any.
pub open spec fn magnitude_text(m: nat, e: int) -> Seq<char> {
    let ds = digits(m);
    if m == 0 {
        seq!['0']
    } else if e >= 0 {
        ds + zeros(e as nat)
    } else if ds.len() > -e {
        ds.subrange(0, ds.len() + e) + seq!['.'] + ds.subrange(ds.len() + e, ds.len() as int)
    } else {
        seq!['0', '.'] + zeros((-e - ds.len()) as nat) + ds
    }
}

/// Canonical text of a decimal: an optional minus sign, then the positional
/// digits with no trailing zero after the point and no point when nothing
/// follows it.
pub open spec fn number_text(d: Decimal) -> Seq<char> {
    let t = trimmed(d.mantissa as nat, d.exponent as int);
    (if d.negative {
        seq!['-']
    } else {
        Seq::<char>::empty()
    }) + magnitude_text(t.0, t.1)
}

proof fn lemma_digits_len(n: nat)
    ensures
        digits(n).len() >= 1,
    decreases n,
{
    if n >= 10 {
        lemma_digits_len(n / 10);
    }
}

/// The digits of `n`, most significant first.
pub fn digit_vec(n: u64) -> (r: Vec<char>)
    ensures
        r@ == digits(n as nat),
    decreases n,
{
    if n < 10 {
        let c = (48u8 + n as u8) as char;
        vec![c]
    } else {
        let mut v = digit_vec(n / 10);
        let c = (48u8 + (n % 10) as u8) as char;
        v.push(c);
        v
    }
}

/// Appends the canonical text of `d` to `out`.
pub fn push_number(out: &mut String, d: &Decimal)
    ensures
        final(out)@ == old(out)@ + number_text(*d),
{
    let ghost start = out@;
    if d.negative {
        out.push('-');
    }
    let ghost signed = out@;
    assert(signed == start + (if d.negative {
        seq!['-']
    } else {
        Seq::<char>::empty()
    }));
    let mut m: u64 = d.mantissa;
    let mut e: i64 = d.exponent as i64;
    while e < 0 && m > 0 && m % 10 == 0
        invariant
            trimmed(m as nat, e as int) == trimmed(d.mantissa as nat, d.exponent as int),
            i32::MIN <= e <= i32::MAX,
        decreases m,
    {
        m = m / 10;
        e = e + 1;
    }
    let ghost t = trimmed(m as nat, e as int);
    assert(t == (m as nat, e as int));
    if m == 0 {
        out.push('0');
    } else {
        let ds = digit_vec(m);
        proof {
            lemma_digits_len(m as nat);
        }
        let len = ds.len();
        if e >= 0 {
            push_chars(out, &ds, 0, len);
            push_zeros(out, e as u64);
            assert(ds@.subrange(0, len as int) =~= ds@);
        } else {
            let k: u64 = (-e) as u64;
            if (len as u64) > k {
                let cut = len - k as usize;
                push_chars(out, &ds, 0, cut);
                out.push('.');
                push_chars(out, &ds, cut, len);
                assert(out@ =~= signed + (ds@.subrange(0, cut as int) + seq!['.']
                    + ds@.subrange(cut as int, len as int)));
            } else {
                out.push('0');
                out.push('.');
                push_zeros(out, k - len as u64);
                push_chars(out, &ds, 0, len);
                assert(ds@.subrange(0, len as int) =~= ds@);
                assert(out@ =~= signed + (seq!['0', '.'] + zeros((k - len) as nat) + ds@));
            }
        }
    }
    assert(out@ =~= old(out)@ + number_text(*d));
}

} // verus!
