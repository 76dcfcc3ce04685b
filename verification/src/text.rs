//! Rendering numbers, amounts and flags as text.
//!
//! Amounts are written with exactly four fractional digits, the way
//! `rust_decimal` formats a decimal at precision 4: digits beyond the fourth
//! are cut off (not rounded), missing ones are padded with zeros, and a
//! negative amount carries a leading `-`.
use crate::amount::{pow10, Amount, MAX_MANTISSA};
use vstd::prelude::*;

verus! {

/// The character of a decimal digit.
pub open spec fn digit_char(d: nat) -> char {
    if d == 0 {
        '0'
    } else if d == 1 {
        '1'
    } else if d == 2 {
        '2'
    } else if d == 3 {
        '3'
    } else if d == 4 {
        '4'
    } else if d == 5 {
        '5'
    } else if d == 6 {
        '6'
    } else if d == 7 {
        '7'
    } else if d == 8 {
        '8'
    } else {
        '9'
    }
}

/// Decimal digits of `n`, without leading zeros (`0` is `"0"`).
pub open spec fn decimal_text(n: nat) -> Seq<char>
    decreases n,
{
    if n < 10 {
        seq![digit_char(n)]
    } else {
        decimal_text(n / 10).push(digit_char(n % 10))
    }
}

/// The four digits of `n % 10000`, with leading zeros.
pub open spec fn four_digits(n: nat) -> Seq<char> {
    seq![
        digit_char((n / 1000) % 10),
        digit_char((n / 100) % 10),
        digit_char((n / 10) % 10),
        digit_char(n % 10),
    ]
}

/// Magnitude of the amount in ten-thousandths, truncated toward zero.
pub open spec fn ten_thousandths(a: Amount) -> nat {
    let m = a.spec_mantissa();
    let magnitude = (if m < 0 {
        -m
    } else {
        m
    }) as nat;
    if a.spec_scale() <= 4 {
        magnitude * pow10((4 - a.spec_scale()) as nat)
    } else {
        magnitude / pow10((a.spec_scale() - 4) as nat)
    }
}

/// An amount written with exactly four fractional digits.
pub open spec fn fixed4_text(a: Amount) -> Seq<char> {
    let t = ten_thousandths(a);
    let sign = if a.spec_mantissa() < 0 {
        seq!['-']
    } else {
        Seq::<char>::empty()
    };
    sign + decimal_text(t / 10000) + seq!['.'] + four_digits(t % 10000)
}

/// `true` or `false`.
pub open spec fn bool_text(b: bool) -> Seq<char> {
    if b {
        seq!['t', 'r', 'u', 'e']
    } else {
        seq!['f', 'a', 'l', 's', 'e']
    }
}

fn digit(d: u128) -> (c: char)
    requires
        d < 10,
    ensures
        c == digit_char(d as nat),
{
    if d == 0 {
        '0'
    } else if d == 1 {
        '1'
    } else if d == 2 {
        '2'
    } else if d == 3 {
        '3'
    } else if d == 4 {
        '4'
    } else if d == 5 {
        '5'
    } else if d == 6 {
        '6'
    } else if d == 7 {
        '7'
    } else if d == 8 {
        '8'
    } else {
        '9'
    }
}

/// Append the decimal digits of `n`.
fn push_decimal(n: u128, out: &mut Vec<char>)
    ensures
        final(out)@ == old(out)@ + decimal_text(n as nat),
    decreases n,
{
    if n >= 10 {
        push_decimal(n / 10, out);
    }
    out.push(digit(n % 10));
    proof {
        if n >= 10 {
            assert(decimal_text(n as nat) == decimal_text((n / 10) as nat).push(
                digit_char((n % 10) as nat),
            ));
        }
    }
}

/// Builds a `String` holding exactly the given characters. Calls
/// `<String as FromIterator<char>>::from_iter`, which collects the
/// characters in order.
#[verifier::external_body]
fn string_from_chars(chars: Vec<char>) -> (s: String)
    ensures
        s@ == chars@,
{
    String::from_iter(chars)
}

/// The decimal text of a number.
pub fn decimal_string(n: u128) -> (s: String)
    ensures
        s@ == decimal_text(n as nat),
{
    let mut out: Vec<char> = Vec::new();
    push_decimal(n, &mut out);
    assert(out@ =~= decimal_text(n as nat));
    string_from_chars(out)
}

/// `true` or `false`.
pub fn bool_string(b: bool) -> (s: String)
    ensures
        s@ == bool_text(b),
{
    let chars = if b {
        vec!['t', 'r', 'u', 'e']
    } else {
        vec!['f', 'a', 'l', 's', 'e']
    };
    assert(chars@ =~= bool_text(b));
    string_from_chars(chars)
}

/// Build a `String` from a short word.
pub fn word(chars: Vec<char>) -> (s: String)
    ensures
        s@ == chars@,
{
    string_from_chars(chars)
}

proof fn lemma_pow10_small(k: nat)
    requires
        k <= 4,
    ensures
        pow10(k) <= 10000,
        pow10(k) >= 1,
{
    reveal_with_fuel(pow10, 5);
    if k == 0 {
    } else if k == 1 {
    } else if k == 2 {
    } else if k == 3 {
    } else {
    }
}

/// `10^k` for `k <= 28`, as a `u128`.
fn pow10_u128(k: u32) -> (r: u128)
    requires
        k <= 28,
    ensures
        r == pow10(k as nat),
{
    let mut r: u128 = 1;
    let mut i: u32 = 0;
    proof {
        reveal_with_fuel(pow10, 29);
        assert(pow10(28) == 10_000_000_000_000_000_000_000_000_000);
    }
    while i < k
        invariant
            i <= k <= 28,
            r == pow10(i as nat),
            pow10(28) == 10_000_000_000_000_000_000_000_000_000,
        decreases k - i,
    {
        proof {
            crate::amount::lemma_pow10_monotone((i + 1) as nat, 28);
        }
        r = r * 10;
        i = i + 1;
    }
    r
}

/// The amount written with exactly four fractional digits.
pub fn fixed4_string(a: Amount) -> (s: String)
    ensures
        s@ == fixed4_text(a),
{
    proof {
        use_type_invariant(&a);
    }
    let m = a.mantissa();
    let scale = a.scale();
    let magnitude: u128 = if m < 0 {
        (-m) as u128
    } else {
        m as u128
    };
    let t: u128 = if scale <= 4 {
        let p = pow10_u128(4 - scale);
        proof {
            lemma_pow10_small((4 - scale) as nat);
            assert(magnitude * p <= (MAX_MANTISSA as int) * 10000) by (nonlinear_arith)
                requires
                    magnitude <= MAX_MANTISSA,
                    p <= 10000,
            ;
        }
        magnitude * p
    } else {
        let p = pow10_u128(scale - 4);
        proof {
            crate::amount::lemma_pow10_positive((scale - 4) as nat);
        }
        magnitude / p
    };
    assert(t == ten_thousandths(a));
    let mut out: Vec<char> = Vec::new();
    if m < 0 {
        out.push('-');
    }
    push_decimal(t / 10000, &mut out);
    out.push('.');
    let f = t % 10000;
    out.push(digit((f / 1000) % 10));
    out.push(digit((f / 100) % 10));
    out.push(digit((f / 10) % 10));
    out.push(digit(f % 10));
    assert(out@ =~= fixed4_text(a));
    string_from_chars(out)
}

} // verus!
