//! Exact decimal amounts.
//!
//! An [`Amount`] carries the two plain values a `rust_decimal::Decimal`
//! consists of: a signed mantissa of at most 96 bits and a scale (number of
//! fractional digits) of at most 28. Its value is `mantissa / 10^scale`.
//! In specifications a value is measured in `units`: the value times
//! `10^28`, which is always an integer.
//!
//! Addition, subtraction and comparison are carried out by `rust_decimal`;
//! the trusted wrappers below state what the crate computes.
use rust_decimal::Decimal;
use vstd::prelude::*;

verus! {

/// Largest number of fractional digits an amount can carry.
pub const MAX_SCALE: u32 = 28;

/// Largest magnitude of a mantissa: `2^96 - 1`.
pub const MAX_MANTISSA: i128 = 79_228_162_514_264_337_593_543_950_335;

/// `10^n`.
pub open spec fn pow10(n: nat) -> nat
    decreases n,
{
    if n == 0 {
        1
    } else {
        10 * pow10((n - 1) as nat)
    }
}

pub proof fn lemma_pow10_positive(n: nat)
    ensures
        pow10(n) > 0,
    decreases n,
{
    if n > 0 {
        lemma_pow10_positive((n - 1) as nat);
    }
}

pub proof fn lemma_pow10_add(x: nat, y: nat)
    ensures
        pow10(x + y) == pow10(x) * pow10(y),
    decreases x,
{
    if x > 0 {
        let x1 = (x - 1) as nat;
        lemma_pow10_add(x1, y);
        assert(x + y == (x1 + y) + 1);
        assert(pow10(x + y) == 10 * pow10(x1 + y));
        assert(pow10(x) == 10 * pow10(x1));
        assert(10 * (pow10(x1) * pow10(y)) == (10 * pow10(x1)) * pow10(y)) by (nonlinear_arith);
    } else {
        assert(x + y == y);
        assert(pow10(x) == 1);
    }
}

pub proof fn lemma_pow10_monotone(x: nat, y: nat)
    requires
        x <= y,
    ensures
        pow10(x) <= pow10(y),
    decreases y,
{
    if x < y {
        lemma_pow10_monotone(x, (y - 1) as nat);
        lemma_pow10_positive((y - 1) as nat);
    }
}

proof fn lemma_pow10_28()
    ensures
        pow10(28) == 10_000_000_000_000_000_000_000_000_000,
{
    reveal_with_fuel(pow10, 29);
}

/// An exact decimal number `mantissa / 10^scale`.
#[derive(Clone, Copy, Debug)]
pub struct Amount {
    mantissa: i128,
    scale: u32,
}

/// The larger of two scales: the scale at which two amounts are aligned.
pub open spec fn common_scale(a: Amount, b: Amount) -> nat {
    if a.spec_scale() >= b.spec_scale() {
        a.spec_scale()
    } else {
        b.spec_scale()
    }
}

/// The mantissa of `a` rescaled to scale `s` (which is at least `a`'s scale).
pub open spec fn aligned(a: Amount, s: nat) -> int {
    a.spec_mantissa() * pow10((s - a.spec_scale()) as nat)
}

/// Mantissa of `a + b` at their common scale.
pub open spec fn sum_mantissa(a: Amount, b: Amount) -> int {
    aligned(a, common_scale(a, b)) + aligned(b, common_scale(a, b))
}

/// Mantissa of `a - b` at their common scale.
pub open spec fn difference_mantissa(a: Amount, b: Amount) -> int {
    aligned(a, common_scale(a, b)) - aligned(b, common_scale(a, b))
}

/// `a + b` is representable without rounding.
pub open spec fn add_fits(a: Amount, b: Amount) -> bool {
    ||| a.spec_mantissa() == 0
    ||| b.spec_mantissa() == 0
    ||| -MAX_MANTISSA <= sum_mantissa(a, b) <= MAX_MANTISSA
}

/// `a - b` is representable without rounding.
pub open spec fn sub_fits(a: Amount, b: Amount) -> bool {
    ||| a.spec_mantissa() == 0
    ||| b.spec_mantissa() == 0
    ||| -MAX_MANTISSA <= difference_mantissa(a, b) <= MAX_MANTISSA
}

/// The amount `rust_decimal` produces for `a + b` when the sum is representable:
/// a zero operand yields the other operand unchanged, otherwise the exact sum
/// at the common scale.
pub closed spec fn spec_add(a: Amount, b: Amount) -> Amount {
    if a.mantissa == 0 {
        b
    } else if b.mantissa == 0 {
        a
    } else {
        Amount { mantissa: sum_mantissa(a, b) as i128, scale: common_scale(a, b) as u32 }
    }
}

/// The amount `rust_decimal` produces for `a - b` when the difference is
/// representable: `0 - b` is `b` negated at `b`'s scale, `a - 0` is `a`,
/// otherwise the exact difference at the common scale.
pub closed spec fn spec_sub(a: Amount, b: Amount) -> Amount {
    if a.mantissa == 0 {
        Amount { mantissa: (-b.mantissa) as i128, scale: b.scale }
    } else if b.mantissa == 0 {
        a
    } else {
        Amount { mantissa: difference_mantissa(a, b) as i128, scale: common_scale(a, b) as u32 }
    }
}

proof fn lemma_aligned_units(a: Amount, s: nat)
    requires
        a.spec_scale() <= s <= MAX_SCALE,
    ensures
        aligned(a, s) * pow10((MAX_SCALE - s) as nat) == a.units(),
{
    let k = (s - a.spec_scale()) as nat;
    let r = (MAX_SCALE - s) as nat;
    lemma_pow10_add(k, r);
    assert(k + r == MAX_SCALE - a.spec_scale());
    let m = a.spec_mantissa();
    assert(m * pow10(k) * pow10(r) == m * (pow10(k) * pow10(r))) by (nonlinear_arith);
}

/// Adding two valid amounts whose sum is representable gives a valid amount
/// whose value is the exact sum.
pub broadcast proof fn lemma_add_exact(a: Amount, b: Amount)
    requires
        a.wf(),
        b.wf(),
        add_fits(a, b),
    ensures
        (#[trigger] spec_add(a, b)).wf(),
        spec_add(a, b).units() == a.units() + b.units(),
{
    if a.mantissa != 0 && b.mantissa != 0 {
        let s = common_scale(a, b);
        lemma_aligned_units(a, s);
        lemma_aligned_units(b, s);
        let r = (MAX_SCALE - s) as nat;
        let x = aligned(a, s);
        let y = aligned(b, s);
        assert((x + y) * pow10(r) == x * pow10(r) + y * pow10(r)) by (nonlinear_arith);
    } else if a.mantissa == 0 {
        assert(a.units() == 0);
    } else {
        assert(b.units() == 0);
    }
}

/// Subtracting two valid amounts whose difference is representable gives a
/// valid amount whose value is the exact difference.
pub broadcast proof fn lemma_sub_exact(a: Amount, b: Amount)
    requires
        a.wf(),
        b.wf(),
        sub_fits(a, b),
    ensures
        (#[trigger] spec_sub(a, b)).wf(),
        spec_sub(a, b).units() == a.units() - b.units(),
{
    if a.mantissa != 0 && b.mantissa != 0 {
        let s = common_scale(a, b);
        lemma_aligned_units(a, s);
        lemma_aligned_units(b, s);
        let r = (MAX_SCALE - s) as nat;
        let x = aligned(a, s);
        let y = aligned(b, s);
        assert((x - y) * pow10(r) == x * pow10(r) - y * pow10(r)) by (nonlinear_arith);
    } else if a.mantissa == 0 {
        assert(a.units() == 0);
        let n = Amount { mantissa: (-b.mantissa) as i128, scale: b.scale };
        let p = pow10((MAX_SCALE - b.spec_scale()) as nat);
        assert(n.units() == -(b.spec_mantissa() * p)) by (nonlinear_arith)
            requires
                n.units() == (-b.spec_mantissa()) * p,
        ;
    } else {
        assert(b.units() == 0);
    }
}

/// The parts of a representable sum: a zero operand gives the other operand
/// itself; otherwise the mantissa is the sum at the common scale, which is
/// the larger of the two scales.
pub broadcast proof fn lemma_add_parts(a: Amount, b: Amount)
    requires
        a.wf(),
        b.wf(),
        add_fits(a, b),
    ensures
        a.spec_mantissa() == 0 ==> #[trigger] spec_add(a, b) == b,
        a.spec_mantissa() != 0 && b.spec_mantissa() == 0 ==> spec_add(a, b) == a,
        a.spec_mantissa() != 0 && b.spec_mantissa() != 0 ==> {
            &&& spec_add(a, b).spec_mantissa() == sum_mantissa(a, b)
            &&& spec_add(a, b).spec_scale() == common_scale(a, b)
        },
{
}

/// The parts of a representable difference: `0 - b` is `b` negated at `b`'s
/// scale, `a - 0` is `a` itself; otherwise the mantissa is the difference at
/// the common scale, which is the larger of the two scales.
pub broadcast proof fn lemma_sub_parts(a: Amount, b: Amount)
    requires
        a.wf(),
        b.wf(),
        sub_fits(a, b),
    ensures
        a.spec_mantissa() == 0 ==> {
            &&& (#[trigger] spec_sub(a, b)).spec_mantissa() == -b.spec_mantissa()
            &&& spec_sub(a, b).spec_scale() == b.spec_scale()
        },
        a.spec_mantissa() != 0 && b.spec_mantissa() == 0 ==> spec_sub(a, b) == a,
        a.spec_mantissa() != 0 && b.spec_mantissa() != 0 ==> {
            &&& spec_sub(a, b).spec_mantissa() == difference_mantissa(a, b)
            &&& spec_sub(a, b).spec_scale() == common_scale(a, b)
        },
{
}

/// A valid amount is positive exactly when its mantissa is.
pub broadcast proof fn lemma_units_sign(a: Amount)
    requires
        a.wf(),
    ensures
        #[trigger] a.units() > 0 <==> a.spec_mantissa() > 0,
        a.units() == 0 <==> a.spec_mantissa() == 0,
        a.units() < 0 <==> a.spec_mantissa() < 0,
{
    let p = pow10((MAX_SCALE - a.spec_scale()) as nat);
    lemma_pow10_positive((MAX_SCALE - a.spec_scale()) as nat);
    let m = a.spec_mantissa();
    assert(m > 0 ==> m * p > 0) by (nonlinear_arith)
        requires
            p > 0,
    ;
    assert(m < 0 ==> m * p < 0) by (nonlinear_arith)
        requires
            p > 0,
    ;
    assert(m == 0 ==> m * p == 0);
    assert(a.units() == m * p);
}

/// Zero is a valid amount with a zero mantissa.
pub broadcast proof fn lemma_zero()
    ensures
        (#[trigger] Amount::spec_zero()).wf(),
        Amount::spec_zero().spec_mantissa() == 0,
        Amount::spec_zero().units() == 0,
{
}

pub broadcast group group_amount_lemmas {
    lemma_zero,
    lemma_add_exact,
    lemma_sub_exact,
    lemma_add_parts,
    lemma_sub_parts,
    lemma_units_sign,
}

impl Amount {
    pub closed spec fn spec_mantissa(self) -> int {
        self.mantissa as int
    }

    pub closed spec fn spec_scale(self) -> nat {
        self.scale as nat
    }

    /// Zero at scale zero.
    pub closed spec fn spec_zero() -> Amount {
        Amount { mantissa: 0, scale: 0 }
    }

    /// The representation invariant of a decimal: at most 28 fractional
    /// digits and a mantissa of at most 96 bits.
    #[verifier::type_invariant]
    pub open spec fn wf(self) -> bool {
        &&& self.spec_scale() <= MAX_SCALE
        &&& -MAX_MANTISSA <= self.spec_mantissa() <= MAX_MANTISSA
    }

    /// The value of the amount times `10^28`.
    pub open spec fn units(self) -> int {
        self.spec_mantissa() * pow10((MAX_SCALE - self.spec_scale()) as nat)
    }

    /// Build `mantissa / 10^scale`; `None` when the pair is not a valid decimal.
    pub fn new(mantissa: i128, scale: u32) -> (r: Option<Amount>)
        ensures
            r is Some <==> (scale <= MAX_SCALE && -MAX_MANTISSA <= mantissa <= MAX_MANTISSA),
            r matches Some(a) ==> a.spec_mantissa() == mantissa && a.spec_scale() == scale,
    {
        if scale <= MAX_SCALE && -MAX_MANTISSA <= mantissa && mantissa <= MAX_MANTISSA {
            Some(Amount { mantissa, scale })
        } else {
            None
        }
    }

    /// The amount zero.
    pub fn zero() -> (r: Amount)
        ensures
            r == Amount::spec_zero(),
    {
        Amount { mantissa: 0, scale: 0 }
    }

    pub fn mantissa(&self) -> (r: i128)
        ensures
            r == self.spec_mantissa(),
    {
        self.mantissa
    }

    pub fn scale(&self) -> (r: u32)
        ensures
            r == self.spec_scale(),
    {
        self.scale
    }

    /// True when the value exceeds zero.
    pub fn is_positive(&self) -> (r: bool)
        ensures
            r == (self.units() > 0),
    {
        proof {
            use_type_invariant(self);
        }
        decimal_greater(*self, Amount::zero())
    }

    /// True when the value of `self` exceeds the value of `other`.
    pub fn greater_than(&self, other: &Amount) -> (r: bool)
        ensures
            r == (self.units() > other.units()),
    {
        proof {
            use_type_invariant(self);
            use_type_invariant(other);
        }
        decimal_greater(*self, *other)
    }

    /// True when `self + other` is representable without rounding.
    pub fn can_add(&self, other: &Amount) -> (r: bool)
        ensures
            r == add_fits(*self, *other),
    {
        proof {
            use_type_invariant(self);
            use_type_invariant(other);
        }
        if self.mantissa == 0 || other.mantissa == 0 {
            return true;
        }
        match aligned_pair(self, other) {
            None => false,
            Some((x, y)) => match x.checked_add(y) {
                None => false,
                Some(s) => -MAX_MANTISSA <= s && s <= MAX_MANTISSA,
            },
        }
    }

    /// True when `self - other` is representable without rounding.
    pub fn can_sub(&self, other: &Amount) -> (r: bool)
        ensures
            r == sub_fits(*self, *other),
    {
        proof {
            use_type_invariant(self);
            use_type_invariant(other);
        }
        if self.mantissa == 0 || other.mantissa == 0 {
            return true;
        }
        match aligned_pair(self, other) {
            None => false,
            Some((x, y)) => match x.checked_sub(y) {
                None => false,
                Some(s) => -MAX_MANTISSA <= s && s <= MAX_MANTISSA,
            },
        }
    }

    /// `self + other`.
    pub fn plus(self, other: Amount) -> (r: Amount)
        requires
            add_fits(self, other),
        ensures
            r == spec_add(self, other),
            r.units() == self.units() + other.units(),
    {
        proof {
            use_type_invariant(self);
            use_type_invariant(other);
            lemma_add_exact(self, other);
        }
        decimal_checked_add(self, other).unwrap()
    }

    /// `self - other`.
    pub fn minus(self, other: Amount) -> (r: Amount)
        requires
            sub_fits(self, other),
        ensures
            r == spec_sub(self, other),
            r.units() == self.units() - other.units(),
    {
        proof {
            use_type_invariant(self);
            use_type_invariant(other);
            lemma_sub_exact(self, other);
        }
        decimal_checked_sub(self, other).unwrap()
    }
}

/// Amounts compare by value, as decimals do: `1.5 == 1.50`.
impl PartialEq for Amount {
    fn eq(&self, other: &Amount) -> (r: bool) {
        proof {
            use_type_invariant(self);
            use_type_invariant(other);
        }
        decimal_equal(*self, *other)
    }
}

impl vstd::std_specs::cmp::PartialEqSpecImpl for Amount {
    open spec fn obeys_eq_spec() -> bool {
        true
    }

    open spec fn eq_spec(&self, other: &Amount) -> bool {
        self.units() == other.units()
    }
}

impl Eq for Amount {

}

/// `10^k` for `k <= 28`.
fn pow10_i128(k: u32) -> (r: i128)
    requires
        k <= MAX_SCALE,
    ensures
        r == pow10(k as nat),
{
    let mut r: i128 = 1;
    let mut i: u32 = 0;
    proof {
        lemma_pow10_28();
    }
    while i < k
        invariant
            i <= k <= MAX_SCALE,
            r == pow10(i as nat),
            pow10(28) == 10_000_000_000_000_000_000_000_000_000,
        decreases k - i,
    {
        proof {
            lemma_pow10_monotone((i + 1) as nat, 28);
        }
        r = r * 10;
        i = i + 1;
    }
    r
}

/// Both mantissas rescaled to the common scale, or `None` when one of them
/// leaves the `i128` range (then neither sum nor difference is representable).
fn aligned_pair(a: &Amount, b: &Amount) -> (r: Option<(i128, i128)>)
    requires
        a.wf(),
        b.wf(),
        a.spec_mantissa() != 0,
        b.spec_mantissa() != 0,
    ensures
        r matches Some((x, y)) ==> x == aligned(*a, common_scale(*a, *b)) && y == aligned(
            *b,
            common_scale(*a, *b),
        ),
        r is None ==> !add_fits(*a, *b) && !sub_fits(*a, *b),
{
    let s = if a.scale >= b.scale {
        a.scale
    } else {
        b.scale
    };
    let pa = pow10_i128(s - a.scale);
    let pb = pow10_i128(s - b.scale);
    let ghost cs = common_scale(*a, *b);
    assert(s == cs);
    if a.scale < s {
        // `b` keeps its scale; only `a` is scaled up.
        assert(pb == 1);
        assert(b.spec_mantissa() * 1 == b.spec_mantissa());
        match a.mantissa.checked_mul(pa) {
            None => {
                proof {
                    lemma_out_of_range_pair(aligned(*a, cs), aligned(*b, cs));
                }
                None
            },
            Some(x) => Some((x, b.mantissa)),
        }
    } else {
        assert(pa == 1);
        assert(a.spec_mantissa() * 1 == a.spec_mantissa());
        match b.mantissa.checked_mul(pb) {
            None => {
                proof {
                    lemma_out_of_range_pair(aligned(*b, cs), aligned(*a, cs));
                }
                None
            },
            Some(y) => Some((a.mantissa, y)),
        }
    }
}

proof fn lemma_out_of_range_pair(big: int, small: int)
    requires
        big > i128::MAX || big < i128::MIN,
        -MAX_MANTISSA <= small <= MAX_MANTISSA,
    ensures
        !(-MAX_MANTISSA <= big + small <= MAX_MANTISSA),
        !(-MAX_MANTISSA <= big - small <= MAX_MANTISSA),
        !(-MAX_MANTISSA <= small - big <= MAX_MANTISSA),
        !(-MAX_MANTISSA <= small + big <= MAX_MANTISSA),
{
}

/// Calls `Decimal::checked_add` (rust_decimal `ops::add_impl`) on the decimals
/// that `a` and `b` denote. Claimed: a returned decimal is always valid; when
/// the exact sum fits in 96 bits at the common scale, the crate returns it
/// unrounded (a zero operand yields the other operand unchanged). What is
/// returned otherwise (a rounded sum or `None`) is left unsaid.
#[verifier::external_body]
fn decimal_checked_add(a: Amount, b: Amount) -> (r: Option<Amount>)
    requires
        a.wf(),
        b.wf(),
    ensures
        r matches Some(s) ==> s.wf(),
        add_fits(a, b) ==> r == Some(spec_add(a, b)),
{
    let x = Decimal::from_i128_with_scale(a.mantissa, a.scale);
    let y = Decimal::from_i128_with_scale(b.mantissa, b.scale);
    match x.checked_add(y) {
        Some(d) => Some(Amount { mantissa: d.mantissa(), scale: d.scale() }),
        None => None,
    }
}

/// Calls `Decimal::checked_sub` (rust_decimal `ops::sub_impl`) on the decimals
/// that `a` and `b` denote. Claimed: a returned decimal is always valid; when
/// the exact difference fits in 96 bits at the common scale, the crate
/// returns it unrounded (`0 - b` is `b` negated, `a - 0` is `a`). What is
/// returned otherwise is left unsaid.
#[verifier::external_body]
fn decimal_checked_sub(a: Amount, b: Amount) -> (r: Option<Amount>)
    requires
        a.wf(),
        b.wf(),
    ensures
        r matches Some(s) ==> s.wf(),
        sub_fits(a, b) ==> r == Some(spec_sub(a, b)),
{
    let x = Decimal::from_i128_with_scale(a.mantissa, a.scale);
    let y = Decimal::from_i128_with_scale(b.mantissa, b.scale);
    match x.checked_sub(y) {
        Some(d) => Some(Amount { mantissa: d.mantissa(), scale: d.scale() }),
        None => None,
    }
}

/// Calls `<Decimal as PartialOrd>::gt` (rust_decimal `ops::cmp_impl`), which
/// compares the exact values of the two decimals.
#[verifier::external_body]
fn decimal_greater(a: Amount, b: Amount) -> (r: bool)
    requires
        a.wf(),
        b.wf(),
    ensures
        r == (a.units() > b.units()),
{
    Decimal::from_i128_with_scale(a.mantissa, a.scale) > Decimal::from_i128_with_scale(
        b.mantissa,
        b.scale,
    )
}

/// Calls `<Decimal as PartialEq>::eq`, which is true exactly when the two
/// decimals have the same value (identical bits, or `cmp_impl` finds them equal).
#[verifier::external_body]
fn decimal_equal(a: Amount, b: Amount) -> (r: bool)
    requires
        a.wf(),
        b.wf(),
    ensures
        r == (a.units() == b.units()),
{
    Decimal::from_i128_with_scale(a.mantissa, a.scale) == Decimal::from_i128_with_scale(
        b.mantissa,
        b.scale,
    )
}

} // verus!
