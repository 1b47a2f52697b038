use core::cmp::Ordering;
use rust_decimal::Decimal;
use vstd::prelude::*;

verus! {

/// One more than the largest magnitude a decimal mantissa can hold (96 bits).
pub const MANTISSA_LIMIT: i128 = 0x1_0000_0000_0000_0000_0000_0000;

/// The finest scale a decimal can carry: 28 digits after the point.
pub const MAX_SCALE: u32 = 28;

pub open spec fn pow10(n: nat) -> int
    decreases n,
{
    if n == 0 {
        1
    } else {
        10 * pow10((n - 1) as nat)
    }
}

pub proof fn lemma_pow10_positive(n: nat)
    ensures
        pow10(n) >= 1,
    decreases n,
{
    if n > 0 {
        lemma_pow10_positive((n - 1) as nat);
    }
}

pub proof fn lemma_pow10_add(m: nat, n: nat)
    ensures
        pow10(m + n) == pow10(m) * pow10(n),
    decreases m,
{
    if m > 0 {
        lemma_pow10_add((m - 1) as nat, n);
        assert(pow10(m + n) == 10 * pow10((m - 1 + n) as nat));
        assert(10 * (pow10((m - 1) as nat) * pow10(n)) == (10 * pow10((m - 1) as nat)) * pow10(n))
            by (nonlinear_arith);
    }
}

pub proof fn lemma_pow10_monotone(m: nat, n: nat)
    requires
        m <= n,
    ensures
        pow10(m) <= pow10(n),
    decreases n,
{
    if m < n {
        lemma_pow10_monotone(m, (n - 1) as nat);
        lemma_pow10_positive((n - 1) as nat);
    }
}

/// A fixed-point decimal number: `mantissa * 10^-scale`.
#[derive(Clone, Copy, Debug)]
pub struct Amount {
    pub mantissa: i128,
    pub scale: u32,
}

impl Amount {
    /// The bounds every decimal value respects.
    pub open spec fn wf(self) -> bool {
        &&& self.scale <= MAX_SCALE
        &&& -MANTISSA_LIMIT < self.mantissa < MANTISSA_LIMIT
    }

    /// The number, counted in units of `10^-28`.
    pub open spec fn value(self) -> int {
        self.mantissa * pow10((MAX_SCALE - self.scale) as nat)
    }

    /// The finer of two scales: where an exact sum or difference of the two lines up.
    pub open spec fn finer_scale(self, other: Amount) -> nat {
        if self.scale >= other.scale {
            self.scale as nat
        } else {
            other.scale as nat
        }
    }

    /// `mantissa * 10^-scale`, as `Decimal::new` builds it.
    pub fn new(mantissa: i64, scale: u32) -> (r: Amount)
        requires
            scale <= MAX_SCALE,
        ensures
            r.wf(),
            r.mantissa == mantissa,
            r.scale == scale,
            r@ == mantissa * pow10((MAX_SCALE - scale) as nat),
            (r@ >= 0) == (mantissa >= 0),
    {
        proof {
            lemma_pow10_positive((MAX_SCALE - scale) as nat);
            assert((mantissa * pow10((MAX_SCALE - scale) as nat) >= 0) == (mantissa >= 0))
                by (nonlinear_arith)
                requires
                    pow10((MAX_SCALE - scale) as nat) >= 1,
            ;
        }
        Amount { mantissa: mantissa as i128, scale }
    }
}

/// `10^k` as an `i128`.
fn pow10_exec(k: u32) -> (r: i128)
    requires
        k <= MAX_SCALE,
    ensures
        r == pow10(k as nat),
{
    let mut r: i128 = 1;
    let mut i: u32 = 0;
    proof {
        reveal_with_fuel(pow10, 29);
        assert(pow10(28) == 10000000000000000000000000000int);
    }
    while i < k
        invariant
            i <= k <= MAX_SCALE,
            r == pow10(i as nat),
            pow10(28) == 10000000000000000000000000000int,
        decreases k - i,
    {
        proof {
            lemma_pow10_monotone((i + 1) as nat, 28);
            lemma_pow10_positive(i as nat);
            assert(pow10((i + 1) as nat) == 10 * pow10(i as nat));
            assert(r * 10 <= 10000000000000000000000000000int);
        }
        r = r * 10;
        i = i + 1;
    }
    r
}

/// The mantissa of `a` written at the finer scale `scale`.
pub open spec fn aligned(a: Amount, scale: nat) -> int {
    a.mantissa * pow10((scale - a.scale) as nat)
}

/// The mantissa of the exact sum of `a` and `b` at their finer scale.
pub open spec fn aligned_sum(a: Amount, b: Amount) -> int {
    aligned(a, a.finer_scale(b)) + aligned(b, a.finer_scale(b))
}

/// Whether the exact sum of `a` and `b` keeps a 96-bit mantissa at their finer scale.
pub open spec fn sum_fits(a: Amount, b: Amount) -> bool {
    -MANTISSA_LIMIT < aligned_sum(a, b) < MANTISSA_LIMIT
}

/// The decimal that adding `a` and `b` yields where the sum fits: a zero operand hands back the
/// other one unchanged, else the aligned sum at the finer scale.
pub open spec fn sum_of(a: Amount, b: Amount) -> Amount {
    if a.mantissa == 0 {
        b
    } else if b.mantissa == 0 {
        a
    } else {
        Amount { mantissa: aligned_sum(a, b) as i128, scale: a.finer_scale(b) as u32 }
    }
}

/// `-b`, at the scale of `b`.
pub open spec fn negated(b: Amount) -> Amount {
    Amount { mantissa: (-b.mantissa) as i128, scale: b.scale }
}

proof fn lemma_aligned_value(a: Amount, scale: nat)
    requires
        a.wf(),
        a.scale <= scale <= MAX_SCALE,
    ensures
        a@ == aligned(a, scale) * pow10((MAX_SCALE - scale) as nat),
{
    let k = (scale - a.scale) as nat;
    let q = pow10((MAX_SCALE - scale) as nat);
    lemma_pow10_add(k, (MAX_SCALE - scale) as nat);
    assert((k + (MAX_SCALE - scale)) as nat == (MAX_SCALE - a.scale) as nat);
    assert(a.mantissa * (pow10(k) * q) == (a.mantissa * pow10(k)) * q) by (nonlinear_arith);
}

/// Where the sum fits, the decimal that adding yields is valid and holds the exact sum.
pub proof fn lemma_sum_of(a: Amount, b: Amount)
    requires
        a.wf(),
        b.wf(),
        sum_fits(a, b),
    ensures
        sum_of(a, b).wf(),
        sum_of(a, b)@ == a@ + b@,
{
    let s = a.finer_scale(b);
    lemma_aligned_value(a, s);
    lemma_aligned_value(b, s);
    let q = pow10((MAX_SCALE - s) as nat);
    assert(a@ + b@ == aligned_sum(a, b) * q) by (nonlinear_arith)
        requires
            a@ == aligned(a, s) * q,
            b@ == aligned(b, s) * q,
            aligned_sum(a, b) == aligned(a, s) + aligned(b, s),
    ;
    if a.mantissa == 0 {
        assert(a@ == 0) by (nonlinear_arith)
            requires
                a.mantissa == 0,
                a@ == a.mantissa * pow10((MAX_SCALE - a.scale) as nat),
        ;
    } else if b.mantissa == 0 {
        assert(b@ == 0) by (nonlinear_arith)
            requires
                b.mantissa == 0,
                b@ == b.mantissa * pow10((MAX_SCALE - b.scale) as nat),
        ;
    }
}

proof fn lemma_negated(b: Amount)
    requires
        b.wf(),
    ensures
        negated(b).wf(),
        negated(b)@ == -b@,
        negated(b).scale == b.scale,
{
    assert(negated(b)@ == -b@) by (nonlinear_arith)
        requires
            negated(b).mantissa == -b.mantissa,
            negated(b)@ == negated(b).mantissa * pow10((MAX_SCALE - b.scale) as nat),
            b@ == b.mantissa * pow10((MAX_SCALE - b.scale) as nat),
    ;
}

/// Whether the exact sum of two decimals keeps a 96-bit mantissa at their finer scale.
fn aligned_sum_fits(a: Amount, b: Amount) -> (r: bool)
    requires
        a.wf(),
        b.wf(),
    ensures
        r == sum_fits(a, b),
{
    let (fine, coarse) = if a.scale >= b.scale {
        (a, b)
    } else {
        (b, a)
    };
    let k = fine.scale - coarse.scale;
    let p = pow10_exec(k);
    proof {
        let s = a.finer_scale(b);
        assert(s == fine.scale);
        assert(aligned(fine, s) == fine.mantissa) by {
            assert(pow10(0) == 1);
        }
        assert(aligned_sum(a, b) == coarse.mantissa * p + fine.mantissa);
    }
    match coarse.mantissa.checked_mul(p) {
        None => false,
        Some(shifted) => match shifted.checked_add(fine.mantissa) {
            None => false,
            Some(total) => -MANTISSA_LIMIT < total && total < MANTISSA_LIMIT,
        },
    }
}

/// Relies on `Decimal`'s `+` (rust_decimal `ops::add`): `0 + x` and `x + 0` hand back `x`
/// unchanged; otherwise a sum whose mantissa fits in 96 bits at the finer of the two scales is
/// the aligned sum at that scale, with no rounding.
#[verifier::external_body]
fn decimal_add(a: Amount, b: Amount) -> (r: Amount)
    requires
        a.wf(),
        b.wf(),
        sum_fits(a, b),
    ensures
        r == sum_of(a, b),
{
    let d = Decimal::from_i128_with_scale(a.mantissa, a.scale) + Decimal::from_i128_with_scale(
        b.mantissa,
        b.scale,
    );
    Amount { mantissa: d.mantissa(), scale: d.scale() }
}

/// Relies on `Decimal`'s `-` (rust_decimal `ops::add`, shared with `+`): `0 - x` is `-x` at the
/// scale of `x`, `x - 0` is `x`; otherwise a difference whose mantissa fits in 96 bits at the
/// finer scale is the aligned difference at that scale.
#[verifier::external_body]
fn decimal_sub(a: Amount, b: Amount) -> (r: Amount)
    requires
        a.wf(),
        b.wf(),
        sum_fits(a, negated(b)),
    ensures
        r == sum_of(a, negated(b)),
{
    let d = Decimal::from_i128_with_scale(a.mantissa, a.scale) - Decimal::from_i128_with_scale(
        b.mantissa,
        b.scale,
    );
    Amount { mantissa: d.mantissa(), scale: d.scale() }
}

/// Relies on `Decimal`'s `Ord` (rust_decimal `ops::cmp`): it orders two decimals by value,
/// whatever their scales.
#[verifier::external_body]
fn decimal_cmp(a: &Amount, b: &Amount) -> (r: Ordering)
    requires
        a.wf(),
        b.wf(),
    ensures
        (r == Ordering::Less) == (a@ < b@),
        (r == Ordering::Equal) == (a@ == b@),
        (r == Ordering::Greater) == (a@ > b@),
{
    Decimal::from_i128_with_scale(a.mantissa, a.scale).cmp(
        &Decimal::from_i128_with_scale(b.mantissa, b.scale),
    )
}

/// The exact sum where it fits, else nothing.
pub open spec fn added(a: Amount, b: Amount) -> Option<Amount> {
    if sum_fits(a, b) {
        Some(sum_of(a, b))
    } else {
        None
    }
}

/// The exact difference where it fits, else nothing.
pub open spec fn subtracted(a: Amount, b: Amount) -> Option<Amount> {
    added(a, negated(b))
}

/// A sum that fits is a valid decimal holding the exact sum.
pub proof fn lemma_added(a: Amount, b: Amount)
    requires
        a.wf(),
        b.wf(),
    ensures
        added(a, b) matches Some(s) ==> s.wf() && s@ == a@ + b@,
{
    if sum_fits(a, b) {
        lemma_sum_of(a, b);
    }
}

/// A difference that fits is a valid decimal holding the exact difference.
pub proof fn lemma_subtracted(a: Amount, b: Amount)
    requires
        a.wf(),
        b.wf(),
    ensures
        subtracted(a, b) matches Some(s) ==> s.wf() && s@ == a@ - b@,
{
    lemma_negated(b);
    lemma_added(a, negated(b));
}

/// A magnitude with `k` digits dropped from the right, rounded half to even.
pub open spec fn rounded_magnitude(mag: int, k: nat) -> int {
    let p = pow10(k);
    let q = mag / p;
    let rem = mag % p;
    if 2 * rem > p || (2 * rem == p && q % 2 == 1) {
        q + 1
    } else {
        q
    }
}

/// `a` rounded to `dp` places after the point, half to even; `a` itself where it has no more
/// places than that.
pub open spec fn rounded(a: Amount, dp: nat) -> Amount {
    if a.scale <= dp {
        a
    } else {
        let mag = if a.mantissa < 0 {
            -a.mantissa
        } else {
            a.mantissa as int
        };
        let r = rounded_magnitude(mag, (a.scale - dp) as nat);
        Amount {
            mantissa: (if a.mantissa < 0 {
                -r
            } else {
                r
            }) as i128,
            scale: dp as u32,
        }
    }
}

/// Relies on `Decimal::round_dp` (rust_decimal `round_dp_with_strategy` with
/// `MidpointNearestEven`): with no more than `dp` places the decimal comes back unchanged;
/// otherwise the magnitude loses its extra digits, rounded half to even, the sign stays and the
/// scale becomes `dp`.
#[verifier::external_body]
fn decimal_round_dp(a: Amount, dp: u32) -> (r: Amount)
    requires
        a.wf(),
        dp <= MAX_SCALE,
    ensures
        r == rounded(a, dp as nat),
{
    let d = Decimal::from_i128_with_scale(a.mantissa, a.scale).round_dp(dp);
    Amount { mantissa: d.mantissa(), scale: d.scale() }
}

impl Amount {
    /// The amount rounded to `dp` places after the point, half to even, as the output shows it.
    pub fn round_dp(&self, dp: u32) -> (r: Amount)
        requires
            self.wf(),
            dp <= MAX_SCALE,
        ensures
            r == rounded(*self, dp as nat),
    {
        decimal_round_dp(*self, dp)
    }

    /// The exact sum, or `None` where it would need more than 96 bits of mantissa at the finer
    /// scale of the two (where a decimal would have to round).
    pub fn checked_add(self, other: Amount) -> (r: Option<Amount>)
        requires
            self.wf(),
            other.wf(),
        ensures
            r == added(self, other),
            r matches Some(s) ==> s.wf() && s@ == self@ + other@,
    {
        if aligned_sum_fits(self, other) {
            proof {
                lemma_sum_of(self, other);
            }
            Some(decimal_add(self, other))
        } else {
            None
        }
    }

    /// The exact difference, or `None` where it would need more than 96 bits of mantissa at the
    /// finer scale of the two.
    pub fn checked_sub(self, other: Amount) -> (r: Option<Amount>)
        requires
            self.wf(),
            other.wf(),
        ensures
            r == subtracted(self, other),
            r matches Some(s) ==> s.wf() && s@ == self@ - other@,
    {
        let negative = Amount { mantissa: -other.mantissa, scale: other.scale };
        proof {
            lemma_negated(other);
        }
        if aligned_sum_fits(self, negative) {
            proof {
                lemma_sum_of(self, negative);
            }
            Some(decimal_sub(self, other))
        } else {
            None
        }
    }

    /// Whether `self` is at least `other`, by value.
    pub fn ge(&self, other: &Amount) -> (r: bool)
        requires
            self.wf(),
            other.wf(),
        ensures
            r == (self@ >= other@),
    {
        match decimal_cmp(self, other) {
            Ordering::Less => false,
            _ => true,
        }
    }

    /// Whether `self` is below zero.
    pub fn is_negative(&self) -> (r: bool)
        requires
            self.wf(),
        ensures
            r == (self@ < 0),
    {
        proof {
            lemma_pow10_positive((MAX_SCALE - self.scale) as nat);
            assert(self.mantissa < 0 <==> self@ < 0) by (nonlinear_arith)
                requires
                    self@ == self.mantissa * pow10((MAX_SCALE - self.scale) as nat),
                    pow10((MAX_SCALE - self.scale) as nat) >= 1,
            ;
        }
        self.mantissa < 0
    }
}

impl Amount {
    /// Whether the fields respect the bounds of a decimal.
    pub fn is_valid(&self) -> (r: bool)
        ensures
            r == self.wf(),
    {
        self.scale <= MAX_SCALE && -MANTISSA_LIMIT < self.mantissa && self.mantissa < MANTISSA_LIMIT
    }
}

/// Two amounts are equal when their values are: `1.5` equals `1.50`.
pub open spec fn amounts_equal(a: Amount, b: Amount) -> bool {
    if a.wf() && b.wf() {
        a@ == b@
    } else {
        a.mantissa == b.mantissa && a.scale == b.scale
    }
}

impl PartialEq for Amount {
    fn eq(&self, other: &Amount) -> (r: bool) {
        if self.is_valid() && other.is_valid() {
            match decimal_cmp(self, other) {
                Ordering::Equal => true,
                _ => false,
            }
        } else {
            self.mantissa == other.mantissa && self.scale == other.scale
        }
    }
}

impl vstd::std_specs::cmp::PartialEqSpecImpl for Amount {
    open spec fn obeys_eq_spec() -> bool {
        true
    }

    open spec fn eq_spec(&self, other: &Amount) -> bool {
        amounts_equal(*self, *other)
    }
}

impl View for Amount {
    type V = int;

    open spec fn view(&self) -> int {
        self.value()
    }
}

} // verus!
