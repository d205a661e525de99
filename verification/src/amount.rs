//! Exact decimal amounts.
//!
//! An amount is a whole number of up to 96 bits and a count of decimal places
//! of up to 28. `rust_decimal` does the arithmetic on amounts, reads them from
//! text and renders them.

use vstd::prelude::*;

use crate::text::{numeral, padded};

verus! {

/// The largest mantissa: 96 bits.
pub const MAX_MANTISSA: i128 = 79228162514264337593543950335;

/// The largest number of decimal places.
pub const MAX_SCALE: u32 = 28;

/// Ten to the power of `n`.
pub open spec fn pow10(n: nat) -> nat
    decreases n,
{
    if n == 0 {
        1
    } else {
        10 * pow10((n - 1) as nat)
    }
}

/// A decimal amount: `mantissa` divided by ten to the power of `scale`.
#[derive(Debug, Clone, Copy)]
pub struct Amount {
    mantissa: i128,
    scale: u32,
}

impl Amount {
    /// The whole number of the smallest places.
    pub closed spec fn mantissa(self) -> int {
        self.mantissa as int
    }

    /// The number of decimal places.
    pub closed spec fn scale(self) -> nat {
        self.scale as nat
    }

    /// The mantissa has at most 96 bits and the scale is at most 28.
    pub open spec fn in_range(self) -> bool {
        &&& -MAX_MANTISSA <= self.mantissa() <= MAX_MANTISSA
        &&& self.scale() <= MAX_SCALE
    }

    #[verifier::type_invariant]
    spec fn inv(self) -> bool {
        self.in_range()
    }

    /// The value, counted in the smallest place that any amount has.
    pub open spec fn units(self) -> int {
        self.mantissa() * pow10((MAX_SCALE - self.scale()) as nat)
    }

    /// Creates an amount of `num` divided by ten to the power of `scale`.
    pub fn new(num: i64, scale: u32) -> (r: Self)
        requires
            scale <= MAX_SCALE,
        ensures
            r.mantissa() == num,
            r.scale() == scale,
    {
        Amount { mantissa: num as i128, scale }
    }

    /// The amount zero.
    pub fn zero() -> (r: Self)
        ensures
            r == zero_amount(),
    {
        let r = Amount { mantissa: 0, scale: 0 };
        assert(r == zero_amount());
        r
    }

    /// The largest amount.
    pub fn max() -> (r: Self)
        ensures
            r == max_amount(),
    {
        let r = Amount { mantissa: MAX_MANTISSA, scale: 0 };
        assert(r == max_amount());
        r
    }

    /// Whether the amount is above zero.
    pub fn is_positive(&self) -> (r: bool)
        ensures
            r == (self.mantissa() > 0),
    {
        self.mantissa > 0
    }

    /// The amount itself, decimal places and all, unless it is below zero: then zero.
    pub fn or_zero(self) -> (r: Self)
        ensures
            r == at_least_zero(self),
            r.units() == (if self.units() > 0 {
                self.units()
            } else {
                0
            }),
            r.scale() <= self.scale(),
    {
        proof {
            use_type_invariant(&self);
            lemma_sign(self);
        }
        if self.mantissa >= 0 {
            self
        } else {
            Amount::zero()
        }
    }

    /// The sum of two amounts, if it is in range.
    pub fn checked_add(self, other: Amount) -> (r: Option<Amount>)
        ensures
            r == sum(self, other),
            r is Some ==> r->0.in_range(),
            exact_at(self.units() + other.units(), self, other) ==> {
                &&& r is Some
                &&& r->0.units() == self.units() + other.units()
                &&& r->0.scale() <= common_scale(self, other)
            },
    {
        proof {
            use_type_invariant(&self);
            use_type_invariant(&other);
        }
        let r = decimal_add(self, other);
        if let Some(result) = &r {
            proof {
                use_type_invariant(result);
            }
        }
        r
    }

    /// The difference of two amounts, if it is in range.
    pub fn checked_sub(self, other: Amount) -> (r: Option<Amount>)
        ensures
            r == difference(self, other),
            r is Some ==> r->0.in_range(),
            exact_at(self.units() - other.units(), self, other) ==> {
                &&& r is Some
                &&& r->0.units() == self.units() - other.units()
                &&& r->0.scale() <= common_scale(self, other)
            },
    {
        proof {
            use_type_invariant(&self);
            use_type_invariant(&other);
        }
        let r = decimal_sub(self, other);
        if let Some(result) = &r {
            proof {
                use_type_invariant(result);
            }
        }
        r
    }

    /// The product of two amounts, if it is in range.
    pub fn checked_mul(self, other: Amount) -> (r: Option<Amount>)
        ensures
            r == product(self, other),
            (-MAX_MANTISSA <= self.mantissa() * other.mantissa() <= MAX_MANTISSA && self.scale()
                + other.scale() <= MAX_SCALE) ==> {
                &&& r is Some
                &&& r->0.units() * pow10(MAX_SCALE as nat) == self.units() * other.units()
            },
    {
        proof {
            use_type_invariant(&self);
            use_type_invariant(&other);
        }
        decimal_mul(self, other)
    }

    /// Whether the value is above that of `other`.
    pub fn exceeds(self, other: Amount) -> (r: bool)
        ensures
            r == (self.units() > other.units()),
    {
        proof {
            use_type_invariant(&self);
            use_type_invariant(&other);
        }
        decimal_greater(self, other)
    }

    /// The amount in decimal notation, with all its decimal places.
    pub fn to_text(self) -> (r: String)
        ensures
            r@ == amount_text(self),
    {
        proof {
            use_type_invariant(&self);
        }
        decimal_text(self)
    }

    /// Reads an amount from text, or says why the text is none.
    pub fn parse(text: &str) -> (r: Result<Amount, String>)
        ensures
            match r {
                Ok(amount) => parsed_amount(text@) == Ok::<Amount, Seq<char>>(amount),
                Err(reason) => parsed_amount(text@) == Err::<Amount, Seq<char>>(reason@),
            },
    {
        decimal_parse(text)
    }
}

impl PartialEq for Amount {
    /// Amounts are equal if their values are, whatever their decimal places.
    fn eq(&self, other: &Amount) -> (r: bool) {
        !self.exceeds(*other) && !other.exceeds(*self)
    }
}

impl vstd::std_specs::cmp::PartialEqSpecImpl for Amount {
    open spec fn obeys_eq_spec() -> bool {
        true
    }

    open spec fn eq_spec(&self, other: &Amount) -> bool {
        self.units() == other.units()
    }
}

impl Eq for Amount {

}

/// The amount zero without decimal places.
pub closed spec fn zero_amount() -> Amount {
    Amount { mantissa: 0, scale: 0 }
}

/// The largest amount.
pub closed spec fn max_amount() -> Amount {
    Amount { mantissa: MAX_MANTISSA, scale: 0 }
}

/// The amount itself, decimal places and all, unless it is below zero: then zero.
pub open spec fn at_least_zero(a: Amount) -> Amount {
    if a.mantissa() >= 0 {
        a
    } else {
        zero_amount()
    }
}

/// The larger scale of two amounts.
pub open spec fn common_scale(a: Amount, b: Amount) -> nat {
    if a.scale() >= b.scale() {
        a.scale()
    } else {
        b.scale()
    }
}

/// A value of `units` has a mantissa of at most 96 bits when it is written with
/// `scale` decimal places.
pub open spec fn fits(units: int, scale: nat) -> bool {
    let bound = MAX_MANTISSA * pow10((MAX_SCALE - scale) as nat);
    -bound <= units <= bound
}

/// Both amounts, and the value `units`, fit at the larger of the two scales.
pub open spec fn exact_at(units: int, a: Amount, b: Amount) -> bool {
    let scale = common_scale(a, b);
    fits(a.units(), scale) && fits(b.units(), scale) && fits(units, scale)
}

/// The decimal notation of an amount.
pub open spec fn amount_text(a: Amount) -> Seq<char> {
    let magnitude = if a.mantissa() < 0 {
        -a.mantissa() as nat
    } else {
        a.mantissa() as nat
    };
    let sign = if a.mantissa() < 0 {
        "-"@
    } else {
        Seq::<char>::empty()
    };
    if a.scale() == 0 {
        sign + numeral(magnitude)
    } else {
        sign + numeral(magnitude / pow10(a.scale())) + "."@ + padded(
            magnitude % pow10(a.scale()),
            a.scale(),
        )
    }
}

// ---------------------------------------------------------------------------
// rust_decimal
// ---------------------------------------------------------------------------

/// What `rust_decimal::Decimal::checked_add` returns for two amounts.
pub uninterp spec fn sum(a: Amount, b: Amount) -> Option<Amount>;

/// What `rust_decimal::Decimal::checked_sub` returns for two amounts.
pub uninterp spec fn difference(a: Amount, b: Amount) -> Option<Amount>;

/// What `rust_decimal::Decimal::checked_mul` returns for two amounts.
pub uninterp spec fn product(a: Amount, b: Amount) -> Option<Amount>;

/// What `rust_decimal::Decimal::from_str` makes of a text: an amount, or the
/// message of its error.
pub uninterp spec fn parsed_amount(text: Seq<char>) -> Result<Amount, Seq<char>>;

/// `rust_decimal::Decimal::checked_add`: the sum, rounded where it does not
/// fit, and `None` on overflow. Where both operands and the sum fit into 96 bits
/// at the larger of the two scales, the sum is exact and has at most that scale.
#[verifier::external_body]
fn decimal_add(a: Amount, b: Amount) -> (r: Option<Amount>)
    requires
        a.in_range(),
        b.in_range(),
    ensures
        r == sum(a, b),
        exact_at(a.units() + b.units(), a, b) ==> {
            &&& r is Some
            &&& r->0.units() == a.units() + b.units()
            &&& r->0.scale() <= common_scale(a, b)
        },
{
    let x = rust_decimal::Decimal::from_i128_with_scale(a.mantissa, a.scale);
    let y = rust_decimal::Decimal::from_i128_with_scale(b.mantissa, b.scale);
    x.checked_add(y).map(|d| Amount { mantissa: d.mantissa(), scale: d.scale() })
}

/// `rust_decimal::Decimal::checked_sub`: the difference, rounded where it does
/// not fit, and `None` on overflow. Where both operands and the difference fit
/// into 96 bits at the larger of the two scales, the difference is exact and has
/// at most that scale.
#[verifier::external_body]
fn decimal_sub(a: Amount, b: Amount) -> (r: Option<Amount>)
    requires
        a.in_range(),
        b.in_range(),
    ensures
        r == difference(a, b),
        exact_at(a.units() - b.units(), a, b) ==> {
            &&& r is Some
            &&& r->0.units() == a.units() - b.units()
            &&& r->0.scale() <= common_scale(a, b)
        },
{
    let x = rust_decimal::Decimal::from_i128_with_scale(a.mantissa, a.scale);
    let y = rust_decimal::Decimal::from_i128_with_scale(b.mantissa, b.scale);
    x.checked_sub(y).map(|d| Amount { mantissa: d.mantissa(), scale: d.scale() })
}

/// `rust_decimal::Decimal::checked_mul`: the product, rounded where it does not
/// fit, and `None` on overflow. Where the product of the mantissas fits into 96
/// bits and the scales add up to at most 28, the product is exact.
#[verifier::external_body]
fn decimal_mul(a: Amount, b: Amount) -> (r: Option<Amount>)
    requires
        a.in_range(),
        b.in_range(),
    ensures
        r == product(a, b),
        (-MAX_MANTISSA <= a.mantissa() * b.mantissa() <= MAX_MANTISSA && a.scale() + b.scale()
            <= MAX_SCALE) ==> {
            &&& r is Some
            &&& r->0.units() * pow10(MAX_SCALE as nat) == a.units() * b.units()
        },
{
    let x = rust_decimal::Decimal::from_i128_with_scale(a.mantissa, a.scale);
    let y = rust_decimal::Decimal::from_i128_with_scale(b.mantissa, b.scale);
    x.checked_mul(y).map(|d| Amount { mantissa: d.mantissa(), scale: d.scale() })
}

/// `>` of `rust_decimal::Decimal`: compares by value, whatever the scales.
#[verifier::external_body]
fn decimal_greater(a: Amount, b: Amount) -> (r: bool)
    requires
        a.in_range(),
        b.in_range(),
    ensures
        r == (a.units() > b.units()),
{
    let x = rust_decimal::Decimal::from_i128_with_scale(a.mantissa, a.scale);
    let y = rust_decimal::Decimal::from_i128_with_scale(b.mantissa, b.scale);
    x > y
}

/// `to_string` of `rust_decimal::Decimal`: a minus sign below zero, the whole
/// part, and behind a point as many digits as the scale says, if any.
#[verifier::external_body]
fn decimal_text(a: Amount) -> (r: String)
    requires
        a.in_range(),
    ensures
        r@ == amount_text(a),
{
    rust_decimal::Decimal::from_i128_with_scale(a.mantissa, a.scale).to_string()
}

/// `from_str` of `rust_decimal::Decimal`: the amount that a text denotes, or the
/// message of the error.
#[verifier::external_body]
fn decimal_parse(text: &str) -> (r: Result<Amount, String>)
    ensures
        match r {
            Ok(amount) => parsed_amount(text@) == Ok::<Amount, Seq<char>>(amount),
            Err(reason) => parsed_amount(text@) == Err::<Amount, Seq<char>>(reason@),
        },
{
    match <rust_decimal::Decimal as std::str::FromStr>::from_str(text) {
        Ok(d) => Ok(Amount { mantissa: d.mantissa(), scale: d.scale() }),
        Err(error) => Err(error.to_string()),
    }
}

// ---------------------------------------------------------------------------
// Values
// ---------------------------------------------------------------------------

/// Powers of ten are positive and grow.
pub proof fn lemma_pow10(m: nat, n: nat)
    requires
        m <= n,
    ensures
        0 < pow10(m) <= pow10(n),
    decreases n,
{
    if n > 0 {
        if m == n {
            lemma_pow10((m - 1) as nat, (n - 1) as nat);
        } else {
            lemma_pow10(m, (n - 1) as nat);
        }
    }
}

/// What fits at a scale fits at every smaller one.
pub proof fn lemma_fits_below(units: int, small: nat, large: nat)
    requires
        small <= large <= MAX_SCALE,
        fits(units, large),
    ensures
        fits(units, small),
{
    let lower = pow10((MAX_SCALE - large) as nat);
    let upper = pow10((MAX_SCALE - small) as nat);
    lemma_pow10((MAX_SCALE - large) as nat, (MAX_SCALE - small) as nat);
    assert(MAX_MANTISSA * lower <= MAX_MANTISSA * upper) by (nonlinear_arith)
        requires
            lower <= upper,
            MAX_MANTISSA >= 0,
    ;
}

/// An amount is above zero if and only if its value is.
pub proof fn lemma_sign(a: Amount)
    requires
        a.in_range(),
    ensures
        a.units() > 0 <==> a.mantissa() > 0,
        a.units() < 0 <==> a.mantissa() < 0,
        at_least_zero(a).units() == (if a.units() > 0 {
            a.units()
        } else {
            0
        }),
        at_least_zero(a).in_range(),
        at_least_zero(a).scale() <= a.scale(),
{
    let m = a.mantissa();
    let p = pow10((MAX_SCALE - a.scale()) as nat) as int;
    lemma_pow10(0, (MAX_SCALE - a.scale()) as nat);
    assert((m * p > 0 <==> m > 0) && (m * p < 0 <==> m < 0)) by (nonlinear_arith)
        requires
            p > 0,
    ;
    lemma_zero();
}

/// The value of zero.
pub proof fn lemma_zero()
    ensures
        zero_amount().mantissa() == 0,
        zero_amount().scale() == 0,
        zero_amount().units() == 0,
        zero_amount().in_range(),
{
    assert(0 * pow10(MAX_SCALE as nat) == 0);
}

/// The value of the largest amount.
pub proof fn lemma_max_amount()
    ensures
        max_amount().mantissa() == MAX_MANTISSA,
        max_amount().scale() == 0,
        max_amount().units() == MAX_MANTISSA * pow10(MAX_SCALE as nat),
        max_amount().in_range(),
{
}

/// No amount is above the largest.
pub proof fn law_max_amount_is_largest(a: Amount)
    requires
        a.in_range(),
    ensures
        a.units() <= max_amount().units(),
{
    lemma_max_amount();
    let smaller = pow10((MAX_SCALE - a.scale()) as nat);
    let all = pow10(MAX_SCALE as nat);
    lemma_pow10((MAX_SCALE - a.scale()) as nat, MAX_SCALE as nat);
    assert(a.mantissa() * smaller <= MAX_MANTISSA * all) by (nonlinear_arith)
        requires
            a.mantissa() <= MAX_MANTISSA,
            0 < smaller <= all,
            MAX_MANTISSA > 0,
    ;
}

} // verus!
