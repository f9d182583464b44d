//! Decimal reals: a mantissa and a power-of-ten scale, as `rust_decimal`
//! stores them, always kept in normal form (no trailing zero digits).
use vstd::prelude::*;
use rust_decimal::Decimal;
use rust_decimal::MathematicalOps;
use std::cmp::Ordering;
use std::str::FromStr;

verus! {

/// The largest magnitude of a mantissa (96 bits).
pub const MAX_MANTISSA: i128 = 79228162514264337593543950335;

/// The largest number of digits after the decimal point.
pub const MAX_SCALE: u32 = 28;

pub open spec fn pow10(n: nat) -> int
    decreases n,
{
    if n == 0 {
        1
    } else {
        10 * pow10((n - 1) as nat)
    }
}

/// A real number `mantissa / 10^scale`.
#[derive(Clone, Copy, Debug, PartialEq, Eq, Structural)]
pub struct Real {
    pub mantissa: i128,
    pub scale: u32,
}

/// Drops trailing zero digits while a fractional digit remains.
pub open spec fn normal_form(m: int, s: nat) -> (int, nat)
    decreases s,
{
    if s > 0 && m % 10 == 0 {
        normal_form(m / 10, (s - 1) as nat)
    } else {
        (m, s)
    }
}

/// The pair `(mantissa, scale)` that `rust_decimal` returns for a sum.
pub uninterp spec fn decimal_sum(a: (int, nat), b: (int, nat)) -> Option<(int, nat)>;

/// The pair `(mantissa, scale)` that `rust_decimal` returns for a difference.
pub uninterp spec fn decimal_difference(a: (int, nat), b: (int, nat)) -> Option<(int, nat)>;

/// The pair `(mantissa, scale)` that `rust_decimal` returns for a product.
pub uninterp spec fn decimal_product(a: (int, nat), b: (int, nat)) -> Option<(int, nat)>;

/// The pair `(mantissa, scale)` that `rust_decimal` returns for a quotient.
pub uninterp spec fn decimal_quotient(a: (int, nat), b: (int, nat)) -> Option<(int, nat)>;

/// The pair `(mantissa, scale)` that `rust_decimal` returns for an integer power.
pub uninterp spec fn decimal_int_power(a: (int, nat), e: int) -> Option<(int, nat)>;

/// The pair `(mantissa, scale)` that `rust_decimal` returns for a decimal power.
pub uninterp spec fn decimal_power(a: (int, nat), e: (int, nat)) -> Option<(int, nat)>;

/// The pair `(mantissa, scale)` that `rust_decimal` parses from a text.
pub uninterp spec fn decimal_of_text(s: Seq<char>) -> Option<(int, nat)>;

/// The text that `rust_decimal` renders for a decimal.
pub uninterp spec fn decimal_text(a: (int, nat)) -> Seq<char>;

pub open spec fn in_range(p: (int, nat)) -> bool {
    -MAX_MANTISSA <= p.0 <= MAX_MANTISSA && p.1 <= MAX_SCALE
}

pub open spec fn normalized(p: Option<(int, nat)>) -> Option<Real> {
    match p {
        Some(q) => {
            let n = normal_form(q.0, q.1);
            Some(Real { mantissa: n.0 as i128, scale: n.1 as u32 })
        },
        None => None,
    }
}

pub open spec fn real_lt(a: Real, b: Real) -> bool {
    a.mantissa * pow10(b.scale as nat) < b.mantissa * pow10(a.scale as nat)
}

pub open spec fn real_same_value(a: Real, b: Real) -> bool {
    a.mantissa * pow10(b.scale as nat) == b.mantissa * pow10(a.scale as nat)
}

impl Real {
    pub open spec fn wf(self) -> bool {
        &&& -MAX_MANTISSA <= self.mantissa <= MAX_MANTISSA
        &&& self.scale <= MAX_SCALE
        &&& (self.scale > 0 ==> self.mantissa % 10 != 0)
    }

    pub open spec fn pair(self) -> (int, nat) {
        (self.mantissa as int, self.scale as nat)
    }

    pub open spec fn spec_from_int(i: i64) -> Real {
        Real { mantissa: i as i128, scale: 0 }
    }

    /// The real whose value is the integer `i`.
    pub fn from_int(i: i64) -> (r: Real)
        ensures
            r == Real::spec_from_int(i),
            r.wf(),
    {
        Real { mantissa: i as i128, scale: 0 }
    }

    pub fn zero() -> (r: Real)
        ensures
            r.wf(),
            r.mantissa == 0,
            r.scale == 0,
    {
        Real { mantissa: 0, scale: 0 }
    }

    pub open spec fn spec_checked(self) -> Option<Real> {
        if in_range(self.pair()) {
            normalized(Some(self.pair()))
        } else {
            None
        }
    }

    /// The same real in normal form, or `None` when out of range.
    pub fn checked(&self) -> (r: Option<Real>)
        ensures
            r == self.spec_checked(),
            r matches Some(x) ==> x.wf(),
            self.wf() ==> r == Some(*self),
    {
        if -MAX_MANTISSA <= self.mantissa && self.mantissa <= MAX_MANTISSA && self.scale <= MAX_SCALE {
            let r = normalize(self.mantissa, self.scale);
            proof {
                if self.wf() {
                    assert(normal_form(self.mantissa as int, self.scale as nat) == (self.mantissa as int, self.scale as nat));
                }
            }
            Some(r)
        } else {
            None
        }
    }

    /// π to 28 decimal places.
    pub fn pi() -> (r: Real)
        ensures
            r.wf(),
            r == (Real { mantissa: 31415926535897932384626433833, scale: 28 }),
    {
        let r = Real { mantissa: 31415926535897932384626433833, scale: 28 };
        assert(r.mantissa % 10 == 3);
        r
    }

    /// Euler's number to 28 decimal places.
    pub fn e() -> (r: Real)
        ensures
            r.wf(),
            r == (Real { mantissa: 27182818284590452353602874714, scale: 28 }),
    {
        let r = Real { mantissa: 27182818284590452353602874714, scale: 28 };
        assert(r.mantissa % 10 == 4);
        r
    }
}

proof fn lemma_normal_form_in_range(m: int, s: nat)
    requires
        -MAX_MANTISSA <= m <= MAX_MANTISSA,
        s <= MAX_SCALE,
    ensures
        ({
            let n = normal_form(m, s);
            &&& -MAX_MANTISSA <= n.0 <= MAX_MANTISSA
            &&& n.1 <= s
            &&& (n.1 > 0 ==> n.0 % 10 != 0)
        }),
    decreases s,
{
    if s > 0 && m % 10 == 0 {
        assert(-MAX_MANTISSA <= m / 10 <= MAX_MANTISSA);
        lemma_normal_form_in_range(m / 10, (s - 1) as nat);
    }
}

/// Brings a mantissa and scale in range to normal form.
pub fn normalize(m: i128, s: u32) -> (r: Real)
    requires
        -MAX_MANTISSA <= m <= MAX_MANTISSA,
        s <= MAX_SCALE,
    ensures
        r.wf(),
        r.pair() == normal_form(m as int, s as nat),
{
    proof {
        lemma_normal_form_in_range(m as int, s as nat);
    }
    let negative = m < 0;
    let mut a: u128 = if negative { (0 - m) as u128 } else { m as u128 };
    let mut k: u32 = s;
    while k > 0 && a % 10 == 0
        invariant
            a <= MAX_MANTISSA,
            k <= s,
            normal_form(m as int, s as nat) == normal_form(
                if negative { -(a as int) } else { a as int },
                k as nat,
            ),
        decreases k,
    {
        let ghost v: int = if negative { -(a as int) } else { a as int };
        assert(v % 10 == 0);
        assert(v / 10 == if negative { -((a / 10) as int) } else { (a / 10) as int });
        a = a / 10;
        k = k - 1;
    }
    let ghost v: int = if negative { -(a as int) } else { a as int };
    assert(!(k > 0 && v % 10 == 0));
    let mm: i128 = if negative { 0 - (a as i128) } else { a as i128 };
    Real { mantissa: mm, scale: k }
}

/// Relies on `Decimal::checked_add` (and `from_i128_with_scale`, `mantissa`,
/// `scale` to convert): the sum, or `None` on overflow.
#[verifier::external_body]
fn decimal_add(a: Real, b: Real) -> (r: Option<(i128, u32)>)
    requires
        a.wf(),
        b.wf(),
    ensures
        r matches Some(p) ==> in_range((p.0 as int, p.1 as nat)),
        r matches Some(p) ==> decimal_sum(a.pair(), b.pair()) == Some((p.0 as int, p.1 as nat)),
        r is None ==> decimal_sum(a.pair(), b.pair()) is None,
{
    let x = Decimal::from_i128_with_scale(a.mantissa, a.scale);
    let y = Decimal::from_i128_with_scale(b.mantissa, b.scale);
    x.checked_add(y).map(|d| (d.mantissa(), d.scale()))
}

/// Relies on `Decimal::checked_sub`: the difference, or `None` on overflow.
#[verifier::external_body]
fn decimal_sub(a: Real, b: Real) -> (r: Option<(i128, u32)>)
    requires
        a.wf(),
        b.wf(),
    ensures
        r matches Some(p) ==> in_range((p.0 as int, p.1 as nat)),
        r matches Some(p) ==> decimal_difference(a.pair(), b.pair()) == Some((p.0 as int, p.1 as nat)),
        r is None ==> decimal_difference(a.pair(), b.pair()) is None,
{
    let x = Decimal::from_i128_with_scale(a.mantissa, a.scale);
    let y = Decimal::from_i128_with_scale(b.mantissa, b.scale);
    x.checked_sub(y).map(|d| (d.mantissa(), d.scale()))
}

/// Relies on `Decimal::checked_mul`: the product, or `None` on overflow.
#[verifier::external_body]
fn decimal_mul(a: Real, b: Real) -> (r: Option<(i128, u32)>)
    requires
        a.wf(),
        b.wf(),
    ensures
        r matches Some(p) ==> in_range((p.0 as int, p.1 as nat)),
        r matches Some(p) ==> decimal_product(a.pair(), b.pair()) == Some((p.0 as int, p.1 as nat)),
        r is None ==> decimal_product(a.pair(), b.pair()) is None,
{
    let x = Decimal::from_i128_with_scale(a.mantissa, a.scale);
    let y = Decimal::from_i128_with_scale(b.mantissa, b.scale);
    x.checked_mul(y).map(|d| (d.mantissa(), d.scale()))
}

/// Relies on `Decimal::checked_div`: the quotient, or `None` when the
/// divisor is zero or the quotient overflows.
#[verifier::external_body]
fn decimal_div(a: Real, b: Real) -> (r: Option<(i128, u32)>)
    requires
        a.wf(),
        b.wf(),
    ensures
        r matches Some(p) ==> in_range((p.0 as int, p.1 as nat)),
        r matches Some(p) ==> decimal_quotient(a.pair(), b.pair()) == Some((p.0 as int, p.1 as nat)),
        r is None ==> decimal_quotient(a.pair(), b.pair()) is None,
        b.mantissa == 0 ==> r is None,
{
    let x = Decimal::from_i128_with_scale(a.mantissa, a.scale);
    let y = Decimal::from_i128_with_scale(b.mantissa, b.scale);
    x.checked_div(y).map(|d| (d.mantissa(), d.scale()))
}

/// Relies on `MathematicalOps::checked_powi`: `a` to an integer power, or
/// `None` on overflow (a negative power of zero included).
#[verifier::external_body]
fn decimal_powi(a: Real, e: i64) -> (r: Option<(i128, u32)>)
    requires
        a.wf(),
    ensures
        r matches Some(p) ==> in_range((p.0 as int, p.1 as nat)),
        r matches Some(p) ==> decimal_int_power(a.pair(), e as int) == Some((p.0 as int, p.1 as nat)),
        r is None ==> decimal_int_power(a.pair(), e as int) is None,
{
    let x = Decimal::from_i128_with_scale(a.mantissa, a.scale);
    x.checked_powi(e).map(|d| (d.mantissa(), d.scale()))
}

/// Relies on `MathematicalOps::checked_powd`: a positive `a` to a decimal
/// power, or `None` when the power does not fit.
#[verifier::external_body]
fn decimal_powd(a: Real, e: Real) -> (r: Option<(i128, u32)>)
    requires
        a.wf(),
        e.wf(),
        a.mantissa > 0,
    ensures
        r matches Some(p) ==> in_range((p.0 as int, p.1 as nat)),
        r matches Some(p) ==> decimal_power(a.pair(), e.pair()) == Some((p.0 as int, p.1 as nat)),
        r is None ==> decimal_power(a.pair(), e.pair()) is None,
{
    let x = Decimal::from_i128_with_scale(a.mantissa, a.scale);
    let y = Decimal::from_i128_with_scale(e.mantissa, e.scale);
    x.checked_powd(y).map(|d| (d.mantissa(), d.scale()))
}

/// Relies on `Decimal::from_str`: the decimal that a text denotes, if any.
#[verifier::external_body]
fn decimal_parse(s: &str) -> (r: Option<(i128, u32)>)
    ensures
        r matches Some(p) ==> in_range((p.0 as int, p.1 as nat)),
        r matches Some(p) ==> decimal_of_text(s@) == Some((p.0 as int, p.1 as nat)),
        r is None ==> decimal_of_text(s@) is None,
{
    Decimal::from_str(s).ok().map(|d| (d.mantissa(), d.scale()))
}

/// Relies on `Decimal`'s `Ord`, which orders decimals by their value.
#[verifier::external_body]
fn decimal_cmp(a: Real, b: Real) -> (r: Ordering)
    requires
        a.wf(),
        b.wf(),
    ensures
        (r == Ordering::Less) <==> real_lt(a, b),
        (r == Ordering::Greater) <==> real_lt(b, a),
{
    let x = Decimal::from_i128_with_scale(a.mantissa, a.scale);
    let y = Decimal::from_i128_with_scale(b.mantissa, b.scale);
    x.cmp(&y)
}

/// Relies on `Decimal`'s `Display`: the decimal's text.
#[verifier::external_body]
fn decimal_to_text(a: Real) -> (r: String)
    requires
        a.wf(),
    ensures
        r@ == decimal_text(a.pair()),
{
    Decimal::from_i128_with_scale(a.mantissa, a.scale).to_string()
}

fn normalize_result(p: Option<(i128, u32)>) -> (r: Option<Real>)
    requires
        p matches Some(q) ==> in_range((q.0 as int, q.1 as nat)),
    ensures
        r == normalized(match p {
            Some(q) => Some((q.0 as int, q.1 as nat)),
            None => None,
        }),
        r matches Some(x) ==> x.wf(),
{
    match p {
        Some(q) => Some(normalize(q.0, q.1)),
        None => None,
    }
}

impl Real {
    /// The sum, or `None` where it does not fit a decimal.
    pub fn add(&self, o: &Real) -> (r: Option<Real>)
        requires
            self.wf(),
            o.wf(),
        ensures
            r == normalized(decimal_sum(self.pair(), o.pair())),
            r matches Some(x) ==> x.wf(),
    {
        normalize_result(decimal_add(*self, *o))
    }

    /// The difference, or `None` where it does not fit a decimal.
    pub fn sub(&self, o: &Real) -> (r: Option<Real>)
        requires
            self.wf(),
            o.wf(),
        ensures
            r == normalized(decimal_difference(self.pair(), o.pair())),
            r matches Some(x) ==> x.wf(),
    {
        normalize_result(decimal_sub(*self, *o))
    }

    /// The product, or `None` where it does not fit a decimal.
    pub fn mul(&self, o: &Real) -> (r: Option<Real>)
        requires
            self.wf(),
            o.wf(),
        ensures
            r == normalized(decimal_product(self.pair(), o.pair())),
            r matches Some(x) ==> x.wf(),
    {
        normalize_result(decimal_mul(*self, *o))
    }

    /// The quotient, or `None` for a zero divisor or where it does not fit.
    pub fn div(&self, o: &Real) -> (r: Option<Real>)
        requires
            self.wf(),
            o.wf(),
        ensures
            r == normalized(decimal_quotient(self.pair(), o.pair())),
            o.mantissa == 0 ==> r is None,
            r matches Some(x) ==> x.wf(),
    {
        normalize_result(decimal_div(*self, *o))
    }

    /// `self` to an integer power, or `None` where it does not fit.
    pub fn powi(&self, e: i64) -> (r: Option<Real>)
        requires
            self.wf(),
        ensures
            r == normalized(decimal_int_power(self.pair(), e as int)),
            r matches Some(x) ==> x.wf(),
    {
        normalize_result(decimal_powi(*self, e))
    }

    /// A positive `self` to a decimal power, or `None` where it does not fit.
    pub fn powd(&self, e: &Real) -> (r: Option<Real>)
        requires
            self.wf(),
            e.wf(),
            self.mantissa > 0,
        ensures
            r == normalized(decimal_power(self.pair(), e.pair())),
            r matches Some(x) ==> x.wf(),
    {
        normalize_result(decimal_powd(*self, *e))
    }

    /// The decimal that a text denotes, in normal form.
    pub fn parse(s: &str) -> (r: Option<Real>)
        ensures
            r == normalized(decimal_of_text(s@)),
            r matches Some(x) ==> x.wf(),
    {
        normalize_result(decimal_parse(s))
    }

    /// The decimal's text.
    pub fn to_text(&self) -> (r: String)
        requires
            self.wf(),
        ensures
            r@ == decimal_text(self.pair()),
    {
        decimal_to_text(*self)
    }

    /// Whether `self` is smaller than `o` in value.
    pub fn less_than(&self, o: &Real) -> (r: bool)
        requires
            self.wf(),
            o.wf(),
        ensures
            r == real_lt(*self, *o),
    {
        match decimal_cmp(*self, *o) {
            Ordering::Less => true,
            _ => false,
        }
    }

    pub fn negate(&self) -> (r: Real)
        requires
            self.wf(),
        ensures
            r.wf(),
            r.mantissa == -self.mantissa,
            r.scale == self.scale,
    {
        let r = Real { mantissa: 0 - self.mantissa, scale: self.scale };
        assert(self.scale > 0 ==> (-self.mantissa) % 10 != 0) by {
            if self.scale > 0 && (-self.mantissa) % 10 == 0 {
                assert(self.mantissa == -((-self.mantissa) / 10) * 10);
            }
        }
        r
    }

    pub fn abs(&self) -> (r: Real)
        requires
            self.wf(),
        ensures
            r.wf(),
            r.mantissa == if self.mantissa < 0 { -self.mantissa } else { self.mantissa as int },
            r.scale == self.scale,
    {
        if self.mantissa < 0 {
            self.negate()
        } else {
            *self
        }
    }
}

} // verus!
