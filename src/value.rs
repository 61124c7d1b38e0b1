//! Quantities tagged with a unit, and conversion between units.

use vstd::prelude::*;
use crate::currency::{RateTable, valid_rate};
use crate::quantity::{
    Quantity, decimal_text, fraction, lemma_fraction_of_same_value, lemma_fraction_swap,
    lemma_nearest_exact, lemma_scaled_identity, lemma_scaled_inverse, nearest_fraction, scaled,
};
use crate::gcd::{gcd, lemma_reduce};
use crate::units::{LengthUnit, MassUnit, Unit};

verus! {

/// What went wrong in a conversion.
#[derive(Clone, Copy, Debug, PartialEq, Eq, Structural)]
pub enum ConversionErrorKind {
    /// The value has no magnitude.
    EmptyValue,
    /// The units belong to different families.
    IncompatibleUnits,
    /// A currency's exchange rate is not known.
    RateUnavailable,
}

/// A failed conversion, with a message for the user.
#[derive(Clone, Debug)]
pub struct ConversionError {
    pub kind: ConversionErrorKind,
    pub message: String,
}

impl ConversionError {
    /// The conversion error that a failure to obtain a rate causes; its
    /// message is the rate error's text.
    pub fn from_api(e: &crate::currency::APIError) -> (r: ConversionError)
        ensures
            r.kind == ConversionErrorKind::RateUnavailable,
            r.message@ == "API error: "@ + e.message@,
    {
        ConversionError { kind: ConversionErrorKind::RateUnavailable, message: e.to_string() }
    }

    /// `"Conversion error: <message>"`.
    pub fn to_string(&self) -> (r: String)
        ensures
            r@ == "Conversion error: "@ + self.message@,
    {
        let mut s = String::from_str("Conversion error: ");
        s.append(self.message.as_str());
        s
    }
}

/// The message of a failed conversion from `from` to `to`.
pub open spec fn error_message(k: ConversionErrorKind, from: Unit, to: Unit) -> Seq<char> {
    match k {
        ConversionErrorKind::EmptyValue => "Value is None"@,
        ConversionErrorKind::IncompatibleUnits => "Cannot convert from "@ + from.spec_text() + " to "@
            + to.spec_text(),
        ConversionErrorKind::RateUnavailable => "API error: Rate not found"@,
    }
}

/// The size of one `a` in units `b` of the same family, from their sizes
/// `fa` and `fb` in the base unit: `fa / fb`.
pub open spec fn factor_between(fa: (nat, nat), fb: (nat, nat)) -> (nat, nat) {
    (fa.0 * fb.1, fa.1 * fb.0)
}

/// The exact factor from `from` to `to`: `to_base(from) / to_base(to)`
/// within length or mass, `rate(to) / rate(from)` between currencies (each
/// rate says how many units of the currency one dollar buys).
pub open spec fn exact_factor(from: Unit, to: Unit, rates: RateTable) -> Result<(nat, nat), ConversionErrorKind> {
    match (from, to) {
        (Unit::Length(a), Unit::Length(b)) => Ok(factor_between(a.spec_to_base(), b.spec_to_base())),
        (Unit::Mass(a), Unit::Mass(b)) => Ok(factor_between(a.spec_to_base(), b.spec_to_base())),
        (Unit::Currency(a), Unit::Currency(b)) => match (rates.spec_rate(a), rates.spec_rate(b)) {
            (Some(ra), Some(rb)) => Ok((rb.0 * ra.1, rb.1 * ra.0)),
            _ => Err(ConversionErrorKind::RateUnavailable),
        },
        _ => Err(ConversionErrorKind::IncompatibleUnits),
    }
}

/// Amount `q` in unit `from`, expressed in unit `to`: `q` times the factor,
/// where the factor and then the product are each taken as
/// `nearest_fraction` gives them: exact wherever they fit in 64-bit terms.
pub open spec fn convert_amount(q: (nat, nat), from: Unit, to: Unit, rates: RateTable) -> Result<
    (nat, nat),
    ConversionErrorKind,
> {
    match exact_factor(from, to, rates) {
        Ok(f) => {
            let g = nearest_fraction(f.0, f.1);
            Ok(nearest_fraction(q.0 * g.0, q.1 * g.1))
        },
        Err(k) => Err(k),
    }
}

/// Whether converting `q` from `from` to `to` is exact: the factor and the
/// product both fit in 64-bit terms.
pub open spec fn converts_exactly(q: (nat, nat), from: Unit, to: Unit, rates: RateTable) -> bool {
    match exact_factor(from, to, rates) {
        Ok(f) => fraction(f.0, f.1) is Some && scaled(q, fraction(f.0, f.1)->Some_0.0, fraction(f.0, f.1)->Some_0.1) is Some,
        Err(_) => false,
    }
}

/// A magnitude with its unit. Conversion makes a new value.
#[derive(Clone, Debug)]
pub struct Value {
    value: Option<Quantity>,
    unit: Unit,
}

impl View for Value {
    /// The magnitude, if any, and the unit.
    type V = (Option<Quantity>, Unit);

    closed spec fn view(&self) -> (Option<Quantity>, Unit) {
        (self.value, self.unit)
    }
}

proof fn lemma_length_factor_bounds(u: LengthUnit)
    ensures
        0 < u.spec_to_base().0 <= 1143,
        0 < u.spec_to_base().1 <= 5000,
{
}

proof fn lemma_mass_factor_bounds(u: MassUnit)
    ensures
        0 < u.spec_to_base().0 <= 56699,
        0 < u.spec_to_base().1 <= 2000000,
{
}

/// `fa / fb` as numerator and denominator, for factors of at most 2^32.
fn factor_between_exec(fa: (u64, u64), fb: (u64, u64)) -> (r: (u64, u64))
    requires
        0 < fa.0 < 0x1_0000_0000,
        0 < fa.1 < 0x1_0000_0000,
        0 < fb.0 < 0x1_0000_0000,
        0 < fb.1 < 0x1_0000_0000,
    ensures
        (r.0 as nat, r.1 as nat) == factor_between(
            (fa.0 as nat, fa.1 as nat),
            (fb.0 as nat, fb.1 as nat),
        ),
        r.1 > 0,
{
    assert(fa.0 * fb.1 < 0x1_0000_0000 * 0x1_0000_0000 && fa.1 * fb.0 < 0x1_0000_0000 * 0x1_0000_0000
        && fa.1 * fb.0 > 0) by (nonlinear_arith)
        requires
            0 < fa.0 < 0x1_0000_0000,
            0 < fa.1 < 0x1_0000_0000,
            0 < fb.0 < 0x1_0000_0000,
            0 < fb.1 < 0x1_0000_0000,
    ;
    (fa.0 * fb.1, fa.1 * fb.0)
}

/// The factor from the currency with rate `ra` to the one with rate `rb`,
/// as `nearest_fraction` gives it.
fn currency_factor_exec(ra: &Quantity, rb: &Quantity) -> (r: Quantity)
    requires
        ra.wf(),
        rb.wf(),
        ra@.0 > 0,
    ensures
        r.wf(),
        r@ == nearest_fraction(rb@.0 * ra@.1, rb@.1 * ra@.0),
{
    proof {
        Quantity::lemma_bounds(*ra);
        Quantity::lemma_bounds(*rb);
        assert((rb@.0 * ra@.1) <= u128::MAX && (rb@.1 * ra@.0) <= u128::MAX && rb@.1 * ra@.0 > 0)
            by (nonlinear_arith)
            requires
                rb@.0 <= u64::MAX,
                rb@.1 <= u64::MAX,
                ra@.0 <= u64::MAX,
                ra@.1 <= u64::MAX,
                rb@.1 > 0,
                ra@.0 > 0,
        ;
    }
    let n = rb.numer() as u128 * ra.denom() as u128;
    let d = rb.denom() as u128 * ra.numer() as u128;
    Quantity::nearest(n, d)
}

impl Value {
    pub open spec fn wf(self) -> bool {
        match self@.0 {
            Some(q) => q.wf(),
            None => true,
        }
    }

    /// The value `value` in unit `unit`.
    pub fn new(value: Quantity, unit: Unit) -> (r: Value)
        requires
            value.wf(),
        ensures
            r@ == (Some(value), unit),
            r.wf(),
    {
        Value { value: Some(value), unit }
    }

    pub fn magnitude(&self) -> (r: Option<Quantity>)
        ensures
            r == self@.0,
    {
        self.value
    }

    pub fn unit(&self) -> (r: Unit)
        ensures
            r == self@.1,
    {
        self.unit
    }

    /// This value expressed in unit `to`; currencies use `rates`.
    pub fn convert_to(&self, to: &Unit, rates: &RateTable) -> (r: Result<Value, ConversionError>)
        requires
            self.wf(),
            rates.wf(),
        ensures
            match self@.0 {
                None => r is Err && r->Err_0.kind == ConversionErrorKind::EmptyValue
                    && r->Err_0.message@ == error_message(ConversionErrorKind::EmptyValue, self@.1, *to),
                Some(q) => match convert_amount(q@, self@.1, *to, *rates) {
                    Ok(p) => r is Ok && r->Ok_0.wf() && r->Ok_0@.1 == *to && r->Ok_0@.0 is Some
                        && r->Ok_0@.0->Some_0@ == p,
                    Err(k) => r is Err && r->Err_0.kind == k && r->Err_0.message@ == error_message(k, self@.1, *to),
                },
            },
    {
        let q = match self.value {
            None => {
                return Err(
                    ConversionError {
                        kind: ConversionErrorKind::EmptyValue,
                        message: String::from_str("Value is None"),
                    },
                );
            },
            Some(q) => q,
        };
        let factor = match (self.unit, *to) {
            (Unit::Length(a), Unit::Length(b)) => {
                proof {
                    lemma_length_factor_bounds(a);
                    lemma_length_factor_bounds(b);
                }
                let f = factor_between_exec(a.to_base(), b.to_base());
                Quantity::nearest(f.0 as u128, f.1 as u128)
            },
            (Unit::Mass(a), Unit::Mass(b)) => {
                proof {
                    lemma_mass_factor_bounds(a);
                    lemma_mass_factor_bounds(b);
                }
                let f = factor_between_exec(a.to_base(), b.to_base());
                Quantity::nearest(f.0 as u128, f.1 as u128)
            },
            (Unit::Currency(a), Unit::Currency(b)) => match (rates.rate(a), rates.rate(b)) {
                (Some(ra), Some(rb)) => {
                    proof {
                        assert(valid_rate(rates@[a.spec_index() as int]->Some_0));
                    }
                    currency_factor_exec(&ra, &rb)
                },
                _ => {
                    return Err(
                        ConversionError {
                            kind: ConversionErrorKind::RateUnavailable,
                            message: String::from_str("API error: Rate not found"),
                        },
                    );
                },
            },
            _ => {
                let mut msg = String::from_str("Cannot convert from ");
                msg.append(self.unit.to_string().as_str());
                msg.append(" to ");
                msg.append(to.to_string().as_str());
                return Err(ConversionError { kind: ConversionErrorKind::IncompatibleUnits, message: msg });
            },
        };
        let x = q.scale(factor.numer(), factor.denom());
        Ok(Value { value: Some(x), unit: *to })
    }

    /// Display text: `"0.1 kilometer (km)"`, or `"None <unit>"` without a
    /// magnitude.
    pub fn to_string(&self) -> (r: String)
        requires
            self.wf(),
        ensures
            r@ == match self@.0 {
                Some(q) => decimal_text(q@) + " "@ + self@.1.spec_text(),
                None => "None"@ + " "@ + self@.1.spec_text(),
            },
    {
        let mut s = match self.value {
            Some(q) => q.to_decimal_string(),
            None => String::from_str("None"),
        };
        s.append(" ");
        s.append(self.unit.to_string().as_str());
        s
    }
}

/// Same-family conversions never fail, and neither do conversions between
/// currencies whose rates are known.
pub proof fn lemma_convert_succeeds(q: (nat, nat), u1: Unit, u2: Unit, rates: RateTable)
    requires
        u1.same_family(u2),
        u1 matches Unit::Currency(a) ==> rates.spec_rate(a) is Some,
        u2 matches Unit::Currency(b) ==> rates.spec_rate(b) is Some,
    ensures
        convert_amount(q, u1, u2, rates) is Ok,
{
}

/// Converting to the unit one already has gives back the same amount,
/// exactly. A currency needs a known rate.
pub proof fn lemma_convert_identity(q: Quantity, u: Unit, rates: RateTable)
    requires
        q.wf(),
        rates.wf(),
        u matches Unit::Currency(c) ==> rates.spec_rate(c) is Some,
    ensures
        convert_amount(q@, u, u, rates) == Ok::<(nat, nat), ConversionErrorKind>(q@),
{
    let f = exact_factor(u, u, rates)->Ok_0;
    let x: (nat, nat) = match u {
        Unit::Length(a) => {
            lemma_length_factor_bounds(a);
            a.spec_to_base()
        },
        Unit::Mass(a) => {
            lemma_mass_factor_bounds(a);
            a.spec_to_base()
        },
        Unit::Currency(c) => {
            assert(valid_rate(rates@[c.spec_index() as int]->Some_0));
            let r = rates.spec_rate(c)->Some_0;
            (r.1, r.0)
        },
    };
    assert(f == (x.0 * x.1, x.1 * x.0));
    assert(f.0 == f.1 && f.0 > 0) by (nonlinear_arith)
        requires
            x.0 > 0,
            x.1 > 0,
            f == (x.0 * x.1, x.1 * x.0),
    ;
    assert(gcd(1, 1) == gcd(1, 0));
    lemma_fraction_of_same_value(f.0, f.1, (1nat, 1nat));
    lemma_nearest_exact(f.0, f.1);
    lemma_scaled_identity(q, 1);
    lemma_nearest_exact(q@.0 * 1, q@.1 * 1);
}

/// Converting from `u1` to `u2` and back gives back the same amount,
/// exactly, whenever the first conversion is exact.
pub proof fn lemma_convert_round_trip(q: Quantity, u1: Unit, u2: Unit, rates: RateTable)
    requires
        q.wf(),
        rates.wf(),
        converts_exactly(q@, u1, u2, rates),
    ensures
        convert_amount(convert_amount(q@, u1, u2, rates)->Ok_0, u2, u1, rates)
            == Ok::<(nat, nat), ConversionErrorKind>(q@),
{
    let f = exact_factor(u1, u2, rates)->Ok_0;
    let fb = exact_factor(u2, u1, rates)->Ok_0;
    let xy: ((nat, nat), (nat, nat)) = match (u1, u2) {
        (Unit::Length(a), Unit::Length(b)) => {
            lemma_length_factor_bounds(a);
            lemma_length_factor_bounds(b);
            (a.spec_to_base(), b.spec_to_base())
        },
        (Unit::Mass(a), Unit::Mass(b)) => {
            lemma_mass_factor_bounds(a);
            lemma_mass_factor_bounds(b);
            (a.spec_to_base(), b.spec_to_base())
        },
        (Unit::Currency(a), Unit::Currency(b)) => {
            assert(valid_rate(rates@[a.spec_index() as int]->Some_0));
            assert(valid_rate(rates@[b.spec_index() as int]->Some_0));
            let ra = rates.spec_rate(a)->Some_0;
            let rb = rates.spec_rate(b)->Some_0;
            assert(f == (rb.0 * ra.1, rb.1 * ra.0) && fb == (ra.0 * rb.1, ra.1 * rb.0));
            assert(fb == (f.1, f.0) && f.0 > 0 && f.1 > 0) by (nonlinear_arith)
                requires
                    ra.0 > 0,
                    ra.1 > 0,
                    rb.0 > 0,
                    rb.1 > 0,
                    f == (rb.0 * ra.1, rb.1 * ra.0),
                    fb == (ra.0 * rb.1, ra.1 * rb.0),
            ;
            ((1nat, 1nat), (1nat, 1nat))
        },
        _ => ((1nat, 1nat), (1nat, 1nat)),
    };
    let x = xy.0;
    let y = xy.1;
    if !(u1 is Currency) {
        assert(f == (x.0 * y.1, x.1 * y.0) && fb == (y.0 * x.1, y.1 * x.0));
    }
    assert(fb == (f.1, f.0) && f.0 > 0 && f.1 > 0) by (nonlinear_arith)
        requires
            x.0 > 0,
            x.1 > 0,
            y.0 > 0,
            y.1 > 0,
            f == (x.0 * y.1, x.1 * y.0) && fb == (y.0 * x.1, y.1 * x.0) || fb == (f.1, f.0) && f.0 > 0
                && f.1 > 0,
    ;
    lemma_fraction_swap(f.0, f.1);
    let g = fraction(f.0, f.1)->Some_0;
    lemma_reduce(f.0, f.1);
    assert(g.0 > 0) by (nonlinear_arith)
        requires
            g.0 * f.1 == f.0 * g.1,
            f.0 > 0,
            g.1 > 0,
            f.1 > 0,
    ;
    lemma_nearest_exact(f.0, f.1);
    lemma_nearest_exact(f.1, f.0);
    lemma_nearest_exact(q@.0 * g.0, q@.1 * g.1);
    let m = scaled(q@, g.0, g.1)->Some_0;
    lemma_scaled_inverse(q, g.0, g.1);
    lemma_nearest_exact(m.0 * g.1, m.1 * g.0);
}

/// Units of different families never convert, whatever the amount.
pub proof fn lemma_convert_incompatible(q: (nat, nat), u1: Unit, u2: Unit, rates: RateTable)
    requires
        !u1.same_family(u2),
    ensures
        convert_amount(q, u1, u2, rates) == Err::<(nat, nat), ConversionErrorKind>(
            ConversionErrorKind::IncompatibleUnits,
        ),
{
}

impl PartialEq for Value {
    fn eq(&self, other: &Value) -> (r: bool) {
        let same_magnitude = match (self.value, other.value) {
            (Some(a), Some(b)) => a == b,
            (None, None) => true,
            _ => false,
        };
        same_magnitude && self.unit.is_same_family(&other.unit)
    }
}

impl vstd::std_specs::cmp::PartialEqSpecImpl for Value {
    open spec fn obeys_eq_spec() -> bool {
        true
    }

    /// Equal magnitudes and units of one family.
    open spec fn eq_spec(&self, other: &Value) -> bool {
        self@.0 == other@.0 && self@.1.same_family(other@.1)
    }
}

} // verus!
