//! Unit families (length, mass, currency), their members' names, and the
//! factor that takes each length or mass member to its family's base unit.

use vstd::prelude::*;
use crate::text::{chars_of, slice_is};

verus! {

/// Units of length; the base unit is the meter.
#[derive(Clone, Copy, Debug, PartialEq, Eq, Structural)]
pub enum LengthUnit {
    Meter,
    Centimeter,
    Kilometer,
    Yard,
    Foot,
    Inch,
}

/// Units of mass; the base unit is the kilogram.
#[derive(Clone, Copy, Debug, PartialEq, Eq, Structural)]
pub enum MassUnit {
    Kilogram,
    Gram,
    Ton,
    Pound,
    Ounce,
}

/// Currencies; rates are quoted against the US dollar.
#[derive(Clone, Copy, Debug, PartialEq, Eq, Hash, Structural)]
pub enum CurrencyUnit {
    USD,
    EUR,
    JPY,
    KRW,
    GBP,
    AUD,
}

/// A unit of one of the families.
///
/// `==` on units compares families only: any two lengths are equal, which
/// says that they are comparable. `same_unit` compares members.
#[derive(Clone, Copy, Debug)]
pub enum Unit {
    Length(LengthUnit),
    Mass(MassUnit),
    Currency(CurrencyUnit),
}

impl LengthUnit {
    pub open spec fn spec_all() -> Seq<LengthUnit> {
        seq![
            LengthUnit::Meter,
            LengthUnit::Centimeter,
            LengthUnit::Kilometer,
            LengthUnit::Yard,
            LengthUnit::Foot,
            LengthUnit::Inch,
        ]
    }

    pub open spec fn spec_long_name(self) -> Seq<char> {
        match self {
            LengthUnit::Meter => "meter"@,
            LengthUnit::Centimeter => "centimeter"@,
            LengthUnit::Kilometer => "kilometer"@,
            LengthUnit::Yard => "yard"@,
            LengthUnit::Foot => "foot"@,
            LengthUnit::Inch => "inch"@,
        }
    }

    pub open spec fn spec_short_name(self) -> Seq<char> {
        match self {
            LengthUnit::Meter => "m"@,
            LengthUnit::Centimeter => "cm"@,
            LengthUnit::Kilometer => "km"@,
            LengthUnit::Yard => "yd"@,
            LengthUnit::Foot => "ft"@,
            LengthUnit::Inch => "in"@,
        }
    }

    /// The size of one member in meters, as a fraction.
    pub open spec fn spec_to_base(self) -> (nat, nat) {
        match self {
            LengthUnit::Meter => (1, 1),
            LengthUnit::Centimeter => (1, 100),
            LengthUnit::Kilometer => (1000, 1),
            LengthUnit::Yard => (1143, 1250),
            LengthUnit::Foot => (381, 1250),
            LengthUnit::Inch => (127, 5000),
        }
    }

    /// Every member, in declaration order.
    pub fn all() -> (r: Vec<LengthUnit>)
        ensures
            r@ == LengthUnit::spec_all(),
    {
        let r = vec![
            LengthUnit::Meter,
            LengthUnit::Centimeter,
            LengthUnit::Kilometer,
            LengthUnit::Yard,
            LengthUnit::Foot,
            LengthUnit::Inch,
        ];
        assert(r@ =~= LengthUnit::spec_all());
        r
    }

    pub fn long_name(&self) -> (r: &'static str)
        ensures
            r@ == self.spec_long_name(),
    {
        match self {
            LengthUnit::Meter => "meter",
            LengthUnit::Centimeter => "centimeter",
            LengthUnit::Kilometer => "kilometer",
            LengthUnit::Yard => "yard",
            LengthUnit::Foot => "foot",
            LengthUnit::Inch => "inch",
        }
    }

    pub fn short_name(&self) -> (r: &'static str)
        ensures
            r@ == self.spec_short_name(),
    {
        match self {
            LengthUnit::Meter => "m",
            LengthUnit::Centimeter => "cm",
            LengthUnit::Kilometer => "km",
            LengthUnit::Yard => "yd",
            LengthUnit::Foot => "ft",
            LengthUnit::Inch => "in",
        }
    }

    /// The size of one member in meters, as numerator and denominator.
    pub fn to_base(&self) -> (r: (u64, u64))
        ensures
            (r.0 as nat, r.1 as nat) == self.spec_to_base(),
    {
        match self {
            LengthUnit::Meter => (1, 1),
            LengthUnit::Centimeter => (1, 100),
            LengthUnit::Kilometer => (1000, 1),
            LengthUnit::Yard => (1143, 1250),
            LengthUnit::Foot => (381, 1250),
            LengthUnit::Inch => (127, 5000),
        }
    }
}

impl MassUnit {
    pub open spec fn spec_all() -> Seq<MassUnit> {
        seq![MassUnit::Kilogram, MassUnit::Gram, MassUnit::Ton, MassUnit::Pound, MassUnit::Ounce]
    }

    pub open spec fn spec_long_name(self) -> Seq<char> {
        match self {
            MassUnit::Kilogram => "kilogram"@,
            MassUnit::Gram => "gram"@,
            MassUnit::Ton => "ton"@,
            MassUnit::Pound => "pound"@,
            MassUnit::Ounce => "ounce"@,
        }
    }

    pub open spec fn spec_short_name(self) -> Seq<char> {
        match self {
            MassUnit::Kilogram => "kg"@,
            MassUnit::Gram => "g"@,
            MassUnit::Ton => "t"@,
            MassUnit::Pound => "lb"@,
            MassUnit::Ounce => "oz"@,
        }
    }

    /// The size of one member in kilograms, as a fraction.
    pub open spec fn spec_to_base(self) -> (nat, nat) {
        match self {
            MassUnit::Kilogram => (1, 1),
            MassUnit::Gram => (1, 1000),
            MassUnit::Ton => (1000, 1),
            MassUnit::Pound => (56699, 125000),
            MassUnit::Ounce => (56699, 2000000),
        }
    }

    /// Every member, in declaration order.
    pub fn all() -> (r: Vec<MassUnit>)
        ensures
            r@ == MassUnit::spec_all(),
    {
        let r = vec![MassUnit::Kilogram, MassUnit::Gram, MassUnit::Ton, MassUnit::Pound, MassUnit::Ounce];
        assert(r@ =~= MassUnit::spec_all());
        r
    }

    pub fn long_name(&self) -> (r: &'static str)
        ensures
            r@ == self.spec_long_name(),
    {
        match self {
            MassUnit::Kilogram => "kilogram",
            MassUnit::Gram => "gram",
            MassUnit::Ton => "ton",
            MassUnit::Pound => "pound",
            MassUnit::Ounce => "ounce",
        }
    }

    pub fn short_name(&self) -> (r: &'static str)
        ensures
            r@ == self.spec_short_name(),
    {
        match self {
            MassUnit::Kilogram => "kg",
            MassUnit::Gram => "g",
            MassUnit::Ton => "t",
            MassUnit::Pound => "lb",
            MassUnit::Ounce => "oz",
        }
    }

    /// The size of one member in kilograms, as numerator and denominator.
    pub fn to_base(&self) -> (r: (u64, u64))
        ensures
            (r.0 as nat, r.1 as nat) == self.spec_to_base(),
    {
        match self {
            MassUnit::Kilogram => (1, 1),
            MassUnit::Gram => (1, 1000),
            MassUnit::Ton => (1000, 1),
            MassUnit::Pound => (56699, 125000),
            MassUnit::Ounce => (56699, 2000000),
        }
    }
}

impl CurrencyUnit {
    pub open spec fn spec_all() -> Seq<CurrencyUnit> {
        seq![
            CurrencyUnit::USD,
            CurrencyUnit::EUR,
            CurrencyUnit::JPY,
            CurrencyUnit::KRW,
            CurrencyUnit::GBP,
            CurrencyUnit::AUD,
        ]
    }

    /// Position in declaration order.
    pub open spec fn spec_index(self) -> nat {
        match self {
            CurrencyUnit::USD => 0,
            CurrencyUnit::EUR => 1,
            CurrencyUnit::JPY => 2,
            CurrencyUnit::KRW => 3,
            CurrencyUnit::GBP => 4,
            CurrencyUnit::AUD => 5,
        }
    }

    /// The three-letter code, which serves as both long and short name.
    pub open spec fn spec_code(self) -> Seq<char> {
        match self {
            CurrencyUnit::USD => "USD"@,
            CurrencyUnit::EUR => "EUR"@,
            CurrencyUnit::JPY => "JPY"@,
            CurrencyUnit::KRW => "KRW"@,
            CurrencyUnit::GBP => "GBP"@,
            CurrencyUnit::AUD => "AUD"@,
        }
    }

    /// The currency whose code is `text`, if any.
    pub fn from_code(text: &str) -> (r: Option<CurrencyUnit>)
        ensures
            r == currency_named(text@),
    {
        let cs = chars_of(text);
        let currencies = CurrencyUnit::all();
        let mut i: usize = 0;
        while i < currencies.len()
            invariant
                currencies@ == CurrencyUnit::spec_all(),
                cs@ == text@,
                i <= currencies@.len(),
                forall|j: int| 0 <= j < i ==> (#[trigger] currencies@[j]).spec_code() != text@,
            decreases currencies.len() - i,
        {
            let c = currencies[i];
            if slice_is(&cs, 0, cs.len(), c.code()) {
                proof {
                    assert(cs@.subrange(0, cs@.len() as int) =~= cs@);
                    lemma_currency_named_code(c);
                }
                return Some(c);
            }
            proof {
                assert(cs@.subrange(0, cs@.len() as int) =~= cs@);
            }
            i = i + 1;
        }
        proof {
            assert forall|c: CurrencyUnit| c.spec_code() != text@ by {
                assert(CurrencyUnit::spec_all()[c.spec_index() as int] == c);
            }
        }
        None
    }

    /// Every currency, in declaration order.
    pub fn all() -> (r: Vec<CurrencyUnit>)
        ensures
            r@ == CurrencyUnit::spec_all(),
    {
        let r = vec![
            CurrencyUnit::USD,
            CurrencyUnit::EUR,
            CurrencyUnit::JPY,
            CurrencyUnit::KRW,
            CurrencyUnit::GBP,
            CurrencyUnit::AUD,
        ];
        assert(r@ =~= CurrencyUnit::spec_all());
        r
    }

    pub fn index(&self) -> (r: usize)
        ensures
            r == self.spec_index(),
    {
        match self {
            CurrencyUnit::USD => 0,
            CurrencyUnit::EUR => 1,
            CurrencyUnit::JPY => 2,
            CurrencyUnit::KRW => 3,
            CurrencyUnit::GBP => 4,
            CurrencyUnit::AUD => 5,
        }
    }

    pub fn code(&self) -> (r: &'static str)
        ensures
            r@ == self.spec_code(),
    {
        match self {
            CurrencyUnit::USD => "USD",
            CurrencyUnit::EUR => "EUR",
            CurrencyUnit::JPY => "JPY",
            CurrencyUnit::KRW => "KRW",
            CurrencyUnit::GBP => "GBP",
            CurrencyUnit::AUD => "AUD",
        }
    }
}

/// The currency whose code is `code`, if any.
pub open spec fn currency_named(code: Seq<char>) -> Option<CurrencyUnit> {
    if exists|c: CurrencyUnit| c.spec_code() == code {
        Some(choose|c: CurrencyUnit| c.spec_code() == code)
    } else {
        None
    }
}

/// No two currencies share a code.
pub proof fn lemma_codes_distinct(a: CurrencyUnit, b: CurrencyUnit)
    ensures
        a.spec_code() == b.spec_code() ==> a == b,
{
    reveal_strlit("USD");
    reveal_strlit("EUR");
    reveal_strlit("JPY");
    reveal_strlit("KRW");
    reveal_strlit("GBP");
    reveal_strlit("AUD");
    if a.spec_code() == b.spec_code() {
        assert(a.spec_code()[0] == b.spec_code()[0]);
        assert(a.spec_code()[1] == b.spec_code()[1]);
    }
}

/// Each currency is the one that its code names.
pub proof fn lemma_currency_named_code(c: CurrencyUnit)
    ensures
        currency_named(c.spec_code()) == Some(c),
{
    let d = choose|d: CurrencyUnit| d.spec_code() == c.spec_code();
    lemma_codes_distinct(c, d);
}

/// Whether `s` names the length unit `u` by its long or short name.
pub open spec fn names_length(s: Seq<char>, u: LengthUnit) -> bool {
    s == u.spec_long_name() || s == u.spec_short_name()
}

pub open spec fn names_mass(s: Seq<char>, u: MassUnit) -> bool {
    s == u.spec_long_name() || s == u.spec_short_name()
}

pub open spec fn names_currency(s: Seq<char>, u: CurrencyUnit) -> bool {
    s == u.spec_code()
}

/// Whether `s` names unit `u`.
pub open spec fn names_unit(s: Seq<char>, u: Unit) -> bool {
    match u {
        Unit::Length(l) => names_length(s, l),
        Unit::Mass(m) => names_mass(s, m),
        Unit::Currency(c) => names_currency(s, c),
    }
}

/// Whether `s` names some unit.
pub open spec fn is_unit_name(s: Seq<char>) -> bool {
    exists|u: Unit| names_unit(s, u)
}

/// What parsing `text` as a unit gives: the unit it names (names are
/// unique, see `lemma_unit_names_unique`), or `"Invalid unit: <text>"`
/// where it names none.
pub open spec fn unit_parse_result(text: Seq<char>, r: Result<Unit, String>) -> bool {
    match r {
        Ok(u) => names_unit(text, u),
        Err(msg) => !is_unit_name(text) && msg@ == "Invalid unit: "@ + text,
    }
}

/// Length, first and last character of a name.
pub open spec fn name_key(s: Seq<char>) -> (nat, char, char) {
    (s.len(), s[0], s[s.len() - 1])
}

/// The keys of the long and short name of each unit; no two units share one.
pub open spec fn unit_name_keys(u: Unit) -> ((nat, char, char), (nat, char, char)) {
    match u {
        Unit::Length(LengthUnit::Meter) => ((5nat, 'm', 'r'), (1nat, 'm', 'm')),
        Unit::Length(LengthUnit::Centimeter) => ((10nat, 'c', 'r'), (2nat, 'c', 'm')),
        Unit::Length(LengthUnit::Kilometer) => ((9nat, 'k', 'r'), (2nat, 'k', 'm')),
        Unit::Length(LengthUnit::Yard) => ((4nat, 'y', 'd'), (2nat, 'y', 'd')),
        Unit::Length(LengthUnit::Foot) => ((4nat, 'f', 't'), (2nat, 'f', 't')),
        Unit::Length(LengthUnit::Inch) => ((4nat, 'i', 'h'), (2nat, 'i', 'n')),
        Unit::Mass(MassUnit::Kilogram) => ((8nat, 'k', 'm'), (2nat, 'k', 'g')),
        Unit::Mass(MassUnit::Gram) => ((4nat, 'g', 'm'), (1nat, 'g', 'g')),
        Unit::Mass(MassUnit::Ton) => ((3nat, 't', 'n'), (1nat, 't', 't')),
        Unit::Mass(MassUnit::Pound) => ((5nat, 'p', 'd'), (2nat, 'l', 'b')),
        Unit::Mass(MassUnit::Ounce) => ((5nat, 'o', 'e'), (2nat, 'o', 'z')),
        Unit::Currency(CurrencyUnit::USD) => ((3nat, 'U', 'D'), (3nat, 'U', 'D')),
        Unit::Currency(CurrencyUnit::EUR) => ((3nat, 'E', 'R'), (3nat, 'E', 'R')),
        Unit::Currency(CurrencyUnit::JPY) => ((3nat, 'J', 'Y'), (3nat, 'J', 'Y')),
        Unit::Currency(CurrencyUnit::KRW) => ((3nat, 'K', 'W'), (3nat, 'K', 'W')),
        Unit::Currency(CurrencyUnit::GBP) => ((3nat, 'G', 'P'), (3nat, 'G', 'P')),
        Unit::Currency(CurrencyUnit::AUD) => ((3nat, 'A', 'D'), (3nat, 'A', 'D')),
    }
}

proof fn lemma_name_key(s: Seq<char>, u: Unit)
    requires
        names_unit(s, u),
    ensures
        name_key(s) == unit_name_keys(u).0 || name_key(s) == unit_name_keys(u).1,
{
    reveal_strlit("AUD");
    reveal_strlit("EUR");
    reveal_strlit("GBP");
    reveal_strlit("JPY");
    reveal_strlit("KRW");
    reveal_strlit("USD");
    reveal_strlit("centimeter");
    reveal_strlit("cm");
    reveal_strlit("foot");
    reveal_strlit("ft");
    reveal_strlit("g");
    reveal_strlit("gram");
    reveal_strlit("in");
    reveal_strlit("inch");
    reveal_strlit("kg");
    reveal_strlit("kilogram");
    reveal_strlit("kilometer");
    reveal_strlit("km");
    reveal_strlit("lb");
    reveal_strlit("m");
    reveal_strlit("meter");
    reveal_strlit("ounce");
    reveal_strlit("oz");
    reveal_strlit("pound");
    reveal_strlit("t");
    reveal_strlit("ton");
    reveal_strlit("yard");
    reveal_strlit("yd");
}

/// No text names two units: each long or short name parses to exactly one
/// member of one family.
pub proof fn lemma_unit_names_unique(s: Seq<char>, u: Unit, v: Unit)
    requires
        names_unit(s, u),
        names_unit(s, v),
    ensures
        u == v,
{
    lemma_name_key(s, u);
    lemma_name_key(s, v);
}

impl Unit {
    /// Whether two units belong to the same family.
    pub open spec fn same_family(self, other: Unit) -> bool {
        match (self, other) {
            (Unit::Length(_), Unit::Length(_)) => true,
            (Unit::Mass(_), Unit::Mass(_)) => true,
            (Unit::Currency(_), Unit::Currency(_)) => true,
            _ => false,
        }
    }

    /// `"<long> (<short>)"` for length and mass, the code for a currency.
    pub open spec fn spec_text(self) -> Seq<char> {
        match self {
            Unit::Length(u) => u.spec_long_name() + " ("@ + u.spec_short_name() + ")"@,
            Unit::Mass(u) => u.spec_long_name() + " ("@ + u.spec_short_name() + ")"@,
            Unit::Currency(u) => u.spec_code(),
        }
    }

    /// Every member of every family: families in declaration order, then
    /// members in declaration order.
    pub open spec fn spec_all_units() -> Seq<Unit> {
        LengthUnit::spec_all().map_values(|u: LengthUnit| Unit::Length(u))
            + MassUnit::spec_all().map_values(|u: MassUnit| Unit::Mass(u))
            + CurrencyUnit::spec_all().map_values(|u: CurrencyUnit| Unit::Currency(u))
    }

    /// Every member of every family, grouped by family.
    pub fn get_all_units() -> (r: Vec<Unit>)
        ensures
            r@ == Unit::spec_all_units(),
    {
        let mut r: Vec<Unit> = Vec::new();
        let lengths = LengthUnit::all();
        let mut i: usize = 0;
        while i < lengths.len()
            invariant
                lengths@ == LengthUnit::spec_all(),
                i <= lengths@.len(),
                r@ == lengths@.subrange(0, i as int).map_values(|u: LengthUnit| Unit::Length(u)),
            decreases lengths.len() - i,
        {
            r.push(Unit::Length(lengths[i]));
            i = i + 1;
            assert(r@ =~= lengths@.subrange(0, i as int).map_values(|u: LengthUnit| Unit::Length(u)));
        }
        assert(lengths@.subrange(0, i as int) =~= lengths@);
        let ghost head = r@;
        let masses = MassUnit::all();
        let mut i: usize = 0;
        while i < masses.len()
            invariant
                masses@ == MassUnit::spec_all(),
                i <= masses@.len(),
                r@ == head + masses@.subrange(0, i as int).map_values(|u: MassUnit| Unit::Mass(u)),
            decreases masses.len() - i,
        {
            r.push(Unit::Mass(masses[i]));
            i = i + 1;
            assert(r@ =~= head + masses@.subrange(0, i as int).map_values(|u: MassUnit| Unit::Mass(u)));
        }
        assert(masses@.subrange(0, i as int) =~= masses@);
        let ghost head = r@;
        let currencies = CurrencyUnit::all();
        let mut i: usize = 0;
        while i < currencies.len()
            invariant
                currencies@ == CurrencyUnit::spec_all(),
                i <= currencies@.len(),
                r@ == head + currencies@.subrange(0, i as int).map_values(|u: CurrencyUnit| Unit::Currency(u)),
            decreases currencies.len() - i,
        {
            r.push(Unit::Currency(currencies[i]));
            i = i + 1;
            assert(r@ =~= head + currencies@.subrange(0, i as int).map_values(
                |u: CurrencyUnit| Unit::Currency(u),
            ));
        }
        assert(currencies@.subrange(0, i as int) =~= currencies@);
        r
    }

    /// Whether two units are the same member of the same family.
    pub fn same_unit(&self, other: &Unit) -> (r: bool)
        ensures
            r == (*self == *other),
    {
        match (self, other) {
            (Unit::Length(a), Unit::Length(b)) => *a == *b,
            (Unit::Mass(a), Unit::Mass(b)) => *a == *b,
            (Unit::Currency(a), Unit::Currency(b)) => *a == *b,
            _ => false,
        }
    }

    /// Whether two units belong to the same family.
    pub fn is_same_family(&self, other: &Unit) -> (r: bool)
        ensures
            r == self.same_family(*other),
    {
        match (self, other) {
            (Unit::Length(_), Unit::Length(_)) => true,
            (Unit::Mass(_), Unit::Mass(_)) => true,
            (Unit::Currency(_), Unit::Currency(_)) => true,
            _ => false,
        }
    }

    /// Display text: `"kilometer (km)"`, `"USD"`.
    pub fn to_string(&self) -> (r: String)
        ensures
            r@ == self.spec_text(),
    {
        match self {
            Unit::Length(u) => {
                let mut s = String::from_str(u.long_name());
                s.append(" (");
                s.append(u.short_name());
                s.append(")");
                s
            },
            Unit::Mass(u) => {
                let mut s = String::from_str(u.long_name());
                s.append(" (");
                s.append(u.short_name());
                s.append(")");
                s
            },
            Unit::Currency(u) => String::from_str(u.code()),
        }
    }

    /// The unit that `s[start..end]` names by long or short name; lengths
    /// are tried first, then masses, then currencies.
    pub fn parse_chars(s: &Vec<char>, start: usize, end: usize) -> (r: Option<Unit>)
        requires
            start <= end <= s@.len(),
        ensures
            match r {
                Some(u) => names_unit(s@.subrange(start as int, end as int), u),
                None => !is_unit_name(s@.subrange(start as int, end as int)),
            },
    {
        let ghost t = s@.subrange(start as int, end as int);
        let lengths = LengthUnit::all();
        let mut i: usize = 0;
        while i < lengths.len()
            invariant
                lengths@ == LengthUnit::spec_all(),
                i <= lengths@.len(),
                start <= end <= s@.len(),
                t == s@.subrange(start as int, end as int),
                forall|j: int| 0 <= j < i ==> !names_length(t, #[trigger] lengths@[j]),
            decreases lengths.len() - i,
        {
            let u = lengths[i];
            if slice_is(s, start, end, u.long_name()) || slice_is(s, start, end, u.short_name()) {
                return Some(Unit::Length(u));
            }
            i = i + 1;
        }
        let masses = MassUnit::all();
        let mut i: usize = 0;
        while i < masses.len()
            invariant
                masses@ == MassUnit::spec_all(),
                i <= masses@.len(),
                start <= end <= s@.len(),
                t == s@.subrange(start as int, end as int),
                forall|j: int| 0 <= j < i ==> !names_mass(t, #[trigger] masses@[j]),
            decreases masses.len() - i,
        {
            let u = masses[i];
            if slice_is(s, start, end, u.long_name()) || slice_is(s, start, end, u.short_name()) {
                return Some(Unit::Mass(u));
            }
            i = i + 1;
        }
        let currencies = CurrencyUnit::all();
        let mut i: usize = 0;
        while i < currencies.len()
            invariant
                currencies@ == CurrencyUnit::spec_all(),
                i <= currencies@.len(),
                start <= end <= s@.len(),
                t == s@.subrange(start as int, end as int),
                forall|j: int| 0 <= j < i ==> !names_currency(t, #[trigger] currencies@[j]),
            decreases currencies.len() - i,
        {
            let u = currencies[i];
            if slice_is(s, start, end, u.code()) {
                return Some(Unit::Currency(u));
            }
            i = i + 1;
        }
        proof {
            assert forall|u: Unit| !names_unit(t, u) by {
                match u {
                    Unit::Length(l) => {
                        assert(LengthUnit::spec_all().contains(l)) by {
                            match l {
                                LengthUnit::Meter => assert(LengthUnit::spec_all()[0] == l),
                                LengthUnit::Centimeter => assert(LengthUnit::spec_all()[1] == l),
                                LengthUnit::Kilometer => assert(LengthUnit::spec_all()[2] == l),
                                LengthUnit::Yard => assert(LengthUnit::spec_all()[3] == l),
                                LengthUnit::Foot => assert(LengthUnit::spec_all()[4] == l),
                                LengthUnit::Inch => assert(LengthUnit::spec_all()[5] == l),
                            }
                        }
                    },
                    Unit::Mass(m) => {
                        assert(MassUnit::spec_all().contains(m)) by {
                            match m {
                                MassUnit::Kilogram => assert(MassUnit::spec_all()[0] == m),
                                MassUnit::Gram => assert(MassUnit::spec_all()[1] == m),
                                MassUnit::Ton => assert(MassUnit::spec_all()[2] == m),
                                MassUnit::Pound => assert(MassUnit::spec_all()[3] == m),
                                MassUnit::Ounce => assert(MassUnit::spec_all()[4] == m),
                            }
                        }
                    },
                    Unit::Currency(c) => {
                        assert(CurrencyUnit::spec_all()[c.spec_index() as int] == c);
                    },
                }
            }
        }
        None
    }

    /// The unit that `text` names, or `"Invalid unit: <text>"`.
    pub fn parse(text: &str) -> (r: Result<Unit, String>)
        ensures
            unit_parse_result(text@, r),
    {
        let cs = chars_of(text);
        assert(cs@.subrange(0, cs@.len() as int) =~= text@);
        match Unit::parse_chars(&cs, 0, cs.len()) {
            Some(u) => Ok(u),
            None => {
                let mut msg = String::from_str("Invalid unit: ");
                msg.append(text);
                Err(msg)
            },
        }
    }
}

impl Default for LengthUnit {
    fn default() -> (r: LengthUnit)
        ensures
            r == LengthUnit::Meter,
    {
        LengthUnit::Meter
    }
}

impl Default for MassUnit {
    fn default() -> (r: MassUnit)
        ensures
            r == MassUnit::Kilogram,
    {
        MassUnit::Kilogram
    }
}

impl Default for CurrencyUnit {
    fn default() -> (r: CurrencyUnit)
        ensures
            r == CurrencyUnit::USD,
    {
        CurrencyUnit::USD
    }
}

impl std::str::FromStr for Unit {
    type Err = String;

    fn from_str(s: &str) -> (r: Result<Unit, String>)
        ensures
            unit_parse_result(s@, r),
    {
        Unit::parse(s)
    }
}

impl PartialEq for Unit {
    fn eq(&self, other: &Unit) -> (r: bool) {
        self.is_same_family(other)
    }
}

impl vstd::std_specs::cmp::PartialEqSpecImpl for Unit {
    open spec fn obeys_eq_spec() -> bool {
        true
    }

    open spec fn eq_spec(&self, other: &Unit) -> bool {
        self.same_family(*other)
    }
}

} // verus!
