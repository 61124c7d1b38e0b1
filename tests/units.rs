use unit_converter::quantity::Quantity;
use unit_converter::units::{CurrencyUnit, LengthUnit, MassUnit, Unit};
use unit_converter::value::{ConversionErrorKind, Value};
use unit_converter::currency::RateTable;

fn q(text: &str) -> Quantity {
    Quantity::parse(text).unwrap()
}

#[test]
fn test_value_eq() {
    let v1 = Value::new(q("1.0"), Unit::Length(LengthUnit::Meter));
    let v2 = Value::new(q("1.0"), Unit::Length(LengthUnit::Meter));
    let v3 = Value::new(q("1.0"), Unit::Length(LengthUnit::Kilometer));
    let v4 = Value::new(q("2.0"), Unit::Length(LengthUnit::Meter));

    assert_eq!(v1, v2);
    assert_eq!(v1, v3);
    assert_ne!(v1, v4);
}

#[test]
fn units_test_value_eq() {
    let v1 = Value::new(Quantity::from_integer(1), Unit::Length(LengthUnit::Meter));
    let v2 = Value::new(Quantity::from_integer(1), Unit::Length(LengthUnit::Meter));
    let v3 = Value::new(Quantity::from_integer(1), Unit::Length(LengthUnit::Kilometer));
    let v4 = Value::new(Quantity::from_integer(2), Unit::Length(LengthUnit::Meter));

    assert_eq!(v1, v2);
    assert_eq!(v1, v3);
    assert_ne!(v1, v4);
}

#[test]
fn test_unit_eq() {
    let u1 = Unit::Length(LengthUnit::Meter);
    let u2 = Unit::Length(LengthUnit::Meter);
    assert_eq!(u1, u2);

    let u3 = Unit::Length(LengthUnit::Kilometer);
    assert_eq!(u1, u3);

    let u4 = Unit::Mass(MassUnit::Kilogram);
    assert_ne!(u1, u4);
}

#[test]
fn units_test_unit_eq() {
    let u1 = Unit::Length(LengthUnit::Meter);
    let u2 = Unit::Length(LengthUnit::Meter);
    assert_eq!(u1, u2);

    let u3 = Unit::Length(LengthUnit::Kilometer);
    assert_eq!(u1, u3);

    let u4 = Unit::Mass(MassUnit::Kilogram);
    assert_ne!(u1, u4);
}

#[test]
fn test_length_conversion() {
    let v = Value::new(q("1.0"), Unit::Length(LengthUnit::Meter));
    let v2 = v.convert_to(&Unit::Length(LengthUnit::Kilometer), &RateTable::empty()).unwrap();
    assert_eq!(v2, Value::new(q("0.001"), Unit::Length(LengthUnit::Kilometer)));
}

#[test]
fn units_test_length_conversion() {
    let v = Value::new(Quantity::from_integer(1), Unit::Length(LengthUnit::Meter));
    let v2 = v.convert_to(&Unit::Length(LengthUnit::Kilometer), &RateTable::empty()).unwrap();
    assert_eq!(v2, Value::new(Quantity::ratio(1, 1000).unwrap(), Unit::Length(LengthUnit::Kilometer)));
}

#[test]
fn test_length_conversion_edge_case() {
    let v = Value::new(q("0.0"), Unit::Length(LengthUnit::Meter));
    let v2 = v.convert_to(&Unit::Length(LengthUnit::Kilometer), &RateTable::empty()).unwrap();
    assert_eq!(v2, Value::new(q("0.0"), Unit::Length(LengthUnit::Kilometer)));
}

#[test]
fn test_mass_conversion() {
    let v = Value::new(q("1.0"), Unit::Mass(MassUnit::Kilogram));
    let v2 = v.convert_to(&Unit::Mass(MassUnit::Gram), &RateTable::empty()).unwrap();
    assert_eq!(v2, Value::new(q("1000.0"), Unit::Mass(MassUnit::Gram)));
}

#[test]
fn units_test_mass_conversion() {
    let v = Value::new(Quantity::from_integer(1), Unit::Mass(MassUnit::Kilogram));
    let v2 = v.convert_to(&Unit::Mass(MassUnit::Gram), &RateTable::empty()).unwrap();
    assert_eq!(v2, Value::new(Quantity::from_integer(1000), Unit::Mass(MassUnit::Gram)));
}

#[test]
fn yard_to_meter_is_exact() {
    let v = Value::new(Quantity::from_integer(1), Unit::Length(LengthUnit::Yard));
    let m = v.convert_to(&Unit::Length(LengthUnit::Meter), &RateTable::empty()).unwrap();
    let amount = m.magnitude().unwrap();
    assert_eq!((amount.numer(), amount.denom()), (1143, 1250));
    assert_eq!(m.to_string(), "0.9144 meter (m)");
}

#[test]
fn pound_to_ounce() {
    let v = Value::new(Quantity::from_integer(1), Unit::Mass(MassUnit::Pound));
    let oz = v.convert_to(&Unit::Mass(MassUnit::Ounce), &RateTable::empty()).unwrap();
    assert_eq!(oz.magnitude().unwrap(), Quantity::from_integer(16));
}

#[test]
fn round_trip_returns_the_same_value() {
    let units = Unit::get_all_units();
    let start = q("123.456");
    for a in units.iter() {
        for b in units.iter() {
            if a.same_unit(b) || !a.is_same_family(b) {
                continue;
            }
            if let Unit::Currency(_) = a {
                continue;
            }
            let v = Value::new(start, *a);
            let there = v.convert_to(b, &RateTable::empty()).unwrap();
            let back = there.convert_to(a, &RateTable::empty()).unwrap();
            assert_eq!(back.magnitude(), Some(start));
            assert!(back.unit().same_unit(a));
        }
    }
}

#[test]
fn identity_conversion_is_exact() {
    let v = Value::new(q("0.0254"), Unit::Length(LengthUnit::Inch));
    let same = v.convert_to(&Unit::Length(LengthUnit::Inch), &RateTable::empty()).unwrap();
    assert_eq!(same.magnitude(), Some(q("0.0254")));
    let w = Value::new(q("7.5"), Unit::Mass(MassUnit::Ounce));
    let same = w.convert_to(&Unit::Mass(MassUnit::Ounce), &RateTable::empty()).unwrap();
    assert_eq!(same.magnitude(), Some(q("7.5")));
}

#[test]
fn different_families_never_convert() {
    for text in ["0", "1", "2.5", "1000000"] {
        let v = Value::new(q(text), Unit::Length(LengthUnit::Meter));
        let e = v.convert_to(&Unit::Mass(MassUnit::Kilogram), &RateTable::empty()).unwrap_err();
        assert_eq!(e.kind, ConversionErrorKind::IncompatibleUnits);
        assert_eq!(e.to_string(), "Conversion error: Cannot convert from meter (m) to kilogram (kg)");
    }
    let v = Value::new(q("3"), Unit::Currency(CurrencyUnit::USD));
    let e = v.convert_to(&Unit::Length(LengthUnit::Foot), &RateTable::empty()).unwrap_err();
    assert_eq!(e.kind, ConversionErrorKind::IncompatibleUnits);
    assert_eq!(e.message, "Cannot convert from USD to foot (ft)");
}

#[test]
fn too_large_a_result_saturates() {
    let v = Value::new(Quantity::from_integer(u64::MAX), Unit::Length(LengthUnit::Kilometer));
    let cm = v.convert_to(&Unit::Length(LengthUnit::Centimeter), &RateTable::empty()).unwrap();
    assert_eq!(cm.magnitude(), Some(Quantity::from_integer(u64::MAX)));
    assert_eq!(cm.to_string(), "18446744073709551615 centimeter (cm)");
}

#[test]
fn inexact_results_are_close() {
    let v = Value::new(q("0.123456789012345678"), Unit::Length(LengthUnit::Meter));
    let inches = v.convert_to(&Unit::Length(LengthUnit::Inch), &RateTable::empty()).unwrap();
    assert!(inches.to_string().starts_with("4.86050350442305"), "{}", inches.to_string());
    let back = inches.convert_to(&Unit::Length(LengthUnit::Meter), &RateTable::empty()).unwrap();
    assert!(back.to_string().starts_with("0.12345678901234"), "{}", back.to_string());
}

#[test]
fn currency_without_rates_is_unavailable() {
    let v = Value::new(Quantity::from_integer(1), Unit::Currency(CurrencyUnit::USD));
    let e = v.convert_to(&Unit::Currency(CurrencyUnit::EUR), &RateTable::empty()).unwrap_err();
    assert_eq!(e.kind, ConversionErrorKind::RateUnavailable);
    assert_eq!(e.to_string(), "Conversion error: API error: Rate not found");
}

#[test]
fn get_all_units_lists_every_member_in_order() {
    let units = Unit::get_all_units();
    assert_eq!(units.len(), 17);
    let texts: Vec<String> = units.iter().map(|u| u.to_string()).collect();
    assert_eq!(texts[0], "meter (m)");
    assert_eq!(texts[5], "inch (in)");
    assert_eq!(texts[6], "kilogram (kg)");
    assert_eq!(texts[10], "ounce (oz)");
    assert_eq!(texts[11], "USD");
    assert_eq!(texts[16], "AUD");
}

#[test]
fn unit_names_parse_by_long_and_short_name() {
    assert!(Unit::parse("km").unwrap().same_unit(&Unit::Length(LengthUnit::Kilometer)));
    assert!(Unit::parse("kilometer").unwrap().same_unit(&Unit::Length(LengthUnit::Kilometer)));
    assert!(Unit::parse("oz").unwrap().same_unit(&Unit::Mass(MassUnit::Ounce)));
    assert!(Unit::parse("JPY").unwrap().same_unit(&Unit::Currency(CurrencyUnit::JPY)));
    assert_eq!(Unit::parse("Meter").unwrap_err(), "Invalid unit: Meter");
    assert_eq!(Unit::parse("").unwrap_err(), "Invalid unit: ");
    assert_eq!(CurrencyUnit::from_code("GBP"), Some(CurrencyUnit::GBP));
    assert_eq!(CurrencyUnit::from_code("XBT"), None);
}

#[test]
fn decimal_text_rounds_and_trims() {
    assert_eq!(q("0.1").to_decimal_string(), "0.1");
    assert_eq!(q("1000").to_decimal_string(), "1000");
    assert_eq!(q("0").to_decimal_string(), "0");
    assert_eq!(Quantity::ratio(1, 3).unwrap().to_decimal_string(), "0.333333333333333");
    assert_eq!(Quantity::ratio(2, 3).unwrap().to_decimal_string(), "0.666666666666667");
    assert_eq!(Quantity::parse("1."), None);
    assert_eq!(Quantity::parse(".5"), None);
    assert_eq!(Quantity::parse("1e3"), None);
    assert_eq!(Quantity::parse("18446744073709551616"), None);
    assert_eq!(Quantity::parse("2.50").unwrap(), Quantity::ratio(5, 2).unwrap());
}

#[test]
fn every_name_parses_to_its_own_unit() {
    for u in Unit::get_all_units() {
        let (long, short) = match u {
            Unit::Length(l) => (l.long_name(), l.short_name()),
            Unit::Mass(m) => (m.long_name(), m.short_name()),
            Unit::Currency(c) => (c.code(), c.code()),
        };
        assert!(long.parse::<Unit>().unwrap().same_unit(&u));
        assert!(short.parse::<Unit>().unwrap().same_unit(&u));
    }
    for bad in ["Meter", "KM", "xx", ""] {
        assert_eq!(bad.parse::<Unit>().unwrap_err(), format!("Invalid unit: {}", bad));
    }
}
