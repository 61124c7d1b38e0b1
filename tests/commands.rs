use unit_converter::commands::{Command, GRAMMAR_MESSAGE};
use unit_converter::currency::RateTable;
use unit_converter::quantity::Quantity;
use unit_converter::units::{CurrencyUnit, LengthUnit, Unit};
use unit_converter::value::Value;

fn answer(line: &str) -> String {
    match line.parse::<Command>() {
        Ok(c) => c.execute(&RateTable::empty()),
        Err(e) => e,
    }
}

#[test]
fn test_command_from_str() {
    let command = "100 m -> km".parse::<Command>();
    assert!(command.is_ok());
    assert_eq!(
        command.unwrap(),
        Command::Convert(
            Value::new(Quantity::from_integer(100), Unit::Length(LengthUnit::Meter)),
            Unit::Length(LengthUnit::Kilometer)
        )
    );

    let command = "units".parse::<Command>();
    assert!(command.is_ok());
    assert_eq!(command.unwrap(), Command::Units);

    let command = "help".parse::<Command>();
    assert!(command.is_ok());
    assert_eq!(command.unwrap(), Command::Help);

    let command = "exit".parse::<Command>();
    assert!(command.is_ok());
    assert_eq!(command.unwrap(), Command::Exit);

    let command = "invalid".parse::<Command>();
    assert!(command.is_err());
}

#[test]
fn end_to_end_answers() {
    assert_eq!(answer("100 m -> km"), "0.1 kilometer (km)");
    assert_eq!(answer("0 m -> km"), "0 kilometer (km)");
    assert_eq!(answer("1 kg -> g"), "1000 gram (g)");
    assert_eq!(answer("bogus"), GRAMMAR_MESSAGE);
    assert_eq!(
        GRAMMAR_MESSAGE,
        "Invalid input. Expression should be in the form <value> <unit> -> <unit>."
    );
    assert_eq!("exit".parse::<Command>().unwrap(), Command::Exit);
    assert_eq!(answer("help"), "HEEEEELP!");
}

#[test]
fn units_lists_every_member() {
    let text = answer("units");
    let lines: Vec<&str> = text.lines().collect();
    assert_eq!(lines[0], "Available units:");
    assert_eq!(lines.len(), 18);
    assert_eq!(lines[1], "meter (m)");
    assert_eq!(lines[3], "kilometer (km)");
    assert_eq!(lines[10], "pound (lb)");
    assert_eq!(lines[17], "AUD");
    assert!(text.ends_with("AUD\n"));
}

#[test]
fn unknown_units_are_named() {
    assert_eq!(answer("1 parsec -> km"), "Invalid unit: parsec");
    assert_eq!(answer("1 m -> furlong"), "Invalid unit: furlong");
}

#[test]
fn malformed_expressions_get_the_grammar_message() {
    for line in ["", "m -> km", "1 m km", "1.5. m -> km", "-1 m -> km", "1  -> km", "1 m -> "] {
        assert_eq!(answer(line), GRAMMAR_MESSAGE, "line {:?}", line);
    }
}

#[test]
fn fractional_input_converts() {
    assert_eq!(answer("2.5 km -> m"), "2500 meter (m)");
    assert_eq!(answer("12 in -> ft"), "1 foot (ft)");
    assert_eq!(answer("1 m -> kg"), "Conversion error: Cannot convert from meter (m) to kilogram (kg)");
}

#[test]
fn currency_commands_name_their_currencies() {
    let c = "10 USD -> EUR".parse::<Command>().unwrap();
    assert_eq!(c.needed_currencies(), vec![CurrencyUnit::USD, CurrencyUnit::EUR]);
    assert_eq!(c.execute(&RateTable::empty()), "Conversion error: API error: Rate not found");
    let c = "10 m -> km".parse::<Command>().unwrap();
    assert!(c.needed_currencies().is_empty());
    assert_eq!(Command::Exit.execute(&RateTable::empty()), "");
}
