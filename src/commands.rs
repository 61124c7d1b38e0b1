//! Commands typed by the user: parsing a line and rendering the answer.

use vstd::prelude::*;
use crate::currency::RateTable;
use crate::quantity::{Quantity, decimal_text, decimal_value};
use crate::text::{chars_of, find_char, find_char_exec, find_word, find_word_exec, slice_is};
use crate::units::{CurrencyUnit, Unit, is_unit_name, names_unit};
use crate::value::{ConversionErrorKind, Value, convert_amount, error_message};

verus! {

/// The answer to a line that is neither a keyword nor a conversion.
pub const GRAMMAR_MESSAGE: &'static str = "Invalid input. Expression should be in the form <value> <unit> -> <unit>.";

/// The answer to `help`.
pub const HELP_TEXT: &'static str = "HEEEEELP!";

/// The heading of the unit listing.
pub const UNITS_HEADING: &'static str = "Available units:\n";

/// A command typed by the user.
#[derive(Debug, PartialEq)]
pub enum Command {
    /// Convert a value to another unit.
    Convert(Value, Unit),
    /// List all available units.
    Units,
    /// Show help.
    Help,
    /// Exit the program.
    Exit,
}

/// The number, source unit text and target unit text of a conversion
/// expression `<number> <unit> -> <unit>`: the number runs to the first
/// space and is a decimal numeral that fits; the source unit runs to the
/// first `" -> "` after it; both unit texts are non-empty.
pub open spec fn conversion_parts(s: Seq<char>) -> Option<(Seq<char>, Seq<char>, Seq<char>)> {
    match find_char(s, ' ', 0) {
        None => None,
        Some(k) => match find_word(s, " -> "@, k + 1) {
            None => None,
            Some(j) => if decimal_value(s.subrange(0, k)) is Some && j > k + 1 && j + 4 < s.len() {
                Some((s.subrange(0, k), s.subrange(k + 1, j), s.subrange(j + 4, s.len() as int)))
            } else {
                None
            },
        },
    }
}

/// Whether `s` is one of the keywords `units`, `help`, `exit`.
pub open spec fn is_keyword(s: Seq<char>) -> bool {
    s == "units"@ || s == "help"@ || s == "exit"@
}

/// The text of every unit, one per line.
pub open spec fn units_listing(units: Seq<Unit>) -> Seq<char>
    decreases units.len(),
{
    if units.len() == 0 {
        Seq::empty()
    } else {
        units_listing(units.drop_last()) + units.last().spec_text() + "\n"@
    }
}

/// The answer to converting amount `q` from `from` to `to`.
pub open spec fn conversion_output(q: (nat, nat), from: Unit, to: Unit, rates: RateTable) -> Seq<char> {
    match convert_amount(q, from, to, rates) {
        Ok(p) => decimal_text(p) + " "@ + to.spec_text(),
        Err(k) => "Conversion error: "@ + error_message(k, from, to),
    }
}

/// What parsing line `text` gives: the three keywords; else the grammar
/// message where it is no conversion expression; else `"Invalid unit: <u>"`
/// for the first unit text that names no unit; else the conversion of the
/// numeral's value from the unit the first text names to the one the second
/// names.
pub open spec fn command_parse_result(text: Seq<char>, r: Result<Command, String>) -> bool {
    &&& text == "units"@ ==> (r matches Ok(Command::Units))
    &&& text == "help"@ ==> (r matches Ok(Command::Help))
    &&& text == "exit"@ ==> (r matches Ok(Command::Exit))
    &&& !is_keyword(text) ==> match conversion_parts(text) {
        None => r is Err && r->Err_0@ == GRAMMAR_MESSAGE@,
        Some(p) => if !is_unit_name(p.1) {
            r is Err && r->Err_0@ == "Invalid unit: "@ + p.1
        } else if !is_unit_name(p.2) {
            r is Err && r->Err_0@ == "Invalid unit: "@ + p.2
        } else {
            (r matches Ok(Command::Convert(v, u)) && (v.wf() && v@.0 is Some && Some(v@.0->Some_0@)
                == decimal_value(p.0) && names_unit(p.1, v@.1) && names_unit(p.2, u)))
        },
    }
    &&& (r matches Ok(c) ==> c.wf())
}

impl Command {
    pub open spec fn wf(self) -> bool {
        match self {
            Command::Convert(v, _) => v.wf(),
            _ => true,
        }
    }

    /// Parses a line: a keyword, or a conversion expression whose units are
    /// named by long or short name.
    pub fn parse(text: &str) -> (r: Result<Command, String>)
        ensures
            command_parse_result(text@, r),
    {
        let cs = chars_of(text);
        let n = cs.len();
        assert(cs@.subrange(0, n as int) =~= text@);
        proof {
            reveal_strlit("units");
            reveal_strlit("help");
            reveal_strlit("exit");
        }
        if slice_is(&cs, 0, n, "units") {
            return Ok(Command::Units);
        }
        if slice_is(&cs, 0, n, "help") {
            return Ok(Command::Help);
        }
        if slice_is(&cs, 0, n, "exit") {
            return Ok(Command::Exit);
        }
        proof {
            reveal_strlit(" -> ");
        }
        let k = match find_char_exec(&cs, ' ', 0, n) {
            Some(k) => k,
            None => {
                return Err(String::from_str(GRAMMAR_MESSAGE));
            },
        };
        let j = match find_word_exec(&cs, " -> ", k + 1, n) {
            Some(j) => j,
            None => {
                return Err(String::from_str(GRAMMAR_MESSAGE));
            },
        };
        let q = match Quantity::parse_chars(&cs, 0, k) {
            Some(q) => q,
            None => {
                return Err(String::from_str(GRAMMAR_MESSAGE));
            },
        };
        if j <= k + 1 || j + 4 >= n {
            return Err(String::from_str(GRAMMAR_MESSAGE));
        }
        let from = match Unit::parse_chars(&cs, k + 1, j) {
            Some(u) => u,
            None => {
                let mut msg = String::from_str("Invalid unit: ");
                msg.append(text.substring_char(k + 1, j));
                return Err(msg);
            },
        };
        let to = match Unit::parse_chars(&cs, j + 4, n) {
            Some(u) => u,
            None => {
                let mut msg = String::from_str("Invalid unit: ");
                msg.append(text.substring_char(j + 4, n));
                return Err(msg);
            },
        };
        Ok(Command::Convert(Value::new(q, from), to))
    }

    /// The currencies whose rates the command needs: both units of a
    /// conversion between currencies, else none.
    pub fn needed_currencies(&self) -> (r: Vec<CurrencyUnit>)
        requires
            self.wf(),
        ensures
            match self {
                Command::Convert(v, Unit::Currency(b)) => match v@.1 {
                    Unit::Currency(a) => r@ == seq![a, *b],
                    _ => r@.len() == 0,
                },
                _ => r@.len() == 0,
            },
    {
        let mut r: Vec<CurrencyUnit> = Vec::new();
        match self {
            Command::Convert(v, Unit::Currency(b)) => match v.unit() {
                Unit::Currency(a) => {
                    r.push(a);
                    r.push(*b);
                    assert(r@ =~= seq![a, *b]);
                },
                _ => {},
            },
            _ => {},
        }
        r
    }

    /// Runs the command and returns its answer as text; currency
    /// conversions use `rates`.
    pub fn execute(&self, rates: &RateTable) -> (r: String)
        requires
            self.wf(),
            rates.wf(),
        ensures
            r@ == match self {
                Command::Convert(v, u) => match v@.0 {
                    Some(q) => conversion_output(q@, v@.1, *u, *rates),
                    None => "Conversion error: "@ + error_message(ConversionErrorKind::EmptyValue, v@.1, *u),
                },
                Command::Units => UNITS_HEADING@ + units_listing(Unit::spec_all_units()),
                Command::Help => HELP_TEXT@,
                Command::Exit => Seq::<char>::empty(),
            },
    {
        match self {
            Command::Convert(value, to_unit) => match value.convert_to(to_unit, rates) {
                Ok(v) => v.to_string(),
                Err(e) => e.to_string(),
            },
            Command::Units => {
                let mut out = String::from_str(UNITS_HEADING);
                let units = Unit::get_all_units();
                let mut i: usize = 0;
                while i < units.len()
                    invariant
                        i <= units@.len(),
                        units@ == Unit::spec_all_units(),
                        out@ == UNITS_HEADING@ + units_listing(units@.subrange(0, i as int)),
                    decreases units.len() - i,
                {
                    out.append(units[i].to_string().as_str());
                    out.append("\n");
                    assert(units@.subrange(0, i + 1).drop_last() =~= units@.subrange(0, i as int));
                    i = i + 1;
                    assert(out@ =~= UNITS_HEADING@ + units_listing(units@.subrange(0, i as int)));
                }
                assert(units@.subrange(0, i as int) =~= units@);
                out
            },
            Command::Help => String::from_str(HELP_TEXT),
            Command::Exit => String::new(),
        }
    }
}

impl std::str::FromStr for Command {
    type Err = String;

    fn from_str(s: &str) -> (r: Result<Command, String>)
        ensures
            command_parse_result(s@, r),
    {
        Command::parse(s)
    }
}

} // verus!
