//! Validation of a registered command-line tool's configuration.

use vstd::prelude::*;
use crate::text::{chars_of, str_eq, trim, trim_range};

verus! {

/// Refusal when the name or the executable is blank.
pub const MISSING_NAME_OR_EXECUTABLE: &'static str = "registered CLI tool requires name and executable";

/// Refusal when the input field is blank.
pub const MISSING_INPUT_FIELD: &'static str = "registered CLI tool requires input_field";

/// Refusal for an input mode other than `field` or `json`.
pub const BAD_INPUT_MODE: &'static str = "registered CLI tool input_mode must be field or json";

/// The refusal of a configuration, in the order the checks run; `None`
/// when it is accepted.
pub open spec fn config_refusal(name: Seq<char>, executable: Seq<char>, input_field: Seq<char>, input_mode: Seq<char>) -> Option<Seq<char>> {
    if trim(name).len() == 0 || trim(executable).len() == 0 {
        Some(MISSING_NAME_OR_EXECUTABLE@)
    } else if trim(input_field).len() == 0 {
        Some(MISSING_INPUT_FIELD@)
    } else if input_mode != "field"@ && input_mode != "json"@ {
        Some(BAD_INPUT_MODE@)
    } else {
        None
    }
}

fn blank(s: &str) -> (b: bool)
    ensures
        b == (trim(s@).len() == 0),
{
    let v = chars_of(s);
    assert(v@.subrange(0, v@.len() as int) =~= v@);
    let (a, b) = trim_range(&v, 0, v.len());
    a == b
}

/// Check a tool configuration: name and executable not blank, an input
/// field given, and an input mode of `field` or `json`.
pub fn check_config(name: &str, executable: &str, input_field: &str, input_mode: &str) -> (r: Result<(), &'static str>)
    ensures
        match r {
            Ok(()) => config_refusal(name@, executable@, input_field@, input_mode@) is None,
            Err(m) => config_refusal(name@, executable@, input_field@, input_mode@) == Some(m@),
        },
{
    if blank(name) || blank(executable) {
        return Err(MISSING_NAME_OR_EXECUTABLE);
    }
    if blank(input_field) {
        return Err(MISSING_INPUT_FIELD);
    }
    if !str_eq(input_mode, "field") && !str_eq(input_mode, "json") {
        return Err(BAD_INPUT_MODE);
    }
    Ok(())
}

} // verus!
