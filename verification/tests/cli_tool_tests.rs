use session::cli_tool::{check_config, BAD_INPUT_MODE, MISSING_INPUT_FIELD, MISSING_NAME_OR_EXECUTABLE};

#[test]
fn cli_tool_config_is_checked_in_order() {
    assert_eq!(check_config("fmt", "/usr/bin/fmt", "text", "field"), Ok(()));
    assert_eq!(check_config("fmt", "/usr/bin/fmt", "text", "json"), Ok(()));
    assert_eq!(check_config("  ", "/usr/bin/fmt", "", "x"), Err(MISSING_NAME_OR_EXECUTABLE));
    assert_eq!(check_config("fmt", " \t", "text", "field"), Err(MISSING_NAME_OR_EXECUTABLE));
    assert_eq!(check_config("fmt", "fmt", "  ", "x"), Err(MISSING_INPUT_FIELD));
    assert_eq!(check_config("fmt", "fmt", "text", "stdin"), Err(BAD_INPUT_MODE));
    assert_eq!(check_config("fmt", "fmt", "text", " field"), Err(BAD_INPUT_MODE));
}
