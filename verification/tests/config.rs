use termtosvg::cli::{integral_duration_validation, parse_process_args, records_from_stdin};
use termtosvg::config::{default_templates, validate_geometry};

#[test]
fn geometry_parses_columns_and_rows() {
    assert_eq!(validate_geometry("82x24"), Ok((82, 24)));
    assert_eq!(validate_geometry("82X24"), Ok((82, 24)));
    assert_eq!(validate_geometry("+5x7"), Ok((5, 7)));
}

#[test]
fn geometry_errors_quote_the_value() {
    let expected = "Invalid value for screen-geometry option: \"0x24\"".to_string();
    assert_eq!(validate_geometry("0x24"), Err(expected));
    assert!(validate_geometry("82x").is_err());
    assert!(validate_geometry("82x24x3").is_err());
    assert!(validate_geometry("70000x24").is_err());
}

#[test]
fn durations_are_whole_milliseconds() {
    assert_eq!(integral_duration_validation("5MS"), Ok(5));
    let expected = Err("duration must be an integer greater than 0".to_string());
    assert_eq!(integral_duration_validation("0"), expected);
    assert_eq!(integral_duration_validation("1.5"), expected);
    assert_eq!(integral_duration_validation("ms"), expected);
}

#[test]
fn process_args_follow_shell_quoting() {
    assert_eq!(parse_process_args("sh -c 'echo hi'"), vec!["sh", "-c", "echo hi"]);
    assert!(parse_process_args("").is_empty());
}

#[test]
fn default_templates_strip_extension() {
    let files = vec![
        ("xterm.svg".to_string(), b"<svg/>".to_vec()),
        ("other.svg".to_string(), b"<svg/>".to_vec()),
    ];
    let templates = default_templates(&files);
    assert_eq!(templates, vec![("xterm".to_string(), b"<svg/>".to_vec())]);
}

#[test]
fn empty_stdin_is_refused() {
    let err = records_from_stdin(None, (20, 5), "").err().unwrap();
    assert_eq!(err, "No data received on stdin to render");
    let records = records_from_stdin(None, (20, 5), "hello").unwrap();
    assert_eq!(records.len(), 2);
}
