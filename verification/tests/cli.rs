use termtosvg::cli;

#[test]
fn integral_duration_validation_accepts_ms_suffix() {
    assert_eq!(cli::integral_duration_validation("100").unwrap(), 100);
    assert_eq!(cli::integral_duration_validation("100ms").unwrap(), 100);
}
