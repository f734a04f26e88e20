use termtosvg::asciicast::{
    v1_header, AsciiCastError, AsciiCastV2Event, AsciiCastV2Header, AsciiCastV2Theme,
};

#[test]
fn theme_validation_rejects_invalid_colors() {
    assert!(
        AsciiCastV2Theme::new(
            "red",
            "#000000",
            "#000000:#111111:#222222:#333333:#444444:#555555:#666666:#777777"
        )
        .is_err()
    );
}

#[test]
fn theme_keeps_a_full_palette() {
    let palette = "#000000:#111111:#222222:#333333:#444444:#555555:#666666:#777777";
    let theme = AsciiCastV2Theme::new("#ffffff", "#000000", palette).unwrap();
    assert_eq!(theme.palette, palette);
}

#[test]
fn theme_keeps_first_sixteen_colors() {
    let colors: Vec<String> = (0..20).map(|i| format!("#{:06x}", i)).collect();
    let palette = colors.join(":");
    let theme = AsciiCastV2Theme::new("#ffffff", "#000000", &palette).unwrap();
    assert_eq!(theme.palette, colors[..16].join(":"));
}

#[test]
fn theme_errors_name_the_problem() {
    let palette8 = "#000000:#111111:#222222:#333333:#444444:#555555:#666666:#777777";
    let msg = |r: Result<AsciiCastV2Theme, AsciiCastError>| match r {
        Err(AsciiCastError::Message(m)) => m,
        Ok(_) => panic!("expected an error"),
    };
    assert_eq!(msg(AsciiCastV2Theme::new("red", "#000000", palette8)), "Invalid foreground color: red");
    assert_eq!(msg(AsciiCastV2Theme::new("#000000", "blue", palette8)), "Invalid background color: blue");
    assert_eq!(
        msg(AsciiCastV2Theme::new("#000000", "#000000", "#000000:#111111")),
        "Invalid palette: expecting at least 8 colors"
    );
    assert_eq!(
        msg(AsciiCastV2Theme::new("#000000", "#000000", &palette8.replace("#333333", "nope"))),
        "Invalid palette: the first 8 or 16 colors must be valid"
    );
}

#[test]
fn header_and_event_validate_their_fields() {
    match AsciiCastV2Header::new(1, 80, 24, None, None) {
        Err(AsciiCastError::Message(m)) => assert_eq!(m, "Only asciicast v2 format is supported"),
        Ok(_) => panic!("expected an error"),
    }
    match AsciiCastV2Event::new(0, "x", "data", None) {
        Err(AsciiCastError::Message(m)) => assert_eq!(m, "Invalid event_type: x"),
        Ok(_) => panic!("expected an error"),
    }
    assert!(AsciiCastV2Event::new(0, "i", "data", None).is_ok());
}

#[test]
fn v1_header_checks_fields_in_order() {
    let h = v1_header(true, Some(1), Some(80), Some(24)).unwrap();
    assert_eq!((h.version, h.width, h.height), (2, 80, 24));
    assert!(h.theme.is_none() && h.idle_time_limit.is_none());
    let h = v1_header(true, Some(1), Some(65_536 + 3), Some(24)).unwrap();
    assert_eq!(h.width, 3);
    let message = |r: Result<AsciiCastV2Header, AsciiCastError>| match r {
        Err(AsciiCastError::Message(m)) => m,
        Ok(_) => panic!("expected an error"),
    };
    assert_eq!(message(v1_header(false, Some(1), Some(80), Some(24))), "Missing attributes in asciicast v1 file");
    assert_eq!(message(v1_header(true, Some(2), Some(80), Some(24))), "This function can only decode asciicast v1 data");
    assert_eq!(message(v1_header(true, Some(1), None, None)), "Invalid width");
    assert_eq!(message(v1_header(true, Some(1), Some(80), None)), "Invalid height");
}
