use std::collections::BTreeMap;

use termtosvg::anim::{self, CharacterCell};
use termtosvg::render::{render_animation, still_frame_document, still_frame_name};
use termtosvg::svg::{SvgElement, SvgNode};
use termtosvg::template::{
    embed_css, ensure_css_animation, find_screen, render_preparation, resize_template,
};
use termtosvg::term::TimedFrame;
use termtosvg::xml::{check_written_svg, emit_svg_bytes, validate_svg};

const NAMESPACE: &str = "https://github.com/nbedos/termtosvg";

const TEMPLATE: &str = r#"<svg xmlns="http://www.w3.org/2000/svg" xmlns:xlink="http://www.w3.org/1999/xlink" viewBox="0 0 656 325" width="656" height="325"><defs><termtosvg:template_settings xmlns:termtosvg="https://example.com/termtosvg"><termtosvg:screen_geometry columns="82" rows="19"/><termtosvg:animation type="css"/></termtosvg:template_settings><style id="generated-style" type="text/css"></style></defs><svg id="screen" width="656" viewBox="0 0 656 323"></svg></svg>"#;

fn attr<'a>(e: &'a SvgElement, key: &str) -> Option<&'a str> {
    e.attributes.get(key).map(|s| s.as_str())
}

fn screen(root: &SvgElement) -> &SvgElement {
    let path = find_screen(root).expect("screen");
    let mut e = root;
    for i in path {
        e = match &e.children[i] {
            SvgNode::Element(c) => c,
            _ => panic!("not an element"),
        };
    }
    e
}

fn frame(text: &str) -> TimedFrame {
    let mut line = BTreeMap::new();
    for (i, c) in text.chars().enumerate() {
        line.insert(i, CharacterCell::new(&c.to_string()));
    }
    let mut buffer = BTreeMap::new();
    buffer.insert(0, line);
    TimedFrame { time: 0, duration: 1000, buffer }
}

#[test]
fn animation_in_template_validates() {
    let frames = vec![TimedFrame { time: 0, duration: 1000, buffer: BTreeMap::new() }];
    let doc = render_animation(&frames, (80, 24), TEMPLATE.as_bytes(), "").unwrap();
    let (times, duration) = doc.keyframe_times().expect("keyframes");
    let mut root = doc.root;
    assert_eq!(times, vec![(0, 0)]);
    assert_eq!(duration, 1000);
    let keyframes = vec![("0.000".to_string(), 0)];
    embed_css(&mut root, Some((&keyframes, duration))).unwrap();
    let bytes = emit_svg_bytes(root).unwrap();
    validate_svg(bytes.as_slice()).unwrap();
    let text = String::from_utf8(bytes).unwrap();
    assert!(text.contains("screen_view"));
    assert!(text.contains("100.000%{transform:translateY(0px)}"));
}

#[test]
fn render_animation_and_validate() {
    let frames = vec![TimedFrame { time: 0, duration: 1000, buffer: BTreeMap::new() }];
    let doc = render_animation(&frames, (80, 24), b"<svg></svg>", NAMESPACE).unwrap();
    let (_times, duration) = doc.keyframe_times().expect("keyframes");
    let mut root = doc.root;
    let keyframes = vec![("0.000".to_string(), 0)];
    embed_css(&mut root, Some((&keyframes, duration))).unwrap();
    let bytes = emit_svg_bytes(root).unwrap();
    validate_svg(bytes.as_slice()).unwrap();
}

#[test]
fn template_without_screen_gets_one() {
    let frames = vec![frame("a")];
    let doc = render_animation(&frames, (80, 24), b"<svg></svg>", "").unwrap();
    let s = screen(&doc.root);
    assert_eq!(attr(s, "width"), Some("640"));
    assert_eq!(attr(s, "height"), Some("408"));
    assert_eq!(attr(s, "viewBox"), Some("0 0 640 408"));
    let names: Vec<&str> = s
        .children
        .iter()
        .filter_map(|n| match n {
            SvgNode::Element(e) => Some(e.name.as_str()),
            _ => None,
        })
        .collect();
    assert_eq!(names, vec!["rect", "defs", "g"]);
}

#[test]
fn failed_css_embedding_leaves_document_unchanged() {
    let mut root = resize_template(br#"<svg><svg id="screen"/></svg>"#, (80, 24), "").unwrap();
    let before = root.deep_copy();
    let keyframes = vec![("0.000".to_string(), 0)];
    let err = embed_css(&mut root, Some((&keyframes, 0))).err().unwrap();
    assert_eq!(err, "Animation duration must be greater than 0");
    assert_eq!(root, before);
}

#[test]
fn invalid_template_is_refused() {
    let err = resize_template(b"not xml at all", (80, 24), "").err().unwrap();
    assert_eq!(err, "Invalid template");
}

#[test]
fn resize_scales_template_and_screen() {
    let root = resize_template(TEMPLATE.as_bytes(), (80, 24), "").unwrap();
    assert_eq!(attr(&root, "viewBox"), Some("0 0 640 410"));
    assert_eq!(attr(&root, "width"), Some("640"));
    assert_eq!(attr(&root, "height"), Some("410"));
    let s = screen(&root);
    assert_eq!(attr(s, "viewBox"), Some("0 0 640 408"));
    assert_eq!(attr(s, "width"), Some("640"));
}

#[test]
fn resize_to_same_geometry_keeps_sizes() {
    let root = resize_template(TEMPLATE.as_bytes(), (82, 19), "").unwrap();
    assert_eq!(attr(&root, "viewBox"), Some("0 0 656 325"));
    assert_eq!(attr(screen(&root), "viewBox"), Some("0 0 656 323"));
}

#[test]
fn preparation_leaves_background_rect_in_screen() {
    let root = render_preparation((80, 24), TEMPLATE.as_bytes(), "").unwrap();
    let s = screen(&root);
    assert_eq!(s.children.len(), 1);
    match &s.children[0] {
        SvgNode::Element(r) => {
            assert_eq!(r.name, "rect");
            assert_eq!(attr(r, "class"), Some("background"));
        }
        _ => panic!("expected the background rectangle"),
    }
}

#[test]
fn non_css_animation_is_refused() {
    let template = TEMPLATE.replace("type=\"css\"", "type=\"js\"");
    let root = render_preparation((80, 24), template.as_bytes(), "").unwrap();
    let err = ensure_css_animation(&root).err().unwrap();
    assert_eq!(
        err,
        "Template requests unsupported animation type 'js'. Only CSS-based templates are supported (GitHub-safe)."
    );
    let template = TEMPLATE.replace("type=\"css\"", "type=\"CSS\"");
    let root = render_preparation((80, 24), template.as_bytes(), "").unwrap();
    assert!(ensure_css_animation(&root).is_ok());
}

#[test]
fn namespace_is_applied_to_settings() {
    let root = resize_template(TEMPLATE.as_bytes(), (80, 24), "https://example.com/custom").unwrap();
    let bytes = emit_svg_bytes(root).unwrap();
    let text = String::from_utf8(bytes).unwrap();
    assert!(text.contains("https://example.com/custom"));
}

#[test]
fn still_frame_document_holds_frame_text() {
    let prep = render_preparation((80, 24), TEMPLATE.as_bytes(), "").unwrap();
    let doc = still_frame_document(&prep, &frame("hi")).unwrap();
    let bytes = emit_svg_bytes(doc).unwrap();
    let text = String::from_utf8(bytes).unwrap();
    assert!(text.contains("hi"));
    assert!(text.contains("<use"));
}

#[test]
fn zero_duration_animation_is_refused() {
    let prep = render_preparation((80, 24), TEMPLATE.as_bytes(), "").unwrap();
    let mut root = prep.deep_copy();
    let keyframes = vec![("0.000".to_string(), 0)];
    let err = embed_css(&mut root, Some((&keyframes, 0))).err().unwrap();
    assert_eq!(err, "Animation duration must be greater than 0");
    let mut bare = SvgElement::new("svg");
    let err = embed_css(&mut bare, None).err().unwrap();
    assert_eq!(err, "Missing <style id=\"generated-style\"> element");
}

#[test]
fn still_frame_names_are_padded() {
    assert_eq!(still_frame_name(7), "termtosvg_00007.svg");
    assert_eq!(still_frame_name(123456), "termtosvg_123456.svg");
}

#[test]
fn identical_lines_share_one_definition() {
    let mut buffer = BTreeMap::new();
    for row in 0..3 {
        let mut line = BTreeMap::new();
        line.insert(0, CharacterCell::new("x"));
        buffer.insert(row, line);
    }
    let (group, defs) = anim::render_timed_frame(0, &buffer, anim::CELL_HEIGHT, anim::CELL_WIDTH, &anim::empty_definitions());
    assert_eq!(defs.len(), 1);
    assert_eq!(group.children.len(), 3);
}

#[test]
fn animation_stacks_frames() {
    let frames = vec![frame("a"), TimedFrame { time: 1000, ..frame("b") }];
    let doc = render_animation(&frames, (80, 24), TEMPLATE.as_bytes(), "").unwrap();
    let (times, duration) = doc.keyframe_times().unwrap();
    assert_eq!(duration, 2000);
    assert_eq!(times, vec![(0, 0), (1000, -(anim::frame_vertical_stride(24)))]);
    assert_eq!(anim::frame_vertical_stride(24), 26 * 17);
}

#[test]
fn validate_svg_reports_errors() {
    let err = validate_svg(&[0xff, 0xfe]).err().unwrap();
    assert!(err.starts_with("SVG output is not valid UTF-8: "));
    let err = validate_svg(b"<svg>").err().unwrap();
    assert!(err.starts_with("Invalid SVG emitted: "));
    assert!(validate_svg(b"<svg></svg>").is_ok());
}

#[test]
fn template_size_errors_are_reported() {
    let no_viewbox = TEMPLATE.replace(r#" viewBox="0 0 656 325""#, "");
    let err = resize_template(no_viewbox.as_bytes(), (80, 24), "").err().unwrap();
    assert_eq!(err, "Missing \"viewBox\" attribute");
    let bad_viewbox = TEMPLATE.replace("0 0 656 325", "0 0 656");
    let err = resize_template(bad_viewbox.as_bytes(), (80, 24), "").err().unwrap();
    assert_eq!(err, "Invalid viewBox attribute");
    let bad_width = TEMPLATE.replace(r#"width="656" height="325""#, r#"width="wide" height="325""#);
    let err = resize_template(bad_width.as_bytes(), (80, 24), "").err().unwrap();
    assert_eq!(err, "Attribute width must be numeric");
    let bad_rows = TEMPLATE.replace(r#"rows="19""#, r#"rows="many""#);
    let err = resize_template(bad_rows.as_bytes(), (80, 24), "").err().unwrap();
    assert_eq!(err, "Invalid \"rows\" attribute in screen_geometry");
    let comma_viewbox = TEMPLATE.replace("0 0 656 325", "0,0,656,325");
    let root = resize_template(comma_viewbox.as_bytes(), (80, 24), "").unwrap();
    assert_eq!(attr(&root, "viewBox"), Some("0 0 640 410"));
}

#[test]
fn missing_settings_are_added() {
    let root = resize_template(br#"<svg><svg id="screen"/></svg>"#, (80, 24), "").unwrap();
    let defs = match root.children.last() {
        Some(SvgNode::Element(d)) => d,
        _ => panic!("expected a defs element"),
    };
    assert_eq!(defs.name, "defs");
    let names: Vec<&str> = defs
        .children
        .iter()
        .filter_map(|n| match n {
            SvgNode::Element(e) => Some(e.name.as_str()),
            _ => None,
        })
        .collect();
    assert_eq!(names, vec!["termtosvg:template_settings", "style"]);
    let err = emit_svg_bytes(root).err().unwrap();
    assert!(err.starts_with("Invalid SVG emitted: "));
}

#[test]
fn written_svg_is_checked() {
    let good = b"<svg></svg>".to_vec();
    assert_eq!(check_written_svg(Ok(good.clone())), Ok(good));
    let err = check_written_svg(Ok(b"<svg>".to_vec())).err().unwrap();
    assert!(err.starts_with("Invalid SVG emitted: "));
    let err = check_written_svg(Ok(vec![0xff])).err().unwrap();
    assert!(err.starts_with("SVG output is not valid UTF-8: "));
    assert_eq!(
        check_written_svg(Err("write failed".to_string())),
        Err("write failed".to_string())
    );
}
