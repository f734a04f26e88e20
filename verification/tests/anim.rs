use std::collections::BTreeMap;

use termtosvg::anim;
use termtosvg::anim::CharacterCell;
use termtosvg::svg::SvgNode;

fn cell(text: &str, fg: &str, bg: &str) -> CharacterCell {
    CharacterCell::with_colors(text, fg, bg)
}

#[test]
fn render_line_bg_colors_groups_rectangles() {
    let mut line = BTreeMap::new();
    line.insert(0, cell("A", "red", "red"));
    line.insert(1, cell("B", "red", "red"));
    line.insert(3, cell("C", "red", "blue"));

    let rects = anim::render_line_bg_colors(&line, 0, anim::CELL_HEIGHT, anim::CELL_WIDTH);
    assert_eq!(rects.len(), 2);
    assert_eq!(rects[0].attributes.get("width").unwrap(), "16");
}

#[test]
fn render_characters_groups_text_with_same_style() {
    let mut line = BTreeMap::new();
    line.insert(0, cell("A", "red", "background"));
    line.insert(1, cell("B", "red", "background"));
    line.insert(5, cell("C", "blue", "background"));

    let group = anim::render_characters(&line, anim::CELL_WIDTH);
    let count = group
        .children
        .iter()
        .filter(|n| matches!(n, SvgNode::Element(e) if e.name == "text"))
        .count();
    assert_eq!(count, 2);
}

#[test]
fn wide_characters_widen_background() {
    let mut line = BTreeMap::new();
    line.insert(0, cell("\u{4e2d}", "red", "red"));
    let rects = anim::render_line_bg_colors(&line, 0, anim::CELL_HEIGHT, anim::CELL_WIDTH);
    assert_eq!(rects.len(), 1);
    assert_eq!(rects[0].attributes.get("width").unwrap(), "16");
}

#[test]
fn default_background_gets_no_rectangle() {
    let mut line = BTreeMap::new();
    line.insert(0, cell("A", "red", "background"));
    line.insert(1, cell("B", "blue", "background"));
    let rects = anim::render_line_bg_colors(&line, 0, anim::CELL_HEIGHT, anim::CELL_WIDTH);
    assert!(rects.is_empty());
}

#[test]
fn rectangle_attributes_are_exact() {
    let mut line = BTreeMap::new();
    line.insert(2, cell("A", "red", "#102030"));
    let rects = anim::render_line_bg_colors(&line, -17, anim::CELL_HEIGHT, anim::CELL_WIDTH);
    let r = &rects[0];
    assert_eq!(r.name, "rect");
    assert_eq!(r.attributes.get("x").unwrap(), "16");
    assert_eq!(r.attributes.get("y").unwrap(), "-17");
    assert_eq!(r.attributes.get("width").unwrap(), "8");
    assert_eq!(r.attributes.get("height").unwrap(), "17");
    assert_eq!(r.attributes.get("fill").unwrap(), "#102030");
}

#[test]
fn text_runs_keep_the_text_and_style() {
    let mut line = BTreeMap::new();
    let mut bold = CharacterCell::with_colors("B", "#ff0000", "background");
    bold.bold = true;
    bold.underscore = true;
    bold.strikethrough = true;
    line.insert(0, cell("A", "red", "background"));
    line.insert(1, bold);
    let group = anim::render_characters(&line, anim::CELL_WIDTH);
    let texts: Vec<&SvgNode> = group.children.iter().collect();
    assert_eq!(texts.len(), 2);
    match texts[1] {
        SvgNode::Element(e) => {
            assert_eq!(e.attributes.get("x").unwrap(), "8");
            assert_eq!(e.attributes.get("textLength").unwrap(), "8");
            assert_eq!(e.attributes.get("font-weight").unwrap(), "bold");
            assert_eq!(e.attributes.get("text-decoration").unwrap(), "underline line-through");
            assert_eq!(e.attributes.get("fill").unwrap(), "#ff0000");
            assert!(matches!(&e.children[0], SvgNode::Text(t) if t == "B"));
        }
        _ => panic!("expected a text element"),
    }
}
