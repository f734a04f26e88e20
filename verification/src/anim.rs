//! SVG rendering of terminal frames.

use std::collections::BTreeMap;

use indexmap::IndexMap;
use vstd::prelude::*;

use crate::assoc::{assoc_absent, assoc_extend, assoc_get, assoc_insert, lemma_assoc_insert_absent};
use crate::emulator::{buffer_view, line_view};
use crate::term::TimedFrame;
use crate::listing::{deref_listing, is_listing, lemma_listing_map, lemma_listing_of, listing_of, map_listing};
use crate::svg::{
    append_elements, append_nodes, as_nodes, attr_lookup, attrs_view, elem_view, elems_view,
    empty_elem, lemma_nodes_view_push, nodes_view, ElemView, NodeView, SvgAttributes, SvgElement,
    SvgNode,
};
use crate::text::{
    decimal, decimal_string, int_decimal, int_decimal_string, push_decimal, push_str,
    starts_with_char, str_eq, string_push,
};

verus! {

/// One character cell of the terminal screen with its display attributes.
#[derive(Debug, PartialEq, Eq)]
pub struct CharacterCell {
    pub text: String,
    pub color: String,
    pub background_color: String,
    pub bold: bool,
    pub italics: bool,
    pub underscore: bool,
    pub strikethrough: bool,
}

/// The mathematical value of a [`CharacterCell`].
pub struct CellView {
    pub text: Seq<char>,
    pub color: Seq<char>,
    pub background_color: Seq<char>,
    pub bold: bool,
    pub italics: bool,
    pub underscore: bool,
    pub strikethrough: bool,
}

impl View for CharacterCell {
    type V = CellView;

    open spec fn view(&self) -> CellView {
        CellView {
            text: self.text@,
            color: self.color@,
            background_color: self.background_color@,
            bold: self.bold,
            italics: self.italics,
            underscore: self.underscore,
            strikethrough: self.strikethrough,
        }
    }
}

impl Clone for CharacterCell {
    fn clone(&self) -> (r: Self)
        ensures
            r == *self,
    {
        CharacterCell {
            text: self.text.clone(),
            color: self.color.clone(),
            background_color: self.background_color.clone(),
            bold: self.bold,
            italics: self.italics,
            underscore: self.underscore,
            strikethrough: self.strikethrough,
        }
    }
}

impl CharacterCell {
    /// A cell holding `text` in the default colors, with no style.
    pub fn new(text: &str) -> (r: Self)
        ensures
            r@ == (CellView {
                text: text@,
                color: "foreground"@,
                background_color: "background"@,
                bold: false,
                italics: false,
                underscore: false,
                strikethrough: false,
            }),
    {
        CharacterCell {
            text: text.to_owned(),
            color: "foreground".to_owned(),
            background_color: "background".to_owned(),
            bold: false,
            italics: false,
            underscore: false,
            strikethrough: false,
        }
    }

    /// A cell holding `text` in the given colors, with no style.
    pub fn with_colors(text: &str, color: &str, background_color: &str) -> (r: Self)
        ensures
            r@ == (CellView {
                text: text@,
                color: color@,
                background_color: background_color@,
                bold: false,
                italics: false,
                underscore: false,
                strikethrough: false,
            }),
    {
        CharacterCell {
            color: color.to_owned(),
            background_color: background_color.to_owned(),
            ..CharacterCell::new(text)
        }
    }
}

} // verus!


verus! {

/// Width in SVG user units of one terminal cell.
pub const CELL_WIDTH: u16 = 8;

/// Height in SVG user units of one terminal cell.
pub const CELL_HEIGHT: u16 = 17;

/// Rows left blank between two frames stacked in the animation.
pub const FRAME_CELL_SPACING: i32 = 1;

/// What `UnicodeWidthStr::width` of the `unicode-width` crate gives for a
/// string.
pub uninterp spec fn str_width(s: Seq<char>) -> usize;

/// Calls `unicode_width::UnicodeWidthStr::width`. Its result is named by
/// [`str_width`]; the source of the crate also shows that the empty string is
/// zero columns wide and that a string made of one character up to U+00A0 is
/// one column wide.
#[verifier::external_body]
fn unicode_str_width(s: &str) -> (r: usize)
    ensures
        r == str_width(s@),
        s@.len() == 0 ==> r == 0,
        s@.len() == 1 && s@[0] <= '\u{a0}' ==> r == 1,
{
    unicode_width::UnicodeWidthStr::width(s)
}

/// The SVG coordinate of `n` cells of width `cw`, computed with both factors
/// as 32-bit unsigned integers and the product wrapping.
pub open spec fn cells_to_px(n: nat, cw: u16) -> nat {
    ((n % 0x1_0000_0000) * (cw as nat)) % 0x1_0000_0000
}

fn px(n: usize, cw: u16) -> (r: u32)
    ensures
        r == cells_to_px(n as nat, cw),
{
    let low: u32 = (n as u64 % 0x1_0000_0000u64) as u32;
    low.wrapping_mul(cw as u32)
}

/// The attribute that paints with `color`: `fill` for an explicit `#rrggbb`
/// color, `class` for a named palette entry.
pub open spec fn paint_attr(color: Seq<char>) -> Seq<char> {
    if color.len() > 0 && color[0] == '#' {
        "fill"@
    } else {
        "class"@
    }
}

fn paint_attr_name(color: &str) -> (r: String)
    ensures
        r@ == paint_attr(color@),
{
    if starts_with_char(color, '#') {
        "fill".to_owned()
    } else {
        "class".to_owned()
    }
}

/// The `<rect>` that paints the background of `length` cells from `column`.
pub open spec fn rect_view(column: usize, length: usize, height: i32, cw: u16, ch: u16, color: Seq<char>) -> ElemView {
    ElemView {
        attributes: seq![
            ("x"@, decimal(cells_to_px(column as nat, cw))),
            ("y"@, int_decimal(height as int)),
            ("width"@, decimal(cells_to_px(length as nat, cw))),
            ("height"@, decimal(ch as nat)),
            (paint_attr(color), color),
        ],
        ..empty_elem("rect"@)
    }
}

fn make_rect_tag(column: usize, length: usize, height: i32, cell_width: u16, cell_height: u16, background_color: &str) -> (r: SvgElement)
    ensures
        elem_view(r) == rect_view(column, length, height, cell_width, cell_height, background_color@),
{
    let entries: Vec<(String, String)> = vec![
        ("x".to_owned(), decimal_string(px(column, cell_width) as u128)),
        ("y".to_owned(), int_decimal_string(height as i64)),
        ("width".to_owned(), decimal_string(px(length, cell_width) as u128)),
        ("height".to_owned(), decimal_string(cell_height as u128)),
        (paint_attr_name(background_color), background_color.to_owned()),
    ];
    let r = SvgElement {
        prefix: None,
        namespace: None,
        namespaces: None,
        name: "rect".to_owned(),
        attributes: SvgAttributes { entries },
        children: Vec::new(),
    };
    assert(attrs_view(r.attributes.entries@) =~= rect_view(column, length, height, cell_width, cell_height, background_color@).attributes);
    assert(nodes_view(r.children@) =~= Seq::empty());
    r
}

/// The display style of a text run.
pub struct StyleView {
    pub color: Seq<char>,
    pub bold: bool,
    pub italics: bool,
    pub underscore: bool,
    pub strikethrough: bool,
}

/// The style of a cell.
pub open spec fn style_of(c: CellView) -> StyleView {
    StyleView {
        color: c.color,
        bold: c.bold,
        italics: c.italics,
        underscore: c.underscore,
        strikethrough: c.strikethrough,
    }
}

/// The value of the `text-decoration` attribute.
pub open spec fn decoration(underscore: bool, strikethrough: bool) -> Seq<char> {
    if underscore && strikethrough {
        "underline line-through"@
    } else if underscore {
        "underline"@
    } else {
        "line-through"@
    }
}

/// The attributes of the `<text>` element of a run.
pub open spec fn text_attrs(column: usize, style: StyleView, text: Seq<char>, cw: u16) -> Seq<(Seq<char>, Seq<char>)> {
    seq![
        ("x"@, decimal(cells_to_px(column as nat, cw))),
        ("textLength"@, decimal(cells_to_px(str_width(text) as nat, cw))),
    ] + (if style.bold { seq![("font-weight"@, "bold"@)] } else { Seq::empty() }) + (if style.italics {
        seq![("font-style"@, "italic"@)]
    } else {
        Seq::empty()
    }) + (if style.underscore || style.strikethrough {
        seq![("text-decoration"@, decoration(style.underscore, style.strikethrough))]
    } else {
        Seq::empty()
    }) + seq![(paint_attr(style.color), style.color)]
}

/// The `<text>` element that draws `text` from `column` in `style`.
pub open spec fn text_view(column: usize, style: StyleView, text: Seq<char>, cw: u16) -> ElemView {
    ElemView {
        attributes: text_attrs(column, style, text, cw),
        children: seq![NodeView::Text(text)],
        ..empty_elem("text"@)
    }
}

fn make_text_tag(column: usize, attr: &CharacterCell, text: &str, cell_width: u16) -> (r: SvgElement)
    ensures
        elem_view(r) == text_view(column, style_of(attr@), text@, cell_width),
{
    let mut entries: Vec<(String, String)> = Vec::new();
    entries.push(("x".to_owned(), decimal_string(px(column, cell_width) as u128)));
    let w = unicode_str_width(text);
    entries.push(("textLength".to_owned(), decimal_string(px(w, cell_width) as u128)));
    if attr.bold {
        entries.push(("font-weight".to_owned(), "bold".to_owned()));
    }
    if attr.italics {
        entries.push(("font-style".to_owned(), "italic".to_owned()));
    }
    if attr.underscore || attr.strikethrough {
        let d = if attr.underscore && attr.strikethrough {
            "underline line-through".to_owned()
        } else if attr.underscore {
            "underline".to_owned()
        } else {
            "line-through".to_owned()
        };
        entries.push(("text-decoration".to_owned(), d));
    }
    entries.push((paint_attr_name(attr.color.as_str()), attr.color.clone()));
    let mut children: Vec<SvgNode> = Vec::new();
    let node = SvgNode::Text(text.to_owned());
    let ghost n = node;
    children.push(node);
    let r = SvgElement {
        prefix: None,
        namespace: None,
        namespaces: None,
        name: "text".to_owned(),
        attributes: SvgAttributes { entries },
        children,
    };
    proof {
        lemma_nodes_view_push(Seq::empty(), n);
        assert(r.children@ =~= Seq::<SvgNode>::empty().push(n));
        assert(attrs_view(r.attributes.entries@) =~= text_attrs(column, style_of(attr@), text@, cell_width));
        assert(nodes_view(r.children@) =~= seq![NodeView::Text(text@)]);
    }
    r
}

/// The cells of a listing, followed through their references and viewed.
pub open spec fn listing_view(es: Seq<(usize, &CharacterCell)>) -> Seq<(usize, CellView)> {
    Seq::new(es.len(), |i: int| (es[i].0, es[i].1@))
}

/// The cells of a line by increasing column.
pub fn row_listing(row: &BTreeMap<usize, CharacterCell>) -> (es: Vec<(usize, &CharacterCell)>)
    ensures
        listing_view(es@) == listing_of(line_view(*row)),
        is_listing(listing_view(es@), line_view(*row)),
{
    let es = map_listing(row);
    proof {
        let f = |c: CharacterCell| c@;
        let d = deref_listing(es@);
        lemma_listing_map(d, row@, f);
        assert(Map::new(|k: usize| row@.contains_key(k), |k: usize| f(row@[k])) =~= line_view(*row));
        assert(Seq::new(d.len(), |i: int| (d[i].0, f(d[i].1))) =~= listing_view(es@));
        lemma_listing_of(listing_view(es@), line_view(*row));
    }
    es
}

/// A run of neighbouring cells sharing one background color.
pub struct BgRun {
    pub start: usize,
    pub last: usize,
    pub color: Seq<char>,
    pub width: usize,
}

/// The background runs of the cells `es` (listed by increasing column):
/// cells on the default background are left out, and a cell joins the run of
/// the cell before it when it is in the next column and has the same
/// background color. A run's width adds up the display widths of its texts
/// in wrapping `usize` arithmetic.
pub open spec fn bg_runs(es: Seq<(usize, CellView)>) -> Seq<BgRun>
    decreases es.len(),
{
    if es.len() == 0 {
        Seq::empty()
    } else {
        let runs = bg_runs(es.drop_last());
        let col = es.last().0;
        let cell = es.last().1;
        if cell.background_color == "background"@ {
            runs
        } else if runs.len() > 0 && col == runs.last().last + 1 && cell.background_color
            == runs.last().color {
            runs.update(
                runs.len() - 1,
                BgRun {
                    last: col,
                    width: vstd::wrapping::usize_specs::wrapping_add(
                        runs.last().width,
                        str_width(cell.text),
                    ),
                    ..runs.last()
                },
            )
        } else {
            runs.push(BgRun { start: col, last: col, color: cell.background_color, width: str_width(cell.text) })
        }
    }
}

/// The rectangles of the runs that are wider than zero.
pub open spec fn bg_rects(runs: Seq<BgRun>, height: i32, ch: u16, cw: u16) -> Seq<ElemView>
    decreases runs.len(),
{
    if runs.len() == 0 {
        Seq::empty()
    } else {
        let r = runs.last();
        bg_rects(runs.drop_last(), height, ch, cw) + (if r.width > 0 {
            seq![rect_view(r.start, r.width, height, cw, ch, r.color)]
        } else {
            Seq::empty()
        })
    }
}

/// The background rectangles of a line drawn at vertical position `height`.
pub fn render_line_bg_colors(row: &BTreeMap<usize, CharacterCell>, height: i32, cell_height: u16, cell_width: u16) -> (rects: Vec<SvgElement>)
    ensures
        elems_view(rects@) == bg_rects(bg_runs(listing_of(line_view(*row))), height, cell_height, cell_width),
{
    let es = row_listing(row);
    let ghost lv = listing_view(es@);
    let mut rects: Vec<SvgElement> = Vec::new();
    let mut have = false;
    let mut start: usize = 0;
    let mut color: &str = "";
    let mut width: usize = 0;
    let mut last: usize = 0;
    let mut i: usize = 0;
    assert(lv.take(0) =~= Seq::empty());
    while i < es.len()
        invariant
            lv == listing_view(es@),
            i <= es@.len(),
            have == (bg_runs(lv.take(i as int)).len() > 0),
            have ==> bg_runs(lv.take(i as int)).last() == (BgRun { start, last, color: color@, width }),
            have ==> elems_view(rects@) == bg_rects(bg_runs(lv.take(i as int)).drop_last(), height, cell_height, cell_width),
            !have ==> rects@.len() == 0,
        decreases es.len() - i,
    {
        let col = es[i].0;
        let cell = es[i].1;
        let ghost prev = bg_runs(lv.take(i as int));
        assert(lv.take(i + 1).drop_last() =~= lv.take(i as int));
        assert(lv.take(i + 1).last() == lv[i as int]);
        if str_eq(cell.background_color.as_str(), "background") {
        } else if have && col > last && col - 1 == last && str_eq(cell.background_color.as_str(), color) {
            let w = unicode_str_width(cell.text.as_str());
            width = width.wrapping_add(w);
            last = col;
            assert(bg_runs(lv.take(i + 1)).drop_last() =~= prev.drop_last());
        } else {
            if have && width > 0 {
                let rect = make_rect_tag(start, width, height, cell_width, cell_height, color);
                rects.push(rect);
            }
            proof {
                let nr = bg_runs(lv.take(i + 1));
                assert(nr.drop_last() =~= prev);
                if have {
                    assert(elems_view(rects@) =~= bg_rects(prev, height, cell_height, cell_width));
                } else {
                    assert(prev.len() == 0);
                    assert(elems_view(rects@) =~= bg_rects(prev, height, cell_height, cell_width));
                }
            }
            have = true;
            start = col;
            color = cell.background_color.as_str();
            width = unicode_str_width(cell.text.as_str());
            last = col;
        }
        i = i + 1;
    }
    assert(lv.take(i as int) =~= lv);
    if have && width > 0 {
        let rect = make_rect_tag(start, width, height, cell_width, cell_height, color);
        rects.push(rect);
    }
    assert(elems_view(rects@) =~= bg_rects(bg_runs(lv), height, cell_height, cell_width));
    rects
}

} // verus!

verus! {

/// The display attributes that decide whether neighbouring cells share a
/// text run.
#[derive(Clone, Copy, PartialEq, Eq)]
pub struct ConsecutiveKey<'a> {
    pub color: &'a str,
    pub bold: bool,
    pub italics: bool,
    pub underscore: bool,
    pub strikethrough: bool,
}

impl<'a> View for ConsecutiveKey<'a> {
    type V = StyleView;

    open spec fn view(&self) -> StyleView {
        StyleView {
            color: self.color@,
            bold: self.bold,
            italics: self.italics,
            underscore: self.underscore,
            strikethrough: self.strikethrough,
        }
    }
}

/// Whether two keys describe the same style.
fn same_style(a: &ConsecutiveKey, b: &ConsecutiveKey) -> (r: bool)
    ensures
        r == (a@ == b@),
{
    let r = str_eq(a.color, b.color) && a.bold == b.bold && a.italics == b.italics && a.underscore
        == b.underscore && a.strikethrough == b.strikethrough;
    proof {
        if !r && a@ == b@ {
            assert(a.color@ == b.color@);
        }
    }
    r
}

/// What identifies one text run of a line.
#[derive(Debug, PartialEq, Eq, Hash)]
pub struct TextRunKey {
    pub column: usize,
    pub text: String,
    pub color: String,
    pub use_fill_attribute: bool,
    pub bold: bool,
    pub italics: bool,
    pub underscore: bool,
    pub strikethrough: bool,
}

/// The value of a [`TextRunKey`].
pub struct RunKeyView {
    pub column: usize,
    pub text: Seq<char>,
    pub color: Seq<char>,
    pub use_fill_attribute: bool,
    pub bold: bool,
    pub italics: bool,
    pub underscore: bool,
    pub strikethrough: bool,
}

impl View for TextRunKey {
    type V = RunKeyView;

    open spec fn view(&self) -> RunKeyView {
        RunKeyView {
            column: self.column,
            text: self.text@,
            color: self.color@,
            use_fill_attribute: self.use_fill_attribute,
            bold: self.bold,
            italics: self.italics,
            underscore: self.underscore,
            strikethrough: self.strikethrough,
        }
    }
}

impl Clone for TextRunKey {
    fn clone(&self) -> (r: Self)
        ensures
            r == *self,
    {
        TextRunKey {
            column: self.column,
            text: self.text.clone(),
            color: self.color.clone(),
            use_fill_attribute: self.use_fill_attribute,
            bold: self.bold,
            italics: self.italics,
            underscore: self.underscore,
            strikethrough: self.strikethrough,
        }
    }
}

/// The key of the run of `text` from `column` in `style`.
pub open spec fn run_key_view(column: usize, style: StyleView, text: Seq<char>) -> RunKeyView {
    RunKeyView {
        column,
        text,
        color: style.color,
        use_fill_attribute: style.color.len() > 0 && style.color[0] == '#',
        bold: style.bold,
        italics: style.italics,
        underscore: style.underscore,
        strikethrough: style.strikethrough,
    }
}

impl TextRunKey {
    /// The key of the run of `text` from `column`, drawn in the style of
    /// `cell`.
    pub fn from_character(column: usize, text: &str, cell: &CharacterCell) -> (r: Self)
        ensures
            r@ == run_key_view(column, style_of(cell@), text@),
    {
        TextRunKey {
            column,
            text: text.to_owned(),
            color: cell.color.clone(),
            use_fill_attribute: starts_with_char(cell.color.as_str(), '#'),
            bold: cell.bold,
            italics: cell.italics,
            underscore: cell.underscore,
            strikethrough: cell.strikethrough,
        }
    }
}

/// What identifies the text of a line: the keys of its runs, in order.
#[derive(Debug, PartialEq, Eq, Hash)]
pub struct DefinitionKey(pub Vec<TextRunKey>);

/// The views of a list of run keys.
pub open spec fn keys_view(v: Seq<TextRunKey>) -> Seq<RunKeyView> {
    Seq::new(v.len(), |i: int| v[i]@)
}

impl View for DefinitionKey {
    type V = Seq<RunKeyView>;

    open spec fn view(&self) -> Seq<RunKeyView> {
        keys_view(self.0@)
    }
}

impl Clone for DefinitionKey {
    fn clone(&self) -> (r: Self)
        ensures
            r@ == self@,
    {
        let mut v: Vec<TextRunKey> = Vec::new();
        let mut i: usize = 0;
        while i < self.0.len()
            invariant
                i <= self.0@.len(),
                keys_view(v@) == keys_view(self.0@).take(i as int),
            decreases self.0.len() - i,
        {
            let c = self.0[i].clone();
            assert(c@ == self.0@[i as int]@);
            let ghost before = v@;
            v.push(c);
            assert(keys_view(v@) =~= keys_view(before).push(c@));
            assert(keys_view(self.0@).take(i + 1) =~= keys_view(self.0@).take(i as int).push(self.0@[i as int]@));
            i = i + 1;
        }
        assert(keys_view(self.0@).take(i as int) =~= keys_view(self.0@));
        DefinitionKey(v)
    }
}

fn run_key_eq(a: &TextRunKey, b: &TextRunKey) -> (r: bool)
    ensures
        r == (a@ == b@),
{
    let r = a.column == b.column && str_eq(a.text.as_str(), b.text.as_str()) && str_eq(
        a.color.as_str(),
        b.color.as_str(),
    ) && a.use_fill_attribute == b.use_fill_attribute && a.bold == b.bold && a.italics
        == b.italics && a.underscore == b.underscore && a.strikethrough == b.strikethrough;
    proof {
        if !r && a@ == b@ {
            assert(a.text@ == b.text@);
            assert(a.color@ == b.color@);
        }
    }
    r
}

impl DefinitionKey {
    /// Whether two keys are the same.
    pub fn same(&self, other: &DefinitionKey) -> (r: bool)
        ensures
            r == (self@ == other@),
    {
        if self.0.len() != other.0.len() {
            proof {
                if self@ == other@ {
                    assert(self@.len() == other@.len());
                }
            }
            return false;
        }
        let mut i: usize = 0;
        while i < self.0.len()
            invariant
                i <= self.0@.len(),
                self.0@.len() == other.0@.len(),
                forall|k: int| 0 <= k < i ==> self@[k] == other@[k],
            decreases self.0.len() - i,
        {
            if !run_key_eq(&self.0[i], &other.0[i]) {
                proof {
                    if self@ == other@ {
                        assert(self@[i as int] == other@[i as int]);
                    }
                }
                return false;
            }
            i = i + 1;
        }
        assert(self@ =~= other@);
        true
    }
}

/// A maximal group of neighbouring cells drawn in one style.
pub struct TextRun {
    pub column: usize,
    pub last: usize,
    pub style: StyleView,
    pub text: Seq<char>,
}

/// The text runs of the cells `es` (listed by increasing column): a cell
/// joins the run of the cell before it when it is in the next column and has
/// the same style; the run's text is the texts of its cells in order.
pub open spec fn text_runs(es: Seq<(usize, CellView)>) -> Seq<TextRun>
    decreases es.len(),
{
    if es.len() == 0 {
        Seq::empty()
    } else {
        let runs = text_runs(es.drop_last());
        let col = es.last().0;
        let cell = es.last().1;
        if runs.len() > 0 && col == runs.last().last + 1 && style_of(cell) == runs.last().style {
            runs.update(runs.len() - 1, TextRun { last: col, text: runs.last().text + cell.text, ..runs.last() })
        } else {
            runs.push(TextRun { column: col, last: col, style: style_of(cell), text: cell.text })
        }
    }
}

/// The `<text>` elements of the runs whose text is not empty.
pub open spec fn run_elems(runs: Seq<TextRun>, cw: u16) -> Seq<ElemView>
    decreases runs.len(),
{
    if runs.len() == 0 {
        Seq::empty()
    } else {
        let r = runs.last();
        run_elems(runs.drop_last(), cw) + (if r.text.len() > 0 {
            seq![text_view(r.column, r.style, r.text, cw)]
        } else {
            Seq::empty()
        })
    }
}

/// The keys of the runs whose text is not empty.
pub open spec fn run_keys(runs: Seq<TextRun>) -> Seq<RunKeyView>
    decreases runs.len(),
{
    if runs.len() == 0 {
        Seq::empty()
    } else {
        let r = runs.last();
        run_keys(runs.drop_last()) + (if r.text.len() > 0 {
            seq![run_key_view(r.column, r.style, r.text)]
        } else {
            Seq::empty()
        })
    }
}

/// A `<g>` element holding the given elements.
pub open spec fn group_of(es: Seq<ElemView>) -> ElemView {
    ElemView { children: as_nodes(es), ..empty_elem("g"@) }
}

/// The runs before the last one.
pub open spec fn closed_runs(runs: Seq<TextRun>) -> Seq<TextRun> {
    if runs.len() > 0 {
        runs.drop_last()
    } else {
        runs
    }
}

/// The cell that draws `text` in the style of `key`, on the default
/// background.
fn cell_from_key(key: ConsecutiveKey, text: &str) -> (r: CharacterCell)
    ensures
        r@ == (CellView {
            text: text@,
            color: key.color@,
            background_color: "background"@,
            bold: key.bold,
            italics: key.italics,
            underscore: key.underscore,
            strikethrough: key.strikethrough,
        }),
{
    CharacterCell {
        text: text.to_owned(),
        color: key.color.to_owned(),
        background_color: "background".to_owned(),
        bold: key.bold,
        italics: key.italics,
        underscore: key.underscore,
        strikethrough: key.strikethrough,
    }
}

/// Adds the `<text>` element and the key of a run to the group and the keys,
/// unless its text is empty.
fn append_text_run(
    text_group: &mut SvgElement,
    run_keys: &mut Vec<TextRunKey>,
    column: usize,
    run_key: ConsecutiveKey,
    text: &str,
    cell_width: u16,
)
    ensures
        elem_view(*final(text_group)) == (ElemView {
            children: elem_view(*old(text_group)).children + (if text@.len() > 0 {
                seq![NodeView::Element(text_view(column, run_key@, text@, cell_width))]
            } else {
                Seq::empty()
            }),
            ..elem_view(*old(text_group))
        }),
        keys_view(final(run_keys)@) == keys_view(old(run_keys)@) + (if text@.len() > 0 {
            seq![run_key_view(column, run_key@, text@)]
        } else {
            Seq::empty()
        }),
{
    if text.is_empty() {
        assert(elem_view(*text_group).children + Seq::empty() =~= elem_view(*text_group).children);
        assert(keys_view(run_keys@) + Seq::empty() =~= keys_view(run_keys@));
        return;
    }
    let grouped_cell = cell_from_key(run_key, text);
    run_keys.push(TextRunKey::from_character(column, text, &grouped_cell));
    let elem = make_text_tag(column, &grouped_cell, text, cell_width);
    text_group.push_child(SvgNode::Element(elem));
    assert(keys_view(final(run_keys)@) =~= keys_view(old(run_keys)@) + seq![run_key_view(column, run_key@, text@)]);
    assert(elem_view(*final(text_group)).children =~= elem_view(*old(text_group)).children + seq![NodeView::Element(text_view(column, run_key@, text@, cell_width))]);
}

/// The `<g>` element of the text of a line, and the key that identifies it.
fn render_characters_with_key(row: &BTreeMap<usize, CharacterCell>, cell_width: u16) -> (r: (SvgElement, DefinitionKey))
    ensures
        elem_view(r.0) == group_of(run_elems(text_runs(listing_of(line_view(*row))), cell_width)),
        r.1@ == run_keys(text_runs(listing_of(line_view(*row)))),
{
    let es = row_listing(row);
    let ghost lv = listing_view(es@);
    let mut text_group = SvgElement::new("g");
    let mut keys: Vec<TextRunKey> = Vec::new();
    assert(as_nodes(Seq::empty()) =~= Seq::empty());
    assert(keys_view(keys@) =~= Seq::empty());
    if es.len() == 0 {
        return (text_group, DefinitionKey(keys));
    }
    let mut have = false;
    let mut current_key = ConsecutiveKey {
        color: "",
        bold: false,
        italics: false,
        underscore: false,
        strikethrough: false,
    };
    let mut current_text = String::new();
    let mut current_col: usize = 0;
    let mut last_col: usize = 0;
    let mut i: usize = 0;
    assert(lv.take(0) =~= Seq::empty());
    while i < es.len()
        invariant
            lv == listing_view(es@),
            i <= es@.len(),
            have == (text_runs(lv.take(i as int)).len() > 0),
            have ==> text_runs(lv.take(i as int)).last() == (TextRun {
                column: current_col,
                last: last_col,
                style: current_key@,
                text: current_text@,
            }),
            elem_view(text_group) == group_of(run_elems(closed_runs(text_runs(lv.take(i as int))), cell_width)),
            keys_view(keys@) == run_keys(closed_runs(text_runs(lv.take(i as int)))),
        decreases es.len() - i,
    {
        let col = es[i].0;
        let cell = es[i].1;
        let key = ConsecutiveKey {
            color: cell.color.as_str(),
            bold: cell.bold,
            italics: cell.italics,
            underscore: cell.underscore,
            strikethrough: cell.strikethrough,
        };
        let ghost prev = text_runs(lv.take(i as int));
        assert(lv.take(i + 1).drop_last() =~= lv.take(i as int));
        assert(lv.take(i + 1).last() == lv[i as int]);
        assert(key@ == style_of(lv[i as int].1));
        if have && col > last_col && col - 1 == last_col && same_style(&current_key, &key) {
            push_str(&mut current_text, cell.text.as_str());
            last_col = col;
            assert(closed_runs(text_runs(lv.take(i + 1))) =~= closed_runs(prev));
        } else {
            if have {
                append_text_run(&mut text_group, &mut keys, current_col, current_key, current_text.as_str(), cell_width);
                proof {
                    let rs = run_elems(prev, cell_width);
                    assert(as_nodes(rs) =~= as_nodes(run_elems(prev.drop_last(), cell_width)) + (if current_text@.len() > 0 {
                        seq![NodeView::Element(text_view(current_col, current_key@, current_text@, cell_width))]
                    } else {
                        Seq::empty()
                    }));
                }
            }
            proof {
                let nr = text_runs(lv.take(i + 1));
                assert(nr.drop_last() =~= prev);
                if !have {
                    assert(prev.len() == 0);
                }
            }
            have = true;
            current_key = key;
            current_col = col;
            current_text = cell.text.clone();
            last_col = col;
        }
        i = i + 1;
    }
    assert(lv.take(i as int) =~= lv);
    let ghost all = text_runs(lv);
    append_text_run(&mut text_group, &mut keys, current_col, current_key, current_text.as_str(), cell_width);
    proof {
        let rs = run_elems(all, cell_width);
        assert(as_nodes(rs) =~= as_nodes(run_elems(all.drop_last(), cell_width)) + (if current_text@.len() > 0 {
            seq![NodeView::Element(text_view(current_col, current_key@, current_text@, cell_width))]
        } else {
            Seq::empty()
        }));
        assert(elem_view(text_group) =~= group_of(run_elems(all, cell_width)));
    }
    (text_group, DefinitionKey(keys))
}

/// The `<g>` element of the text of a line: one `<text>` element for each
/// maximal run of neighbouring cells in one style.
pub fn render_characters(row: &BTreeMap<usize, CharacterCell>, cell_width: u16) -> (r: SvgElement)
    ensures
        elem_view(r) == group_of(run_elems(text_runs(listing_of(line_view(*row))), cell_width)),
{
    render_characters_with_key(row, cell_width).0
}

} // verus!

verus! {

#[verifier::external_type_specification]
#[verifier::external_body]
#[verifier::reject_recursive_types(K)]
#[verifier::reject_recursive_types(V)]
#[verifier::reject_recursive_types(S)]
pub struct ExIndexMap<K, V, S>(IndexMap<K, V, S>);

/// The lines drawn so far, by the key of their text: the `<g>` element that
/// draws that text, in the order in which they were first drawn.
pub type DefinitionMap = IndexMap<DefinitionKey, SvgElement>;

/// The entries of a definition map in their order: each key's value and the
/// value of its element.
pub uninterp spec fn definition_entries(m: IndexMap<DefinitionKey, SvgElement>) -> Seq<(Seq<RunKeyView>, ElemView)>;

/// The value of a definition map.
pub open spec fn defs_view(d: DefinitionMap) -> Seq<(Seq<RunKeyView>, ElemView)> {
    definition_entries(d)
}

/// Calls `IndexMap::new`: a map with no entries.
#[verifier::external_body]
fn defs_new() -> (r: DefinitionMap)
    ensures
        definition_entries(r) == Seq::<(Seq<RunKeyView>, ElemView)>::empty(),
{
    IndexMap::new()
}

/// A definition map with no entries.
pub fn empty_definitions() -> (r: DefinitionMap)
    ensures
        definition_entries(r) == Seq::<(Seq<RunKeyView>, ElemView)>::empty(),
{
    defs_new()
}

/// Calls `IndexMap::len`: the number of entries.
#[verifier::external_body]
fn defs_len(d: &DefinitionMap) -> (r: usize)
    ensures
        r == definition_entries(*d).len(),
{
    d.len()
}

/// Calls `IndexMap::get`: the element of the entry whose key is `k`. The
/// map finds keys by their hash and `Eq`; the derived `Hash` and `Eq` of
/// `DefinitionKey` go field by field through its run keys, so they compare
/// keys by their values.
#[verifier::external_body]
fn defs_get<'a>(d: &'a DefinitionMap, k: &DefinitionKey) -> (r: Option<&'a SvgElement>)
    ensures
        match r {
            Some(e) => assoc_get(definition_entries(*d), k@) == Some(elem_view(*e)),
            None => assoc_get(definition_entries(*d), k@) is None,
        },
{
    d.get(k)
}

/// Calls `IndexMap::insert`: as the crate documents it, an entry with an
/// equal key keeps its place and gets the new element; otherwise the entry
/// is added last.
#[verifier::external_body]
fn defs_insert(d: &mut DefinitionMap, k: DefinitionKey, v: SvgElement)
    ensures
        definition_entries(*final(d)) == assoc_insert(definition_entries(*old(d)), k@, elem_view(v)),
{
    d.insert(k, v);
}

/// Calls `IndexMap::extend`: as the crate documents it, the same as
/// inserting the entries of `t` in their order.
#[verifier::external_body]
fn defs_extend(d: &mut DefinitionMap, t: DefinitionMap)
    ensures
        definition_entries(*final(d)) == assoc_extend(definition_entries(*old(d)), definition_entries(t)),
{
    d.extend(t);
}

/// Calls `IndexMap::into_values`: the elements in the order of the entries.
#[verifier::external_body]
pub(crate) fn defs_into_values(d: DefinitionMap) -> (r: Vec<SvgElement>)
    ensures
        elems_view(r@) == Seq::new(definition_entries(d).len(), |i: int| definition_entries(d)[i].1),
{
    d.into_values().collect()
}

/// The vertical position of line `row` of a frame drawn at `offset`,
/// computed in wrapping 32-bit signed arithmetic.
pub open spec fn line_position(offset: i32, row: usize, ch: u16) -> i32 {
    vstd::wrapping::i32_specs::wrapping_add(
        offset,
        vstd::wrapping::i32_specs::wrapping_mul(row as i32, ch as i32),
    )
}

/// The identifier of the `n`-th text definition.
pub open spec fn group_id(n: nat) -> Seq<char> {
    seq!['g'] + decimal(n)
}

/// The `<use>` element that draws the definition `id` at height `y`.
pub open spec fn use_view(id: Seq<char>, y: i32) -> ElemView {
    ElemView {
        attributes: seq![("xlink:href"@, seq!['#'] + id), ("y"@, int_decimal(y as int))],
        ..empty_elem("use"@)
    }
}

/// What drawing one line gives: its background rectangles and a `<use>` of
/// the definition of its text, and the definition if it is a new one. The
/// text is looked up among the earlier frames' definitions `defs`, then among
/// this frame's `local` ones; a new definition is numbered after all of
/// them.
#[verifier::opaque]
pub open spec fn line_render(
    offset: i32,
    row: usize,
    es: Seq<(usize, CellView)>,
    ch: u16,
    cw: u16,
    defs: Seq<(Seq<RunKeyView>, ElemView)>,
    local: Seq<(Seq<RunKeyView>, ElemView)>,
) -> (Seq<NodeView>, Seq<(Seq<RunKeyView>, ElemView)>) {
    let pos = line_position(offset, row, ch);
    let rects = as_nodes(bg_rects(bg_runs(es), pos, ch, cw));
    let runs = text_runs(es);
    let key = run_keys(runs);
    let found = match assoc_get(defs, key) {
        Some(e) => Some(e),
        None => assoc_get(local, key),
    };
    let existing = match found {
        Some(e) => attr_lookup(e.attributes, "id"@),
        None => None,
    };
    match existing {
        Some(id) => (rects.push(NodeView::Element(use_view(id, pos))), Seq::empty()),
        None => {
            let id = group_id(defs.len() + local.len() + 1);
            (
                rects.push(NodeView::Element(use_view(id, pos))),
                seq![(key, ElemView { attributes: seq![("id"@, id)], ..group_of(run_elems(runs, cw)) })],
            )
        },
    }
}

fn render_line(
    offset: i32,
    row: usize,
    row_data: &BTreeMap<usize, CharacterCell>,
    cell_height: u16,
    cell_width: u16,
    definitions: &DefinitionMap,
    local_defs: &DefinitionMap,
) -> (r: (Vec<SvgNode>, DefinitionMap))
    ensures
        (nodes_view(r.0@), defs_view(r.1)) == line_render(
            offset,
            row,
            listing_of(line_view(*row_data)),
            cell_height,
            cell_width,
            defs_view(*definitions),
            defs_view(*local_defs),
        ),
{
    let ghost es = listing_of(line_view(*row_data));
    reveal(line_render);
    let mut nodes: Vec<SvgNode> = Vec::new();
    let line_position: i32 = offset.wrapping_add((row as i32).wrapping_mul(cell_height as i32));
    let rects = render_line_bg_colors(row_data, line_position, cell_height, cell_width);
    assert(nodes_view(nodes@) =~= Seq::empty());
    append_elements(&mut nodes, rects);
    let (mut text_group, definition_key) = render_characters_with_key(row_data, cell_width);
    let mut new_defs: DefinitionMap = defs_new();
    let existing: Option<&SvgElement> = match defs_get(definitions, &definition_key) {
        Some(e) => Some(e),
        None => defs_get(local_defs, &definition_key),
    };
    let mut group_id: Option<String> = None;
    if let Some(e) = existing {
        if let Some(id) = e.attributes.get("id") {
            group_id = Some(id.clone());
        }
    }
    let id: String = match group_id {
        Some(id) => id,
        None => {
            let mut id = String::new();
            string_push(&mut id, 'g');
            push_decimal(&mut id, defs_len(definitions) as u128 + defs_len(local_defs) as u128 + 1);
            assert(id@ =~= seq!['g'] + decimal((defs_view(*definitions).len() + defs_view(*local_defs).len() + 1) as nat));
            text_group.attributes.insert("id".to_owned(), id.clone());
            proof {
                assert(attrs_view(text_group.attributes.entries@) =~= seq![("id"@, id@)]);
            }
            let ghost kv = definition_key@;
            let ghost gv = elem_view(text_group);
            defs_insert(&mut new_defs, definition_key, text_group);
            assert(defs_view(new_defs) =~= seq![(kv, gv)]);
            id
        },
    };
    let mut href = String::new();
    string_push(&mut href, '#');
    push_str(&mut href, id.as_str());
    let use_tag = SvgElement {
        prefix: None,
        namespace: None,
        namespaces: None,
        name: "use".to_owned(),
        attributes: SvgAttributes {
            entries: vec![("xlink:href".to_owned(), href), ("y".to_owned(), int_decimal_string(line_position as i64))],
        },
        children: Vec::new(),
    };
    proof {
        assert(attrs_view(use_tag.attributes.entries@) =~= use_view(id@, line_position).attributes);
        assert(nodes_view(use_tag.children@) =~= Seq::empty());
        assert(href@ =~= seq!['#'] + id@);
        lemma_nodes_view_push(nodes@, SvgNode::Element(use_tag));
    }
    nodes.push(SvgNode::Element(use_tag));
    assert(defs_view(new_defs) =~= line_render(offset, row, es, cell_height, cell_width, defs_view(*definitions), defs_view(*local_defs)).1);
    (nodes, new_defs)
}

/// What drawing the lines `rows` (listed by increasing row) gives: the nodes
/// of the non-empty lines one after the other, and the frame's new
/// definitions.
pub open spec fn frame_fold(
    rows: Seq<(usize, Map<usize, CellView>)>,
    offset: i32,
    ch: u16,
    cw: u16,
    defs: Seq<(Seq<RunKeyView>, ElemView)>,
) -> (Seq<NodeView>, Seq<(Seq<RunKeyView>, ElemView)>)
    decreases rows.len(),
{
    if rows.len() == 0 {
        (Seq::empty(), Seq::empty())
    } else {
        let prev = frame_fold(rows.drop_last(), offset, ch, cw, defs);
        let row = rows.last().0;
        let line = rows.last().1;
        if line.is_empty() {
            prev
        } else {
            let out = line_render(offset, row, listing_of(line), ch, cw, defs, prev.1);
            (prev.0 + out.0, assoc_extend(prev.1, out.1))
        }
    }
}

/// The `<g>` element of a frame drawn at vertical `offset`, and its new
/// definitions.
#[verifier::opaque]
pub open spec fn frame_render(
    offset: i32,
    buffer: Map<usize, Map<usize, CellView>>,
    ch: u16,
    cw: u16,
    defs: Seq<(Seq<RunKeyView>, ElemView)>,
) -> (ElemView, Seq<(Seq<RunKeyView>, ElemView)>) {
    let f = frame_fold(listing_of(buffer), offset, ch, cw, defs);
    (ElemView { children: f.0, ..empty_elem("g"@) }, f.1)
}

/// Draws a frame at vertical `offset`: a `<g>` element with the background
/// rectangles of each non-empty line and a `<use>` of the definition of its
/// text, and the definitions that this frame adds to `definitions`.
pub fn render_timed_frame(
    offset: i32,
    buffer: &BTreeMap<usize, BTreeMap<usize, CharacterCell>>,
    cell_height: u16,
    cell_width: u16,
    definitions: &DefinitionMap,
) -> (r: (SvgElement, DefinitionMap))
    ensures
        (elem_view(r.0), defs_view(r.1)) == frame_render(
            offset,
            buffer_view(*buffer),
            cell_height,
            cell_width,
            defs_view(*definitions),
        ),
{
    reveal(frame_render);
    let lines = map_listing(buffer);
    let ghost ls = Seq::new(lines@.len(), |i: int| (lines@[i].0, line_view(*lines@[i].1)));
    proof {
        let f = |l: BTreeMap<usize, CharacterCell>| line_view(l);
        let d = deref_listing(lines@);
        lemma_listing_map(d, buffer@, f);
        assert(Map::new(|k: usize| buffer@.contains_key(k), |k: usize| f(buffer@[k])) =~= buffer_view(*buffer));
        assert(Seq::new(d.len(), |i: int| (d[i].0, f(d[i].1))) =~= ls);
        lemma_listing_of(ls, buffer_view(*buffer));
    }
    let ghost dv = defs_view(*definitions);
    let mut children: Vec<SvgNode> = Vec::new();
    let mut new_definitions: DefinitionMap = defs_new();
    let mut i: usize = 0;
    assert(ls.take(0) =~= Seq::empty());
    assert(nodes_view(children@) =~= Seq::empty());
    while i < lines.len()
        invariant
            i <= lines@.len(),
            ls.len() == lines@.len(),
            forall|k: int| 0 <= k < ls.len() ==> #[trigger] ls[k] == (lines@[k].0, line_view(*lines@[k].1)),
            dv == defs_view(*definitions),
            (nodes_view(children@), defs_view(new_definitions)) == frame_fold(ls.take(i as int), offset, cell_height, cell_width, dv),
        decreases lines.len() - i,
    {
        let row = lines[i].0;
        let line = lines[i].1;
        assert(ls.take(i + 1).drop_last() =~= ls.take(i as int));
        assert(ls.take(i + 1).last() == ls[i as int]);
        assert(line_view(*line).dom() =~= line@.dom());
        if !line.is_empty() {
            let (tags, defs) = render_line(offset, row, line, cell_height, cell_width, definitions, &new_definitions);
            append_nodes(&mut children, tags);
            defs_extend(&mut new_definitions, defs);
        }
        i = i + 1;
    }
    assert(ls.take(i as int) =~= ls);
    let frame_group = SvgElement {
        prefix: None,
        namespace: None,
        namespaces: None,
        name: "g".to_owned(),
        attributes: SvgAttributes::new(),
        children,
    };
    assert(attrs_view(frame_group.attributes.entries@) =~= Seq::empty());
    (frame_group, new_definitions)
}

/// The vertical distance between two frames stacked in the animation: the
/// screen's rows and one blank row, rounded up to an even number of rows.
pub open spec fn vertical_stride(rows: u16) -> int {
    let base = rows + FRAME_CELL_SPACING;
    (base + base % 2) * CELL_HEIGHT
}

pub fn frame_vertical_stride(rows: u16) -> (r: i32)
    ensures
        r == vertical_stride(rows),
{
    let base: i32 = rows as i32 + FRAME_CELL_SPACING;
    let even: i32 = base + (base % 2);
    assert(0 <= even <= 65538);
    assert(even * 17 <= 65538 * 17) by (nonlinear_arith)
        requires
            0 <= even <= 65538,
    ;
    even * (CELL_HEIGHT as i32)
}

} // verus!

verus! {

/// The value of a frame: start and duration in milliseconds, and the screen.
pub open spec fn frame_view(f: TimedFrame) -> (u64, u64, Map<usize, Map<usize, CellView>>) {
    (f.time, f.duration, buffer_view(f.buffer))
}

/// The values of a list of frames.
pub open spec fn frames_view(fs: Seq<TimedFrame>) -> Seq<(u64, u64, Map<usize, Map<usize, CellView>>)> {
    Seq::new(fs.len(), |i: int| frame_view(fs[i]))
}

/// What drawing the frames stacked one below the other gives: one `<g>`
/// element per frame, the `i`-th drawn at `i * stride`, and all the text
/// definitions, each frame looking its lines up among the definitions of the
/// frames before it.
pub open spec fn anim_fold(frames: Seq<(u64, u64, Map<usize, Map<usize, CellView>>)>, stride: int) -> (
    Seq<NodeView>,
    Seq<(Seq<RunKeyView>, ElemView)>,
)
    decreases frames.len(),
{
    if frames.len() == 0 {
        (Seq::empty(), Seq::empty())
    } else {
        let prev = anim_fold(frames.drop_last(), stride);
        let offset = ((frames.len() - 1) * stride) as i32;
        let fr = frame_render(offset, frames.last().2, CELL_HEIGHT, CELL_WIDTH, prev.1);
        (prev.0.push(NodeView::Element(fr.0)), assoc_extend(prev.1, fr.1))
    }
}

/// The scroll position of each frame start time: minus the frame's offset.
/// A later frame with the same start time takes its place.
pub open spec fn anim_timings(frames: Seq<(u64, u64, Map<usize, Map<usize, CellView>>)>, stride: int) -> Map<u64, i32>
    decreases frames.len(),
{
    if frames.len() == 0 {
        Map::empty()
    } else {
        anim_timings(frames.drop_last(), stride).insert(
            frames.last().0,
            (-((frames.len() - 1) * stride)) as i32,
        )
    }
}

/// The drawn frames of an animation, before they are put in a template.
pub struct AnimationBody {
    /// The `<g id="screen_view">` element holding one group per frame.
    pub screen_view: SvgElement,
    /// The text definitions that the frames use.
    pub definitions: DefinitionMap,
    /// The scroll position at each frame start time.
    pub timings: BTreeMap<u64, i32>,
    /// The end of the last frame, in milliseconds.
    pub duration: Option<u64>,
}

/// The `<g id="screen_view">` element holding the given frame groups.
pub open spec fn screen_view_of(children: Seq<NodeView>) -> ElemView {
    ElemView { attributes: seq![("id"@, "screen_view"@)], children, ..empty_elem("g"@) }
}

/// Draws the frames of an animation stacked one below the other, as the
/// animation of a screen of `screen_height` rows shows them.
pub fn render_frames(frames: &Vec<TimedFrame>, screen_height: u16) -> (r: AnimationBody)
    requires
        frames@.len() * vertical_stride(screen_height) <= i32::MAX,
        forall|i: int| 0 <= i < frames@.len() ==> #[trigger] frames@[i].time + frames@[i].duration <= u64::MAX,
    ensures
        elem_view(r.screen_view) == screen_view_of(anim_fold(frames_view(frames@), vertical_stride(screen_height)).0),
        defs_view(r.definitions) == anim_fold(frames_view(frames@), vertical_stride(screen_height)).1,
        r.timings@ == anim_timings(frames_view(frames@), vertical_stride(screen_height)),
        r.duration == (if frames@.len() == 0 {
            None::<u64>
        } else {
            Some((frames@.last().time + frames@.last().duration) as u64)
        }),
{
    let ghost fv = frames_view(frames@);
    let frame_stride = frame_vertical_stride(screen_height);
    let mut children: Vec<SvgNode> = Vec::new();
    let mut definitions: DefinitionMap = defs_new();
    let mut timings: BTreeMap<u64, i32> = BTreeMap::new();
    let mut animation_duration: Option<u64> = None;
    let mut frame_idx: usize = 0;
    assert(fv.take(0) =~= Seq::empty());
    assert(nodes_view(children@) =~= Seq::empty());
    assert(timings@ =~= Map::empty());
    while frame_idx < frames.len()
        invariant
            frame_idx <= frames@.len(),
            fv == frames_view(frames@),
            frame_stride == vertical_stride(screen_height),
            frames@.len() * vertical_stride(screen_height) <= i32::MAX,
            forall|i: int| 0 <= i < frames@.len() ==> #[trigger] frames@[i].time + frames@[i].duration <= u64::MAX,
            (nodes_view(children@), defs_view(definitions)) == anim_fold(fv.take(frame_idx as int), frame_stride as int),
            timings@ == anim_timings(fv.take(frame_idx as int), frame_stride as int),
            animation_duration == (if frame_idx == 0 {
                None::<u64>
            } else {
                Some((frames@[frame_idx - 1].time + frames@[frame_idx - 1].duration) as u64)
            }),
        decreases frames.len() - frame_idx,
    {
        let frame = &frames[frame_idx];
        assert(frame_idx * vertical_stride(screen_height) <= frames@.len() * vertical_stride(screen_height)) by (nonlinear_arith)
            requires
                frame_idx < frames@.len(),
                vertical_stride(screen_height) >= 0,
        ;
        assert(fv.take(frame_idx + 1).drop_last() =~= fv.take(frame_idx as int));
        assert(fv.take(frame_idx + 1).last() == fv[frame_idx as int]);
        assert(vertical_stride(screen_height) >= 34);
        assert(frame_idx * 34 <= frame_idx * vertical_stride(screen_height)) by (nonlinear_arith)
            requires
                vertical_stride(screen_height) >= 34,
        ;
        let offset: i32 = (frame_idx as i32) * frame_stride;
        assert(offset == frame_idx * vertical_stride(screen_height));
        let (group, defs) = render_timed_frame(offset, &frame.buffer, CELL_HEIGHT, CELL_WIDTH, &definitions);
        defs_extend(&mut definitions, defs);
        assert(frames@[frame_idx as int].time + frames@[frame_idx as int].duration <= u64::MAX);
        animation_duration = Some(frame.time + frame.duration);
        timings.insert(frame.time, -offset);
        proof {
            lemma_nodes_view_push(children@, SvgNode::Element(group));
        }
        children.push(SvgNode::Element(group));
        frame_idx = frame_idx + 1;
    }
    assert(fv.take(frame_idx as int) =~= fv);
    let screen_view = SvgElement {
        prefix: None,
        namespace: None,
        namespaces: None,
        name: "g".to_owned(),
        attributes: SvgAttributes { entries: vec![("id".to_owned(), "screen_view".to_owned())] },
        children,
    };
    assert(attrs_view(screen_view.attributes.entries@) =~= seq![("id"@, "screen_view"@)]);
    AnimationBody { screen_view, definitions, timings, duration: animation_duration }
}

} // verus!

verus! {

/// The texts of the cells one after the other.
pub open spec fn cells_text(es: Seq<(usize, CellView)>) -> Seq<char>
    decreases es.len(),
{
    if es.len() == 0 {
        Seq::empty()
    } else {
        cells_text(es.drop_last()) + es.last().1.text
    }
}

/// The texts of the runs one after the other.
pub open spec fn runs_text(runs: Seq<TextRun>) -> Seq<char>
    decreases runs.len(),
{
    if runs.len() == 0 {
        Seq::empty()
    } else {
        runs_text(runs.drop_last()) + runs.last().text
    }
}

/// Grouping the cells of a line into runs keeps their text: the runs'
/// texts, one after the other, are the cells' texts, one after the other.
pub proof fn law_runs_keep_text(es: Seq<(usize, CellView)>)
    ensures
        runs_text(text_runs(es)) == cells_text(es),
    decreases es.len(),
{
    if es.len() > 0 {
        law_runs_keep_text(es.drop_last());
        let runs = text_runs(es.drop_last());
        let nr = text_runs(es);
        if runs.len() > 0 && es.last().0 == runs.last().last + 1 && style_of(es.last().1) == runs.last().style {
            assert(nr.drop_last() =~= runs.drop_last());
            assert(runs_text(runs) == runs_text(runs.drop_last()) + runs.last().text);
            assert(runs_text(nr) =~= cells_text(es));
        } else {
            assert(nr.drop_last() =~= runs);
            assert(runs_text(nr) =~= cells_text(es));
        }
    }
}

/// The runs are as long as they can be: a run never ends where the next
/// cell is in the next column and in the same style.
pub proof fn law_runs_maximal(es: Seq<(usize, CellView)>)
    ensures
        forall|i: int|
            0 <= i < text_runs(es).len() - 1 ==> !(#[trigger] text_runs(es)[i + 1].column == text_runs(
                es,
            )[i].last + 1 && text_runs(es)[i + 1].style == text_runs(es)[i].style),
        forall|i: int| 0 <= i < text_runs(es).len() ==> text_runs(es)[i].column <= #[trigger] text_runs(es)[i].last,
    decreases es.len(),
{
    if es.len() > 0 {
        law_runs_maximal(es.drop_last());
        let runs = text_runs(es.drop_last());
        let nr = text_runs(es);
        if runs.len() > 0 && es.last().0 == runs.last().last + 1 && style_of(es.last().1) == runs.last().style {
            assert forall|i: int| 0 <= i < nr.len() - 1 implies !(#[trigger] nr[i + 1].column == nr[i].last + 1
                && nr[i + 1].style == nr[i].style) by {
                assert(nr[i] == runs[i]);
                assert(nr[i + 1].column == runs[i + 1].column && nr[i + 1].style == runs[i + 1].style);
            }
        } else {
            assert forall|i: int| 0 <= i < nr.len() - 1 implies !(#[trigger] nr[i + 1].column == nr[i].last + 1
                && nr[i + 1].style == nr[i].style) by {
                if i < nr.len() - 2 {
                    assert(nr[i] == runs[i]);
                    assert(nr[i + 1] == runs[i + 1]);
                }
            }
        }
    }
}

/// Cells on the default background get no rectangle.
pub proof fn law_default_background_unpainted(es: Seq<(usize, CellView)>)
    requires
        forall|i: int| 0 <= i < es.len() ==> #[trigger] es[i].1.background_color == "background"@,
    ensures
        bg_runs(es).len() == 0,
    decreases es.len(),
{
    if es.len() > 0 {
        law_default_background_unpainted(es.drop_last());
        assert(es.last() == es[es.len() - 1]);
    }
}

/// Whether no two definitions have the same key.
pub open spec fn distinct_keys(d: Seq<(Seq<RunKeyView>, ElemView)>) -> bool {
    forall|i: int, j: int| 0 <= i < j < d.len() ==> #[trigger] d[i].0 != #[trigger] d[j].0
}

/// Whether every definition has an `id` attribute.
pub open spec fn all_have_ids(d: Seq<(Seq<RunKeyView>, ElemView)>) -> bool {
    forall|i: int| 0 <= i < d.len() ==> attr_lookup(#[trigger] d[i].1.attributes, "id"@) is Some
}

/// Whether no key of `a` is a key of `b`.
pub open spec fn keys_apart(a: Seq<(Seq<RunKeyView>, ElemView)>, b: Seq<(Seq<RunKeyView>, ElemView)>) -> bool {
    forall|i: int, j: int| 0 <= i < a.len() && 0 <= j < b.len() ==> #[trigger] a[i].0 != #[trigger] b[j].0
}

proof fn lemma_key_absent(d: Seq<(Seq<RunKeyView>, ElemView)>, k: Seq<RunKeyView>)
    requires
        assoc_get(d, k) is None,
    ensures
        forall|i: int| 0 <= i < d.len() ==> #[trigger] d[i].0 != k,
    decreases d.len(),
{
    if d.len() > 0 {
        lemma_key_absent(d.drop_first(), k);
        assert forall|i: int| 0 <= i < d.len() implies #[trigger] d[i].0 != k by {
            if i > 0 {
                assert(d[i] == d.drop_first()[i - 1]);
            }
        }
    }
}

proof fn lemma_found_has_id(d: Seq<(Seq<RunKeyView>, ElemView)>, k: Seq<RunKeyView>)
    requires
        all_have_ids(d),
        assoc_get(d, k) is Some,
    ensures
        attr_lookup(assoc_get(d, k).unwrap().attributes, "id"@) is Some,
    decreases d.len(),
{
    if d[0].0 != k {
        assert forall|i: int| 0 <= i < d.drop_first().len() implies attr_lookup(
            #[trigger] d.drop_first()[i].1.attributes,
            "id"@,
        ) is Some by {
            assert(d.drop_first()[i] == d[i + 1]);
        }
        lemma_found_has_id(d.drop_first(), k);
    } else {
        assert(d[0] == d[0]);
    }
}

/// A line adds a definition only for text that neither the earlier frames
/// nor this frame have defined yet, and gives it an identifier.
proof fn lemma_line_defs(
    offset: i32,
    row: usize,
    es: Seq<(usize, CellView)>,
    ch: u16,
    cw: u16,
    defs: Seq<(Seq<RunKeyView>, ElemView)>,
    local: Seq<(Seq<RunKeyView>, ElemView)>,
)
    requires
        all_have_ids(defs),
        all_have_ids(local),
    ensures
        ({
            let nd = line_render(offset, row, es, ch, cw, defs, local).1;
            &&& nd.len() <= 1
            &&& nd.len() == 1 ==> (forall|i: int| 0 <= i < defs.len() ==> #[trigger] defs[i].0 != nd[0].0)
            &&& nd.len() == 1 ==> (forall|i: int| 0 <= i < local.len() ==> #[trigger] local[i].0 != nd[0].0)
            &&& all_have_ids(nd)
        }),
{
    reveal(line_render);
    let key = run_keys(text_runs(es));
    if assoc_get(defs, key) is Some {
        lemma_found_has_id(defs, key);
    } else {
        lemma_key_absent(defs, key);
        if assoc_get(local, key) is Some {
            lemma_found_has_id(local, key);
        } else {
            lemma_key_absent(local, key);
        }
    }
    let nd = line_render(offset, row, es, ch, cw, defs, local).1;
    if nd.len() == 1 {
        assert(attr_lookup(nd[0].1.attributes, "id"@) is Some);
    }
}

proof fn lemma_frame_defs(
    rows: Seq<(usize, Map<usize, CellView>)>,
    offset: i32,
    ch: u16,
    cw: u16,
    defs: Seq<(Seq<RunKeyView>, ElemView)>,
)
    requires
        all_have_ids(defs),
    ensures
        distinct_keys(frame_fold(rows, offset, ch, cw, defs).1),
        keys_apart(defs, frame_fold(rows, offset, ch, cw, defs).1),
        all_have_ids(frame_fold(rows, offset, ch, cw, defs).1),
    decreases rows.len(),
{
    if rows.len() > 0 {
        lemma_frame_defs(rows.drop_last(), offset, ch, cw, defs);
        let prev = frame_fold(rows.drop_last(), offset, ch, cw, defs);
        let line = rows.last().1;
        if !line.is_empty() {
            let out = line_render(offset, rows.last().0, listing_of(line), ch, cw, defs, prev.1);
            lemma_line_defs(offset, rows.last().0, listing_of(line), ch, cw, defs, prev.1);
            let nd = assoc_extend(prev.1, out.1);
            if out.1.len() == 1 {
                assert(out.1.drop_last() =~= Seq::<(Seq<RunKeyView>, ElemView)>::empty());
                assert(assoc_extend(prev.1, out.1.drop_last()) == prev.1);
                assert(assoc_absent(prev.1, out.1[0].0));
                lemma_assoc_insert_absent(prev.1, out.1[0].0, out.1[0].1);
                assert(nd == prev.1.push(out.1[0]));
            } else {
                assert(out.1 =~= Seq::<(Seq<RunKeyView>, ElemView)>::empty());
                assert(nd == prev.1);
            }
        }
    }
}

/// A frame defines each text once: the definitions that it adds have
/// distinct keys, none of them already defined, each with an identifier, as
/// long as the definitions it starts from have identifiers.
pub proof fn law_frame_defines_once(
    offset: i32,
    buffer: Map<usize, Map<usize, CellView>>,
    ch: u16,
    cw: u16,
    defs: Seq<(Seq<RunKeyView>, ElemView)>,
)
    requires
        all_have_ids(defs),
    ensures
        distinct_keys(frame_render(offset, buffer, ch, cw, defs).1),
        keys_apart(defs, frame_render(offset, buffer, ch, cw, defs).1),
        all_have_ids(frame_render(offset, buffer, ch, cw, defs).1),
{
    reveal(frame_render);
    lemma_frame_defs(listing_of(buffer), offset, ch, cw, defs);
}

/// An animation defines each text once: the definitions of all its frames
/// have distinct keys.
pub proof fn law_animation_defines_once(frames: Seq<(u64, u64, Map<usize, Map<usize, CellView>>)>, stride: int)
    ensures
        distinct_keys(anim_fold(frames, stride).1),
        all_have_ids(anim_fold(frames, stride).1),
    decreases frames.len(),
{
    if frames.len() > 0 {
        law_animation_defines_once(frames.drop_last(), stride);
        let prev = anim_fold(frames.drop_last(), stride).1;
        let offset = ((frames.len() - 1) * stride) as i32;
        let fr = frame_render(offset, frames.last().2, CELL_HEIGHT, CELL_WIDTH, prev);
        law_frame_defines_once(offset, frames.last().2, CELL_HEIGHT, CELL_WIDTH, prev);
        lemma_extend_apart(prev, fr.1);
    }
}

proof fn lemma_extend_apart(a: Seq<(Seq<RunKeyView>, ElemView)>, b: Seq<(Seq<RunKeyView>, ElemView)>)
    requires
        distinct_keys(a),
        distinct_keys(b),
        keys_apart(a, b),
        all_have_ids(a),
        all_have_ids(b),
    ensures
        assoc_extend(a, b) == a + b,
        distinct_keys(a + b),
        all_have_ids(a + b),
    decreases b.len(),
{
    if b.len() > 0 {
        let bl = b.drop_last();
        assert forall|i: int, j: int| 0 <= i < j < bl.len() implies #[trigger] bl[i].0 != #[trigger] bl[j].0 by {
            assert(bl[i] == b[i] && bl[j] == b[j]);
        }
        assert forall|i: int, j: int| 0 <= i < a.len() && 0 <= j < bl.len() implies #[trigger] a[i].0 != #[trigger] bl[j].0 by {
            assert(bl[j] == b[j]);
        }
        assert forall|i: int| 0 <= i < bl.len() implies attr_lookup(#[trigger] bl[i].1.attributes, "id"@) is Some by {
            assert(bl[i] == b[i]);
        }
        lemma_extend_apart(a, bl);
        let ab = a + bl;
        let k = b.last().0;
        assert forall|j: int| 0 <= j < ab.len() implies #[trigger] ab[j].0 != k by {
            if j < a.len() {
                assert(ab[j] == a[j]);
                assert(a[j].0 != b[b.len() - 1].0);
            } else {
                assert(ab[j] == b[j - a.len()]);
                assert(b[j - a.len()].0 != b[b.len() - 1].0);
            }
        }
        assert(assoc_absent(ab, k));
        lemma_assoc_insert_absent(ab, k, b.last().1);
        assert(ab.push(b.last()) =~= a + b);
    }
}

/// Background rectangles are as wide as they can be: a run never ends where
/// the next painted cell is in the next column and has the same color.
pub proof fn law_bg_runs_maximal(es: Seq<(usize, CellView)>)
    ensures
        forall|i: int|
            0 <= i < bg_runs(es).len() - 1 ==> !(#[trigger] bg_runs(es)[i + 1].start == bg_runs(es)[i].last + 1
                && bg_runs(es)[i + 1].color == bg_runs(es)[i].color),
    decreases es.len(),
{
    if es.len() > 0 {
        law_bg_runs_maximal(es.drop_last());
        let runs = bg_runs(es.drop_last());
        let nr = bg_runs(es);
        let cell = es.last().1;
        if cell.background_color == "background"@ {
        } else if runs.len() > 0 && es.last().0 == runs.last().last + 1 && cell.background_color == runs.last().color {
            assert forall|i: int| 0 <= i < nr.len() - 1 implies !(#[trigger] nr[i + 1].start == nr[i].last + 1
                && nr[i + 1].color == nr[i].color) by {
                assert(nr[i] == runs[i]);
                assert(nr[i + 1].start == runs[i + 1].start && nr[i + 1].color == runs[i + 1].color);
            }
        } else {
            assert forall|i: int| 0 <= i < nr.len() - 1 implies !(#[trigger] nr[i + 1].start == nr[i].last + 1
                && nr[i + 1].color == nr[i].color) by {
                if i < nr.len() - 2 {
                    assert(nr[i] == runs[i]);
                    assert(nr[i + 1] == runs[i + 1]);
                }
            }
        }
    }
}

/// Looking up a key in two attribute lists one after the other finds it in
/// the first list if it is there, else in the second.
proof fn lemma_attr_lookup_concat(a: Seq<(Seq<char>, Seq<char>)>, b: Seq<(Seq<char>, Seq<char>)>, k: Seq<char>)
    ensures
        attr_lookup(a + b, k) == (match attr_lookup(a, k) {
            Some(v) => Some(v),
            None => attr_lookup(b, k),
        }),
    decreases a.len(),
{
    if a.len() > 0 {
        assert((a + b).drop_first() =~= a.drop_first() + b);
        assert((a + b)[0] == a[0]);
        lemma_attr_lookup_concat(a.drop_first(), b, k);
    } else {
        assert(a + b =~= b);
    }
}

proof fn lemma_attr_lookup_single(k: Seq<char>, v: Seq<char>, key: Seq<char>)
    ensures
        attr_lookup(seq![(k, v)], key) == (if k == key { Some(v) } else { None::<Seq<char>> }),
{
    let s1 = seq![(k, v)];
    assert(s1.drop_first() =~= Seq::<(Seq<char>, Seq<char>)>::empty());
    assert(attr_lookup(s1.drop_first(), key) is None);
    assert(s1[0] == (k, v));
}

/// Whether `color` is an explicit `#rrggbb` color rather than the name of a
/// palette entry.
pub open spec fn is_explicit_color(color: Seq<char>) -> bool {
    color.len() > 0 && color[0] == '#'
}

/// A text element is painted with its color through `class` when the color
/// names a palette entry (it does not start with `#`), and through `fill`
/// only when it is an explicit `#` color; it has exactly one of the two.
pub proof fn law_text_paint(column: usize, style: StyleView, text: Seq<char>, cw: u16)
    ensures
        ({
            let a = text_view(column, style, text, cw).attributes;
            if is_explicit_color(style.color) {
                attr_lookup(a, "fill"@) == Some(style.color) && attr_lookup(a, "class"@) is None
            } else {
                attr_lookup(a, "class"@) == Some(style.color) && attr_lookup(a, "fill"@) is None
            }
        }),
{
    reveal_strlit("fill");
    reveal_strlit("class");
    reveal_strlit("x");
    reveal_strlit("textLength");
    reveal_strlit("font-weight");
    reveal_strlit("font-style");
    reveal_strlit("text-decoration");
    let p1: Seq<(Seq<char>, Seq<char>)> = seq![
        ("x"@, decimal(cells_to_px(column as nat, cw))),
        ("textLength"@, decimal(cells_to_px(str_width(text) as nat, cw))),
    ];
    let p2: Seq<(Seq<char>, Seq<char>)> = if style.bold { seq![("font-weight"@, "bold"@)] } else { Seq::empty() };
    let p3: Seq<(Seq<char>, Seq<char>)> = if style.italics { seq![("font-style"@, "italic"@)] } else { Seq::empty() };
    let p4: Seq<(Seq<char>, Seq<char>)> = if style.underscore || style.strikethrough {
        seq![("text-decoration"@, decoration(style.underscore, style.strikethrough))]
    } else {
        Seq::empty()
    };
    let p5: Seq<(Seq<char>, Seq<char>)> = seq![(paint_attr(style.color), style.color)];
    let a = text_view(column, style, text, cw).attributes;
    assert(a == p1 + p2 + p3 + p4 + p5);
    assert forall|k: Seq<char>| k == "fill"@ || k == "class"@ implies attr_lookup(p1 + p2 + p3 + p4, k) is None by {
        assert(k.len() == 4 || k.len() == 5);
        assert(p1[0].0.len() == 1 && p1[1].0.len() == 10);
        assert(p1.drop_first() =~= seq![p1[1]]);
        assert(p1.drop_first().drop_first() =~= Seq::<(Seq<char>, Seq<char>)>::empty());
        lemma_attr_lookup_single(p1[1].0, p1[1].1, k);
        assert(attr_lookup(p1.drop_first(), k) is None);
        assert(attr_lookup(p1, k) is None);
        lemma_attr_lookup_concat(p1, p2, k);
        lemma_attr_lookup_concat(p1 + p2, p3, k);
        lemma_attr_lookup_concat(p1 + p2 + p3, p4, k);
        if style.bold {
            lemma_attr_lookup_single("font-weight"@, "bold"@, k);
        }
        if style.italics {
            lemma_attr_lookup_single("font-style"@, "italic"@, k);
        }
        if style.underscore || style.strikethrough {
            lemma_attr_lookup_single("text-decoration"@, decoration(style.underscore, style.strikethrough), k);
        }
    }
    assert("fill"@ != "class"@) by {
        assert("fill"@.len() != "class"@.len());
    }
    assert(paint_attr(style.color) == (if is_explicit_color(style.color) { "fill"@ } else { "class"@ }));
    lemma_attr_lookup_concat(p1 + p2 + p3 + p4, p5, "fill"@);
    lemma_attr_lookup_concat(p1 + p2 + p3 + p4, p5, "class"@);
    lemma_attr_lookup_single(paint_attr(style.color), style.color, "fill"@);
    lemma_attr_lookup_single(paint_attr(style.color), style.color, "class"@);
}

/// A background rectangle is painted like text: through `class` for a
/// palette color, through `fill` only for an explicit `#` color.
pub proof fn law_rect_paint(column: usize, length: usize, height: i32, cw: u16, ch: u16, color: Seq<char>)
    ensures
        ({
            let a = rect_view(column, length, height, cw, ch, color).attributes;
            if is_explicit_color(color) {
                attr_lookup(a, "fill"@) == Some(color) && attr_lookup(a, "class"@) is None
            } else {
                attr_lookup(a, "class"@) == Some(color) && attr_lookup(a, "fill"@) is None
            }
        }),
{
    reveal_strlit("fill");
    reveal_strlit("class");
    reveal_strlit("x");
    reveal_strlit("y");
    reveal_strlit("width");
    reveal_strlit("height");
    let a = rect_view(column, length, height, cw, ch, color).attributes;
    let pre = a.take(4);
    let last = seq![(paint_attr(color), color)];
    assert(a =~= pre + last);
    assert forall|k: Seq<char>| k == "fill"@ || k == "class"@ implies attr_lookup(pre, k) is None by {
        assert(pre[0].0 != k && pre[1].0 != k && pre[2].0 != k && pre[3].0 != k) by {
            assert(pre[0].0.len() == 1 && pre[1].0.len() == 1 && pre[3].0.len() == 6);
            assert(pre[2].0[0] == 'w');
            assert("class"@[0] == 'c' && "fill"@.len() == 4);
        }
        assert(pre.drop_first().drop_first().drop_first() =~= seq![pre[3]]);
        lemma_attr_lookup_single(pre[3].0, pre[3].1, k);
        assert(attr_lookup(pre.drop_first().drop_first().drop_first(), k) is None);
        assert(attr_lookup(pre.drop_first().drop_first(), k) is None);
        assert(attr_lookup(pre.drop_first(), k) is None);
    }
    assert("fill"@ != "class"@) by {
        assert("fill"@.len() != "class"@.len());
    }
    lemma_attr_lookup_concat(pre, last, "fill"@);
    lemma_attr_lookup_concat(pre, last, "class"@);
    lemma_attr_lookup_single(paint_attr(color), color, "fill"@);
    lemma_attr_lookup_single(paint_attr(color), color, "class"@);
}

/// The product `row * ch` in wrapping arithmetic is the true product when it
/// fits, and so is the sum with `offset`.
proof fn lemma_line_position_exact(offset: i32, row: usize, ch: u16)
    requires
        row * ch <= i32::MAX,
        i32::MIN <= offset + row * ch <= i32::MAX,
    ensures
        line_position(offset, row, ch) == offset + row * ch,
{
    let m = vstd::wrapping::i32_specs::wrapping_mul(row as i32, ch as i32);
    if ch == 0 {
        let x = row as i32;
        let y = ch as i32;
        assert(y == 0);
        assert(x * y == 0) by (nonlinear_arith)
            requires
                y == 0,
        ;
        assert(0int % 0x1_0000_0000int == 0) by (nonlinear_arith);
        assert(m == 0);
        assert(row * ch == 0);
    } else {
        assert(row <= row * ch) by (nonlinear_arith)
            requires
                ch >= 1,
        ;
        assert((row as i32) as int == row as int);
        let p: int = row * ch;
        assert((row as i32) * (ch as i32) == p);
        assert(0 <= p < 0x1_0000_0000);
        assert(p % 0x1_0000_0000int == p) by (nonlinear_arith)
            requires
                0 <= p < 0x1_0000_0000,
        ;
        assert(m == p);
    }
}

proof fn lemma_attr_y(a: Seq<(Seq<char>, Seq<char>)>, first: Seq<char>, y: Seq<char>)
    requires
        a.len() >= 2,
        a[0].0 == first,
        first != "y"@,
        a[1] == ("y"@, y),
    ensures
        attr_lookup(a, "y"@) == Some(y),
{
    let b = a.drop_first();
    assert(b.len() > 0 && b[0] == a[1]);
    assert(attr_lookup(b, "y"@) == Some(y));
    assert(a[0].0 != "y"@);
}

proof fn lemma_bg_rects_y(runs: Seq<BgRun>, height: i32, ch: u16, cw: u16)
    ensures
        forall|i: int|
            0 <= i < bg_rects(runs, height, ch, cw).len() ==> (#[trigger] bg_rects(runs, height, ch, cw)[i]).name
                == "rect"@ && attr_lookup(bg_rects(runs, height, ch, cw)[i].attributes, "y"@) == Some(
                int_decimal(height as int),
            ),
    decreases runs.len(),
{
    reveal_strlit("x");
    reveal_strlit("y");
    if runs.len() > 0 {
        lemma_bg_rects_y(runs.drop_last(), height, ch, cw);
        let prev = bg_rects(runs.drop_last(), height, ch, cw);
        let r = runs.last();
        let all = bg_rects(runs, height, ch, cw);
        assert forall|i: int| 0 <= i < all.len() implies (#[trigger] all[i]).name == "rect"@ && attr_lookup(
            all[i].attributes,
            "y"@,
        ) == Some(int_decimal(height as int)) by {
            if i < prev.len() {
                assert(all[i] == prev[i]);
            } else {
                let e = rect_view(r.start, r.width, height, cw, ch, r.color);
                assert(all[i] == e);
                assert("x"@ != "y"@) by {
                    assert("x"@[0] != "y"@[0]);
                }
                lemma_attr_y(e.attributes, "x"@, int_decimal(height as int));
            }
        }
    }
}

/// A line of a frame drawn at vertical `offset` lies at `offset + row * ch`:
/// each of its background rectangles and the `<use>` of its text (the last
/// node) have that `y`, when the position fits in 32 bits.
pub proof fn law_line_position(
    offset: i32,
    row: usize,
    es: Seq<(usize, CellView)>,
    ch: u16,
    cw: u16,
    defs: Seq<(Seq<RunKeyView>, ElemView)>,
    local: Seq<(Seq<RunKeyView>, ElemView)>,
)
    requires
        row * ch <= i32::MAX,
        i32::MIN <= offset + row * ch <= i32::MAX,
    ensures
        ({
            let nodes = line_render(offset, row, es, ch, cw, defs, local).0;
            &&& nodes.len() >= 1
            &&& nodes.last() matches NodeView::Element(u) && u.name == "use"@
            &&& forall|i: int|
                0 <= i < nodes.len() ==> ((#[trigger] nodes[i]) matches NodeView::Element(e) && attr_lookup(
                    e.attributes,
                    "y"@,
                ) == Some(int_decimal(offset + row * ch)))
        }),
{
    reveal(line_render);
    reveal_strlit("y");
    reveal_strlit("xlink:href");
    lemma_line_position_exact(offset, row, ch);
    let pos = line_position(offset, row, ch);
    let rects_e = bg_rects(bg_runs(es), pos, ch, cw);
    lemma_bg_rects_y(bg_runs(es), pos, ch, cw);
    let rects = as_nodes(rects_e);
    let nodes = line_render(offset, row, es, ch, cw, defs, local).0;
    let u = nodes.last()->Element_0;
    assert(nodes.len() == rects.len() + 1);
    assert("xlink:href"@ != "y"@) by {
        assert("xlink:href"@.len() != "y"@.len());
    }
    assert forall|i: int| 0 <= i < nodes.len() implies ((#[trigger] nodes[i]) matches NodeView::Element(e)
        && attr_lookup(e.attributes, "y"@) == Some(int_decimal(offset + row * ch))) by {
        if i < rects.len() {
            assert(nodes[i] == rects[i]);
            assert(rects[i] == NodeView::Element(rects_e[i]));
        } else {
            assert(nodes[i] == nodes.last());
            lemma_attr_y(u.attributes, "xlink:href"@, int_decimal(pos as int));
        }
    }
}

/// The lines of a frame drawn at vertical `offset` lie at their rows: every
/// node that drawing the rows `rows` gives (background rectangles and
/// `<use>` elements) has `y = offset + row * ch` for one of the rows, when
/// these positions fit in 32 bits.
pub proof fn law_frame_lines_at_rows(
    rows: Seq<(usize, Map<usize, CellView>)>,
    offset: i32,
    ch: u16,
    cw: u16,
    defs: Seq<(Seq<RunKeyView>, ElemView)>,
)
    requires
        forall|k: int|
            0 <= k < rows.len() ==> (#[trigger] rows[k]).0 * ch <= i32::MAX && i32::MIN <= offset + rows[k].0 * ch
                <= i32::MAX,
    ensures
        ({
            let nodes = frame_fold(rows, offset, ch, cw, defs).0;
            forall|i: int|
                0 <= i < nodes.len() ==> ((#[trigger] nodes[i]) matches NodeView::Element(e) && exists|k: int|
                    0 <= k < rows.len() && attr_lookup(e.attributes, "y"@) == Some(
                        int_decimal(offset + (#[trigger] rows[k]).0 * ch),
                    ))
        }),
    decreases rows.len(),
{
    if rows.len() > 0 {
        let prev_rows = rows.drop_last();
        assert forall|k: int| 0 <= k < prev_rows.len() implies (#[trigger] prev_rows[k]).0 * ch <= i32::MAX
            && i32::MIN <= offset + prev_rows[k].0 * ch <= i32::MAX by {
            assert(prev_rows[k] == rows[k]);
        }
        law_frame_lines_at_rows(prev_rows, offset, ch, cw, defs);
        let prev = frame_fold(prev_rows, offset, ch, cw, defs);
        let row = rows.last().0;
        let line = rows.last().1;
        let nodes = frame_fold(rows, offset, ch, cw, defs).0;
        let kl = rows.len() - 1;
        assert(rows[kl] == rows.last());
        if !line.is_empty() {
            let out = line_render(offset, row, listing_of(line), ch, cw, defs, prev.1);
            law_line_position(offset, row, listing_of(line), ch, cw, defs, prev.1);
            assert(nodes == prev.0 + out.0);
            assert forall|i: int| 0 <= i < nodes.len() implies ((#[trigger] nodes[i]) matches NodeView::Element(e)
                && exists|k: int|
                0 <= k < rows.len() && attr_lookup(e.attributes, "y"@) == Some(
                    int_decimal(offset + (#[trigger] rows[k]).0 * ch),
                )) by {
                if i < prev.0.len() {
                    assert(nodes[i] == prev.0[i]);
                    let e = nodes[i]->Element_0;
                    let k = choose|k: int|
                        0 <= k < prev_rows.len() && attr_lookup(e.attributes, "y"@) == Some(
                            int_decimal(offset + (#[trigger] prev_rows[k]).0 * ch),
                        );
                    assert(prev_rows[k] == rows[k]);
                } else {
                    assert(nodes[i] == out.0[i - prev.0.len()]);
                    let j = i - prev.0.len();
                    assert(out.0[j] matches NodeView::Element(e) && attr_lookup(e.attributes, "y"@) == Some(
                        int_decimal(offset + row * ch),
                    ));
                }
            }
        } else {
            assert forall|i: int| 0 <= i < nodes.len() implies ((#[trigger] nodes[i]) matches NodeView::Element(e)
                && exists|k: int|
                0 <= k < rows.len() && attr_lookup(e.attributes, "y"@) == Some(
                    int_decimal(offset + (#[trigger] rows[k]).0 * ch),
                )) by {
                let e = nodes[i]->Element_0;
                let k = choose|k: int|
                    0 <= k < prev_rows.len() && attr_lookup(e.attributes, "y"@) == Some(
                        int_decimal(offset + (#[trigger] prev_rows[k]).0 * ch),
                    );
                assert(prev_rows[k] == rows[k]);
            }
        }
    }
}

} // verus!
