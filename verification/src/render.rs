//! Whole documents: one animation of all frames, or one still document per
//! frame, drawn into a prepared template.

use std::collections::BTreeMap;

use vstd::prelude::*;

use crate::anim::{
    anim_fold, defs_into_values, defs_view, frame_render, frames_view, render_frames,
    render_timed_frame, screen_view_of, vertical_stride, anim_timings, DefinitionMap, RunKeyView,
    CELL_HEIGHT, CELL_WIDTH,
};
use crate::emulator::buffer_view;
use crate::listing::{is_u64_listing, u64_listing};
use crate::svg::{
    elem_view, empty_elem, lemma_nodes_view_concat, lemma_nodes_view_len, nodes_view, ElemView,
    NodeView, SvgElement, SvgNode, same_but_attribute_order,
};
use crate::template::{
    elem_result, embed_css, ensure_css_animation, find_screen, lemma_screen_path, missing_screen,
    prepare_element, screen_path, spec_css_animation, spec_embed_css, spec_preparation,
};
use crate::term::TimedFrame;
use crate::text::{decimal, digits_value, lemma_decimal_digits, push_decimal, push_str, string_push};
use crate::tree::{elem_at, lemma_replace_at, put_at, replace_at, take_at};
use crate::xml::{parse_xml, xml_document};

verus! {

/// The `<defs>` element holding the text definitions.
pub open spec fn defs_elem(defs: Seq<(Seq<RunKeyView>, ElemView)>) -> ElemView {
    ElemView {
        children: Seq::new(defs.len(), |i: int| NodeView::Element(defs[i].1)),
        ..empty_elem("defs"@)
    }
}

/// The document with `extra` added after the children of its screen
/// element, if it has one.
pub open spec fn with_screen_children(root: ElemView, extra: Seq<NodeView>) -> Option<ElemView> {
    match screen_path(root) {
        None => None,
        Some(p) => {
            let sc = elem_at(root, p).unwrap();
            Some(replace_at(root, p, ElemView { children: sc.children + extra, ..sc }))
        },
    }
}

/// The end of the last frame, in milliseconds.
pub open spec fn last_end(frames: Seq<(u64, u64, Map<usize, Map<usize, crate::anim::CellView>>)>) -> Option<u64> {
    if frames.len() == 0 {
        None
    } else {
        Some((frames.last().0 + frames.last().1) as u64)
    }
}

/// What animating the frames in a prepared template gives: the template
/// must animate with CSS; its screen gets the text definitions and the
/// stacked frames; and the scroll position at each frame start and the end
/// of the last frame are what the style sheet needs.
pub open spec fn spec_animation(
    prep: ElemView,
    frames: Seq<(u64, u64, Map<usize, Map<usize, crate::anim::CellView>>)>,
    geometry: (u16, u16),
) -> Result<(ElemView, Map<u64, i32>, Option<u64>), Seq<char>> {
    match spec_css_animation(prep) {
        Err(m) => Err(m),
        Ok(()) => {
            let stride = vertical_stride(geometry.1);
            let body = anim_fold(frames, stride);
            match with_screen_children(
                prep,
                seq![NodeView::Element(defs_elem(body.1)), NodeView::Element(screen_view_of(body.0))],
            ) {
                None => Err(missing_screen()),
                Some(doc) => Ok((doc, anim_timings(frames, stride), last_end(frames))),
            }
        },
    }
}

/// An animation document before its style sheet is written.
pub struct AnimationDocument {
    pub root: SvgElement,
    /// The scroll position at each frame start time.
    pub timings: BTreeMap<u64, i32>,
    /// The end of the last frame, in milliseconds.
    pub duration: Option<u64>,
}

/// The value of an animation result.
pub open spec fn animation_result(r: Result<AnimationDocument, String>) -> Result<
    (ElemView, Map<u64, i32>, Option<u64>),
    Seq<char>,
> {
    match r {
        Ok(d) => Ok((elem_view(d.root), d.timings@, d.duration)),
        Err(m) => Err(m@),
    }
}

/// The limits within which frames can be stacked: offsets fit in an `i32`
/// and frame ends in a `u64`.
pub open spec fn frames_fit(frames: Seq<TimedFrame>, rows: u16) -> bool {
    &&& frames.len() * vertical_stride(rows) <= i32::MAX
    &&& forall|i: int| 0 <= i < frames.len() ==> #[trigger] frames[i].time + frames[i].duration <= u64::MAX
}

fn defs_element(definitions: DefinitionMap) -> (r: SvgElement)
    ensures
        elem_view(r) == defs_elem(defs_view(definitions)),
{
    let ghost dv = defs_view(definitions);
    let values = defs_into_values(definitions);
    let mut defs = SvgElement::new("defs");
    assert(Seq::new(0, |i: int| NodeView::Element(dv[i].1)) =~= Seq::<NodeView>::empty());
    assert(values@.len() == dv.len()) by {
        assert(crate::svg::elems_view(values@).len() == values@.len());
    }
    let ghost n = values@.len();
    for v in it: values.into_iter()
        invariant
            it.seq() == values@,
            n == values@.len(),
            n == dv.len(),
            it.index() <= n,
            crate::svg::elems_view(values@) == Seq::new(dv.len(), |i: int| dv[i].1),
            elem_view(defs) == (ElemView {
                children: Seq::new(it.index() as nat, |i: int| NodeView::Element(dv[i].1)),
                ..empty_elem("defs"@)
            }),
    {
        let ghost k = it.index();
        assert(k < n);
        assert(v == values@[k as int]);
        assert(crate::svg::elems_view(values@)[k as int] == elem_view(values@[k as int]));
        assert(crate::svg::elems_view(values@)[k as int] == dv[k as int].1);
        defs.push_child(SvgNode::Element(v));
        assert(elem_view(defs).children =~= Seq::new((k + 1) as nat, |i: int| NodeView::Element(dv[i].1)));
    }
    assert(elem_view(defs).children =~= Seq::new(dv.len(), |i: int| NodeView::Element(dv[i].1)));
    defs
}

/// Adds the nodes `extra` after the children of the screen element.
fn push_to_screen(root: &mut SvgElement, extra: Vec<SvgNode>) -> (r: Result<(), String>)
    ensures
        match with_screen_children(elem_view(*old(root)), nodes_view(extra@)) {
            Some(e) => r is Ok && elem_view(*final(root)) == e,
            None => r matches Err(x) && x@ == missing_screen(),
        },
{
    let path = match find_screen(root) {
        Some(p) => p,
        None => {
            return Err("Missing <svg id=\"screen\"> element in template".to_owned());
        },
    };
    proof {
        lemma_screen_path(elem_view(*root));
        assert(path@.skip(0) =~= path@);
    }
    let ghost r0 = elem_view(*root);
    let mut screen = take_at(root, &path, 0);
    let mut extra = extra;
    proof {
        lemma_nodes_view_concat(screen.children@, extra@);
    }
    screen.children.append(&mut extra);
    proof {
        lemma_replace_at(r0, path@, empty_elem(Seq::empty()), elem_view(screen));
    }
    put_at(root, &path, 0, screen);
    Ok(())
}

fn two_nodes(a: SvgElement, b: SvgElement) -> (r: Vec<SvgNode>)
    ensures
        nodes_view(r@) == seq![NodeView::Element(elem_view(a)), NodeView::Element(elem_view(b))],
{
    let mut r: Vec<SvgNode> = Vec::new();
    proof {
        crate::svg::lemma_nodes_view_push(r@, SvgNode::Element(a));
    }
    r.push(SvgNode::Element(a));
    proof {
        crate::svg::lemma_nodes_view_push(r@, SvgNode::Element(b));
    }
    r.push(SvgNode::Element(b));
    assert(nodes_view(r@) =~= seq![NodeView::Element(elem_view(a)), NodeView::Element(elem_view(b))]);
    r
}

/// Draws the frames into a prepared template (see [`spec_animation`]).
pub fn animate_element(prep: SvgElement, frames: &Vec<TimedFrame>, geometry: (u16, u16)) -> (r: Result<AnimationDocument, String>)
    requires
        frames_fit(frames@, geometry.1),
    ensures
        animation_result(r) == spec_animation(elem_view(prep), frames_view(frames@), geometry),
{
    ensure_css_animation(&prep)?;
    let body = render_frames(frames, geometry.1);
    let defs = defs_element(body.definitions);
    let extra = two_nodes(defs, body.screen_view);
    let mut root = prep;
    push_to_screen(&mut root, extra)?;
    Ok(AnimationDocument { root, timings: body.timings, duration: body.duration })
}

/// What preparing a parsed template and animating the frames in it gives.
pub open spec fn prepared_animation(
    t: ElemView,
    frames: Seq<(u64, u64, Map<usize, Map<usize, crate::anim::CellView>>)>,
    geometry: (u16, u16),
    ns: Seq<char>,
) -> Result<(ElemView, Map<u64, i32>, Option<u64>), Seq<char>> {
    match spec_preparation(t, geometry, ns) {
        Err(m) => Err(m),
        Ok(p) => spec_animation(p, frames, geometry),
    }
}

/// Parses a template, prepares it for a screen of `geometry` and draws the
/// frames into it. Bytes that do not parse give `Invalid template`;
/// otherwise the result is what preparing and animating the parsed document
/// gives.
pub fn render_animation(frames: &Vec<TimedFrame>, geometry: (u16, u16), template: &[u8], namespace: &str) -> (r: Result<AnimationDocument, String>)
    requires
        frames_fit(frames@, geometry.1),
    ensures
        xml_document(template@) is None ==> animation_result(r) == Err::<(ElemView, Map<u64, i32>, Option<u64>), Seq<char>>("Invalid template"@),
        xml_document(template@) matches Some(d) ==> exists|t: ElemView| same_but_attribute_order(t, d) && animation_result(r) == #[trigger] prepared_animation(t, frames_view(frames@), geometry, namespace@),
{
    let root = match parse_xml(template) {
        Some(e) => e,
        None => {
            return Err("Invalid template".to_owned());
        },
    };
    let ghost t = elem_view(root);
    let prep = match prepare_element(root, geometry, namespace) {
        Ok(p) => p,
        Err(m) => {
            return Err(m);
        },
    };
    let r = animate_element(prep, frames, geometry);
    assert(animation_result(r) == prepared_animation(t, frames_view(frames@), geometry, namespace@));
    r
}

impl AnimationDocument {
    /// The frame start times with their scroll positions, in order of time,
    /// and the duration of the animation: present when the animation has a
    /// duration and at least one frame start.
    pub fn keyframe_times(&self) -> (r: Option<(Vec<(u64, i32)>, u64)>)
        ensures
            r is Some <==> (self.duration is Some && !self.timings@.is_empty()),
            r matches Some((ks, d)) ==> is_u64_listing(ks@, self.timings@) && self.duration == Some(d),
    {
        match self.duration {
            Some(d) => if self.timings.is_empty() {
                None
            } else {
                Some((u64_listing(&self.timings), d))
            },
            None => None,
        }
    }
}

/// What drawing one frame alone in a prepared template gives: its text
/// definitions and its group in the screen, and the common style sheet.
pub open spec fn spec_still(prep: ElemView, buffer: Map<usize, Map<usize, crate::anim::CellView>>) -> Result<ElemView, Seq<char>> {
    let fr = frame_render(0, buffer, CELL_HEIGHT, CELL_WIDTH, Seq::empty());
    match with_screen_children(prep, seq![NodeView::Element(defs_elem(fr.1)), NodeView::Element(fr.0)]) {
        None => Err(missing_screen()),
        Some(doc) => spec_embed_css(doc, None),
    }
}

/// Draws one frame alone into a copy of a prepared template.
pub fn still_frame_document(prep: &SvgElement, frame: &TimedFrame) -> (r: Result<SvgElement, String>)
    ensures
        elem_result(r) == spec_still(elem_view(*prep), buffer_view(frame.buffer)),
{
    let mut root = prep.deep_copy();
    let empty: DefinitionMap = crate::anim::empty_definitions();
    let (group, defs) = render_timed_frame(0, &frame.buffer, CELL_HEIGHT, CELL_WIDTH, &empty);
    let defs_e = defs_element(defs);
    let extra = two_nodes(defs_e, group);
    push_to_screen(&mut root, extra)?;
    embed_css(&mut root, None)?;
    Ok(root)
}

/// The decimal digits of `n`, with zeros in front up to five digits.
pub open spec fn pad5(n: nat) -> Seq<char> {
    let d = decimal(n);
    if d.len() < 5 {
        Seq::new((5 - d.len()) as nat, |i: int| '0') + d
    } else {
        d
    }
}

/// The file name of the `idx`-th still frame.
pub open spec fn still_frame_file(idx: nat) -> Seq<char> {
    "termtosvg_"@ + pad5(idx) + ".svg"@
}

/// The file name of the `idx`-th still frame: `termtosvg_` and the index in
/// at least five digits.
pub fn still_frame_name(idx: usize) -> (r: String)
    ensures
        r@ == still_frame_file(idx as nat),
{
    let mut digits = String::new();
    push_decimal(&mut digits, idx as u128);
    let ghost d = decimal(idx as nat);
    assert(digits@ =~= d);
    let n = crate::text::chars_of(digits.as_str()).len();
    let mut r = String::new();
    push_str(&mut r, "termtosvg_");
    let mut k: usize = n;
    while k < 5
        invariant
            n == d.len(),
            n <= k <= 5 || (n > 5 && k == n),
            r@ == "termtosvg_"@ + Seq::new((k - n) as nat, |i: int| '0'),
        decreases 5 - k,
    {
        string_push(&mut r, '0');
        assert(r@ =~= "termtosvg_"@ + Seq::new((k + 1 - n) as nat, |i: int| '0'));
        k = k + 1;
    }
    push_str(&mut r, digits.as_str());
    push_str(&mut r, ".svg");
    proof {
        if d.len() >= 5 {
            assert(Seq::new((k - n) as nat, |i: int| '0') =~= Seq::<char>::empty());
        }
        assert(r@ =~= still_frame_file(idx as nat));
    }
    r
}

proof fn lemma_zeros_value(k: nat)
    ensures
        digits_value(Seq::new(k, |i: int| '0')) == 0,
    decreases k,
{
    if k > 0 {
        lemma_zeros_value((k - 1) as nat);
        assert(Seq::new(k, |i: int| '0').drop_last() =~= Seq::new((k - 1) as nat, |i: int| '0'));
        assert(('0' as int) == 48);
    }
}

proof fn lemma_leading_zeros(k: nat, d: Seq<char>)
    ensures
        digits_value(Seq::new(k, |i: int| '0') + d) == digits_value(d),
    decreases d.len(),
{
    let z = Seq::new(k, |i: int| '0');
    if d.len() == 0 {
        assert(z + d =~= z);
        lemma_zeros_value(k);
    } else {
        lemma_leading_zeros(k, d.drop_last());
        assert((z + d).drop_last() =~= z + d.drop_last());
        assert((z + d).last() == d.last());
    }
}

proof fn lemma_pad5_value(n: nat)
    ensures
        digits_value(pad5(n)) == n,
        pad5(n).len() >= 5,
{
    lemma_decimal_digits(n);
    let d = decimal(n);
    if d.len() < 5 {
        lemma_leading_zeros((5 - d.len()) as nat, d);
    }
}

/// Still frames get distinct file names: different indices never give the
/// same name.
pub proof fn law_still_frame_names_distinct(a: nat, b: nat)
    requires
        a != b,
    ensures
        still_frame_file(a) != still_frame_file(b),
{
    lemma_pad5_value(a);
    lemma_pad5_value(b);
    if still_frame_file(a) == still_frame_file(b) {
        let fa = still_frame_file(a);
        let fb = still_frame_file(b);
        reveal_strlit("termtosvg_");
        reveal_strlit(".svg");
        assert("termtosvg_"@.len() == 10);
        assert(".svg"@.len() == 4);
        assert(fa.len() == 10 + pad5(a).len() + 4);
        assert(fb.len() == 10 + pad5(b).len() + 4);
        assert(pad5(a).len() == pad5(b).len());
        assert(fa.subrange(10, 10 + pad5(a).len() as int) =~= pad5(a));
        assert(fb.subrange(10, 10 + pad5(b).len() as int) =~= pad5(b));
        assert(pad5(a) == pad5(b));
    }
}

} // verus!
