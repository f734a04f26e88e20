//! Templates: the SVG document that frames are drawn into, its settings,
//! its screen element, its size and its style sheet.

use vstd::prelude::*;

use crate::svg::{
    attr_insert, attr_lookup, attrs_view, elem_view, empty_elem, lemma_nodes_view_index,
    lemma_nodes_view_len, nodes_view, same_but_attribute_order, ElemView, NodeView, SvgAttributes,
    SvgElement, SvgNode,
};
use crate::text::{
    chars_of, decimal, decimal_string, int_decimal, int_decimal_string, join_with, parse_i32_chars,
    parse_signed, parse_unsigned, parse_unsigned_chars, push_decimal, push_int_decimal, push_str,
    spec_join, split_words, str_eq, string_push, strings_view, words,
};
use crate::tree::{elem_at, lemma_replace_at, put_at, replace_at, take_at};
use crate::xml::{parse_xml, xml_document};

verus! {

/// The position of the last `:` in `s`.
pub open spec fn last_colon(s: Seq<char>) -> Option<int>
    decreases s.len(),
{
    if s.len() == 0 {
        None
    } else if s.last() == ':' {
        Some(s.len() - 1)
    } else {
        last_colon(s.drop_last())
    }
}

/// Whether an element name is `expected`, either whole or after its last
/// `:` (the name without a namespace prefix).
pub open spec fn name_matches(name: Seq<char>, expected: Seq<char>) -> bool {
    name == expected || match last_colon(name) {
        Some(p) => name.skip(p + 1) == expected,
        None => false,
    }
}

/// Whether the element's name is `expected`, with or without a namespace
/// prefix.
pub fn node_name_eq(element: &SvgElement, expected: &str) -> (r: bool)
    ensures
        r == name_matches(element.name@, expected@),
{
    if str_eq(element.name.as_str(), expected) {
        return true;
    }
    let c = chars_of(element.name.as_str());
    let x = chars_of(expected);
    let ghost s = c@;
    let mut k: usize = c.len();
    assert(s.take(s.len() as int) =~= s);
    while k > 0
        invariant
            k <= c@.len(),
            s == c@,
            last_colon(s) == last_colon(s.take(k as int)),
        ensures
            k == 0 || c@[k - 1] == ':',
            k <= c@.len(),
            last_colon(s) == last_colon(s.take(k as int)),
        decreases k,
    {
        assert(s.take(k as int).drop_last() =~= s.take(k - 1));
        if c[k - 1] == ':' {
            break;
        }
        k = k - 1;
    }
    if k == 0 {
        assert(s.take(0) =~= Seq::<char>::empty());
        return false;
    }
    let start = k;
    assert(s.take(start as int).last() == ':');
    assert(last_colon(s) == Some(start - 1));
    assert(name_matches(element.name@, expected@) == (s.skip(start as int) == x@));
    if c.len() - start != x.len() {
        assert(s.skip(start as int).len() != x@.len());
        return false;
    }
    let mut i: usize = 0;
    assert(c@.len() == start + x@.len());
    assert(c@.len() <= usize::MAX);
    while i < x.len()
        invariant
            i <= x@.len(),
            c@.len() == start + x@.len(),
            start + x@.len() <= usize::MAX,
            name_matches(element.name@, expected@) == (s.skip(start as int) == x@),
            1 <= start <= c@.len(),
            s == c@,
            x@ == expected@,
            forall|j: int| 0 <= j < i ==> s[start + j] == x@[j],
        decreases x.len() - i,
    {
        assert(start + i < c@.len());
        let idx: usize = start + i;
        if c[idx] != x[i] {
            assert(s.skip(start as int)[i as int] != x@[i as int]);
            return false;
        }
        i = i + 1;
    }
    assert(s.skip(start as int) =~= x@);
    true
}

/// Whether an element is the screen: `<svg id="screen">`.
pub open spec fn is_screen(e: ElemView) -> bool {
    e.name == "svg"@ && attr_lookup(e.attributes, "id"@) == Some("screen"@)
}

/// The path to the first screen element of `e`, visiting elements before
/// their children and children in order.
pub open spec fn screen_path(e: ElemView) -> Option<Seq<usize>>
    decreases e, 0nat,
{
    if is_screen(e) {
        Some(Seq::empty())
    } else {
        screen_path_nodes(e.children, 0)
    }
}

/// The path to the first screen element among the nodes `cs` from the
/// `i`-th on.
pub open spec fn screen_path_nodes(cs: Seq<NodeView>, i: nat) -> Option<Seq<usize>>
    decreases cs, cs.len() - i,
{
    if i >= cs.len() || i > usize::MAX {
        None
    } else {
        match screen_path_node(cs[i as int]) {
            Some(p) => Some(seq![i as usize] + p),
            None => screen_path_nodes(cs, i + 1),
        }
    }
}

/// The path to the first screen element within a node.
pub open spec fn screen_path_node(n: NodeView) -> Option<Seq<usize>>
    decreases n, 0nat,
{
    match n {
        NodeView::Element(e) => screen_path(e),
        _ => None,
    }
}

/// The path found leads to a screen element.
pub proof fn lemma_screen_path(e: ElemView)
    ensures
        screen_path(e) matches Some(p) ==> elem_at(e, p) matches Some(s) && is_screen(s),
    decreases e, 0nat,
{
    if !is_screen(e) {
        lemma_screen_path_nodes(e, 0);
    }
}

proof fn lemma_screen_path_nodes(e: ElemView, i: nat)
    ensures
        screen_path_nodes(e.children, i) matches Some(p) ==> elem_at(e, p) matches Some(s) && is_screen(s),
    decreases e.children, e.children.len() - i,
{
    if i < e.children.len() && i <= usize::MAX {
        let n = e.children[i as int];
        if let NodeView::Element(c) = n {
            lemma_screen_path(c);
            assert(screen_path_node(n) == screen_path(c));
            if let Some(p) = screen_path(c) {
                let q = seq![i as usize] + p;
                assert(screen_path_nodes(e.children, i) == Some(q));
                assert(q.drop_first() =~= p);
                assert(q[0] as int == i);
                assert(elem_at(e, q) == elem_at(c, p));
            } else {
                assert(screen_path_nodes(e.children, i) == screen_path_nodes(e.children, i + 1));
                lemma_screen_path_nodes(e, i + 1);
            }
        } else {
            assert(screen_path_node(n) is None);
            assert(screen_path_nodes(e.children, i) == screen_path_nodes(e.children, i + 1));
            lemma_screen_path_nodes(e, i + 1);
        }
    }
}

fn is_screen_elem(e: &SvgElement) -> (r: bool)
    ensures
        r == is_screen(elem_view(*e)),
{
    if !str_eq(e.name.as_str(), "svg") {
        return false;
    }
    match e.attributes.get("id") {
        Some(v) => str_eq(v.as_str(), "screen"),
        None => false,
    }
}

/// The path to the screen element: the first `<svg id="screen">` element,
/// visiting elements before their children.
pub fn find_screen(e: &SvgElement) -> (r: Option<Vec<usize>>)
    ensures
        match r {
            Some(p) => screen_path(elem_view(*e)) == Some(p@),
            None => screen_path(elem_view(*e)) is None,
        },
    decreases e,
{
    if is_screen_elem(e) {
        let p: Vec<usize> = Vec::new();
        assert(p@ =~= Seq::<usize>::empty());
        return Some(p);
    }
    let ghost cs = elem_view(*e).children;
    proof {
        lemma_nodes_view_len(e.children@);
    }
    let mut i: usize = 0;
    while i < e.children.len()
        invariant
            i <= e.children@.len(),
            cs == nodes_view(e.children@),
            cs.len() == e.children@.len(),
            !is_screen(elem_view(*e)),
            screen_path(elem_view(*e)) == screen_path_nodes(cs, i as nat),
        decreases e.children.len() - i,
    {
        proof {
            lemma_nodes_view_index(e.children@, i as int);
        }
        assert(cs[i as int] == crate::svg::node_view(e.children@[i as int]));
        match &e.children[i] {
            SvgNode::Element(c) => {
                assert(cs[i as int] == NodeView::Element(elem_view(*c)));
                assert(decreases_to!(e => c)) by {
                    assert(decreases_to!(e => e.children));
                    assert(decreases_to!(e.children => e.children@));
                    assert(decreases_to!(e.children@ => e.children@[i as int]));
                }
                match find_screen(c) {
                    Some(p) => {
                        let mut r: Vec<usize> = Vec::new();
                        r.push(i);
                        let mut p = p;
                        r.append(&mut p);
                        assert(r@ =~= seq![i] + screen_path(elem_view(*c)).unwrap());
                        return Some(r);
                    },
                    None => {
                        assert(screen_path_node(cs[i as int]) is None);
                    },
                }
            },
            _ => {
                assert(screen_path_node(cs[i as int]) is None);
            },
        }
        i = i + 1;
    }
    None
}

/// The `i32` that wrapping addition of `a` and `b` gives.
pub open spec fn wrap_i32(a: int, b: int) -> int {
    vstd::wrapping::i32_specs::wrapping_add(a as i32, b as i32) as int
}

/// The message for a non-numeric size attribute.
pub open spec fn numeric_error(name: Seq<char>) -> Seq<char> {
    "Attribute "@ + name + " must be numeric"@
}

/// What adding `delta` to the numeric attribute `name` gives: nothing
/// changes when `delta` is zero or the attribute is absent; otherwise the
/// attribute must hold an `i32`, and it gets the wrapping sum.
pub open spec fn spec_adjust(a: Seq<(Seq<char>, Seq<char>)>, name: Seq<char>, delta: int) -> Result<
    Seq<(Seq<char>, Seq<char>)>,
    Seq<char>,
> {
    if delta == 0 {
        Ok(a)
    } else {
        match attr_lookup(a, name) {
            None => Ok(a),
            Some(v) => match parse_signed(v, i32::MIN as int, i32::MAX as nat) {
                None => Err(numeric_error(name)),
                Some(cur) => Ok(attr_insert(a, name, int_decimal(wrap_i32(cur, delta)))),
            },
        }
    }
}

fn adjust_numeric_attr(element: &mut SvgElement, name: &str, delta: i32) -> (r: Result<(), String>)
    ensures
        match spec_adjust(attrs_view(old(element).attributes.entries@), name@, delta as int) {
            Ok(a) => r is Ok && elem_view(*final(element)) == (ElemView { attributes: a, ..elem_view(*old(element)) }),
            Err(m) => r matches Err(x) && x@ == m,
        },
{
    if delta == 0 {
        return Ok(());
    }
    let current = match element.attributes.get(name) {
        None => {
            return Ok(());
        },
        Some(value) => {
            let c = chars_of(value.as_str());
            match parse_i32_chars(&c) {
                Some(v) => v,
                None => {
                    let mut m = String::new();
                    push_str(&mut m, "Attribute ");
                    push_str(&mut m, name);
                    push_str(&mut m, " must be numeric");
                    assert(m@ =~= numeric_error(name@));
                    return Err(m);
                },
            }
        },
    };
    let value = int_decimal_string(current.wrapping_add(delta) as i64);
    element.attributes.insert(name.to_owned(), value);
    Ok(())
}

/// The text of a `viewBox` value with commas read as spaces.
pub open spec fn viewbox_text(v: Seq<char>) -> Seq<char> {
    Seq::new(v.len(), |i: int| if v[i] == ',' { ' ' } else { v[i] })
}

/// The message for a `viewBox` that is not four integers.
pub open spec fn viewbox_error() -> Seq<char> {
    "Invalid viewBox attribute"@
}

/// Four numbers written with single spaces between them.
pub open spec fn four_numbers(a: int, b: int, c: int, d: int) -> Seq<char> {
    int_decimal(a) + seq![' '] + int_decimal(b) + seq![' '] + int_decimal(c) + seq![' '] + int_decimal(d)
}

/// What resizing an element by `dc` columns and `dr` rows gives: its
/// `viewBox` (four integers) grows by the cells' width and height, and so do
/// its `width` and `height` attributes when it has them. Nothing changes when
/// both deltas are zero.
pub open spec fn spec_apply_scale(e: ElemView, dc: int, dr: int) -> Result<ElemView, Seq<char>> {
    if dc == 0 && dr == 0 {
        Ok(e)
    } else {
        match attr_lookup(e.attributes, "viewBox"@) {
            None => Err("Missing \"viewBox\" attribute"@),
            Some(v) => {
                let parts = words(viewbox_text(v));
                let i32_min = i32::MIN as int;
                let i32_max = i32::MAX as nat;
                if parts.len() != 4 || parse_signed(parts[0], i32_min, i32_max) is None || parse_signed(
                    parts[1],
                    i32_min,
                    i32_max,
                ) is None || parse_signed(parts[2], i32_min, i32_max) is None || parse_signed(
                    parts[3],
                    i32_min,
                    i32_max,
                ) is None {
                    Err(viewbox_error())
                } else {
                    let min_x = parse_signed(parts[0], i32_min, i32_max).unwrap();
                    let min_y = parse_signed(parts[1], i32_min, i32_max).unwrap();
                    let width = wrap_i32(parse_signed(parts[2], i32_min, i32_max).unwrap(), dc * 8);
                    let height = wrap_i32(parse_signed(parts[3], i32_min, i32_max).unwrap(), dr * 17);
                    let a1 = attr_insert(e.attributes, "viewBox"@, four_numbers(min_x, min_y, width, height));
                    match spec_adjust(a1, "width"@, dc * 8) {
                        Err(m) => Err(m),
                        Ok(a2) => match spec_adjust(a2, "height"@, dr * 17) {
                            Err(m) => Err(m),
                            Ok(a3) => Ok(ElemView { attributes: a3, ..e }),
                        },
                    }
                }
            },
        }
    }
}

fn parse_part(parts: &Vec<Vec<char>>, i: usize) -> (r: Option<i32>)
    requires
        i < parts@.len(),
    ensures
        r matches Some(v) ==> parse_signed(parts@[i as int]@, i32::MIN as int, i32::MAX as nat) == Some(v as int),
        r is None ==> parse_signed(parts@[i as int]@, i32::MIN as int, i32::MAX as nat) is None,
{
    parse_i32_chars(&parts[i])
}

/// Resizes an element by `delta_columns` columns and `delta_rows` rows.
fn apply_scale(element: &mut SvgElement, delta_columns: i32, delta_rows: i32) -> (r: Result<(), String>)
    requires
        -65535 <= delta_columns <= 65535,
        -65535 <= delta_rows <= 65535,
    ensures
        match spec_apply_scale(elem_view(*old(element)), delta_columns as int, delta_rows as int) {
            Ok(e) => r is Ok && elem_view(*final(element)) == e,
            Err(m) => r matches Err(x) && x@ == m,
        },
{
    if delta_columns == 0 && delta_rows == 0 {
        return Ok(());
    }
    let v = match element.attributes.get("viewBox") {
        Some(v) => chars_of(v.as_str()),
        None => {
            return Err("Missing \"viewBox\" attribute".to_owned());
        },
    };
    let mut text: Vec<char> = Vec::new();
    let mut i: usize = 0;
    while i < v.len()
        invariant
            i <= v@.len(),
            text@ == viewbox_text(v@).take(i as int),
        decreases v.len() - i,
    {
        text.push(if v[i] == ',' { ' ' } else { v[i] });
        assert(text@ =~= viewbox_text(v@).take(i + 1));
        i = i + 1;
    }
    assert(text@ =~= viewbox_text(v@));
    let parts = split_words(&text);
    let ghost ps = Seq::new(parts@.len(), |k: int| parts@[k]@);
    assert(ps == words(viewbox_text(v@)));
    if parts.len() != 4 {
        return Err("Invalid viewBox attribute".to_owned());
    }
    assert(ps[0] == parts@[0]@ && ps[1] == parts@[1]@ && ps[2] == parts@[2]@ && ps[3] == parts@[3]@);
    let min_x = match parse_part(&parts, 0) {
        Some(x) => x,
        None => {
            return Err("Invalid viewBox attribute".to_owned());
        },
    };
    let min_y = match parse_part(&parts, 1) {
        Some(x) => x,
        None => {
            return Err("Invalid viewBox attribute".to_owned());
        },
    };
    let width0 = match parse_part(&parts, 2) {
        Some(x) => x,
        None => {
            return Err("Invalid viewBox attribute".to_owned());
        },
    };
    let height0 = match parse_part(&parts, 3) {
        Some(x) => x,
        None => {
            return Err("Invalid viewBox attribute".to_owned());
        },
    };
    let dw: i32 = delta_columns * 8;
    let dh: i32 = delta_rows * 17;
    let width = width0.wrapping_add(dw);
    let height = height0.wrapping_add(dh);
    let mut value = String::new();
    push_int_decimal(&mut value, min_x as i64);
    string_push(&mut value, ' ');
    push_int_decimal(&mut value, min_y as i64);
    string_push(&mut value, ' ');
    push_int_decimal(&mut value, width as i64);
    string_push(&mut value, ' ');
    push_int_decimal(&mut value, height as i64);
    assert(value@ =~= four_numbers(min_x as int, min_y as int, width as int, height as int));
    element.attributes.insert("viewBox".to_owned(), value);
    adjust_numeric_attr(element, "width", dw)?;
    adjust_numeric_attr(element, "height", dh)?;
    Ok(())
}

/// The element child at index `i`.
pub open spec fn child_at(e: ElemView, i: int) -> ElemView {
    e.children[i]->Element_0
}

/// `e` with its child at index `i` replaced by the element `c`.
pub open spec fn set_child(e: ElemView, i: int, c: ElemView) -> ElemView {
    ElemView { children: e.children.update(i, NodeView::Element(c)), ..e }
}

/// Setting a child twice keeps the second one.
pub proof fn lemma_set_child_twice(e: ElemView, i: int, a: ElemView, b: ElemView)
    requires
        0 <= i < e.children.len(),
    ensures
        set_child(set_child(e, i, a), i, b) == set_child(e, i, b),
{
    assert(set_child(set_child(e, i, a), i, b).children =~= set_child(e, i, b).children);
}

/// Putting a child element back where it was gives the element unchanged.
pub proof fn lemma_set_child_same(e: ElemView, i: int)
    requires
        0 <= i < e.children.len(),
        e.children[i] is Element,
    ensures
        set_child(e, i, child_at(e, i)) == e,
{
    assert(set_child(e, i, child_at(e, i)).children =~= e.children);
}

/// A fresh element with the given name and attributes.
pub open spec fn new_elem_with(name: Seq<char>, attributes: Seq<(Seq<char>, Seq<char>)>) -> ElemView {
    ElemView { attributes, ..empty_elem(name) }
}

/// The index of the first child element from the `i`-th on whose name is
/// `name` (with or without a namespace prefix).
pub open spec fn child_named_from(cs: Seq<NodeView>, name: Seq<char>, i: nat) -> Option<int>
    decreases cs.len() - i,
{
    if i >= cs.len() || i > usize::MAX {
        None
    } else if cs[i as int] matches NodeView::Element(c) && name_matches(c.name, name) {
        Some(i as int)
    } else {
        child_named_from(cs, name, i + 1)
    }
}

/// The index of the first child element of `e` named `name`.
pub open spec fn child_named(e: ElemView, name: Seq<char>) -> Option<int> {
    child_named_from(e.children, name, 0)
}

proof fn lemma_child_named_from(cs: Seq<NodeView>, name: Seq<char>, i: nat)
    ensures
        child_named_from(cs, name, i) matches Some(k) ==> i <= k < cs.len() && k <= usize::MAX
            && cs[k] is Element && name_matches(cs[k]->Element_0.name, name),
    decreases cs.len() - i,
{
    if i < cs.len() && i <= usize::MAX {
        lemma_child_named_from(cs, name, i + 1);
    }
}

/// The index of the first child element named `name`.
fn find_child_index(e: &SvgElement, name: &str) -> (r: Option<usize>)
    ensures
        match r {
            Some(i) => child_named(elem_view(*e), name@) == Some(i as int),
            None => child_named(elem_view(*e), name@) is None,
        },
{
    let ghost cs = elem_view(*e).children;
    proof {
        lemma_nodes_view_len(e.children@);
    }
    let mut i: usize = 0;
    while i < e.children.len()
        invariant
            i <= e.children@.len(),
            cs == nodes_view(e.children@),
            cs.len() == e.children@.len(),
            child_named(elem_view(*e), name@) == child_named_from(cs, name@, i as nat),
        decreases e.children.len() - i,
    {
        proof {
            lemma_nodes_view_index(e.children@, i as int);
        }
        if let SvgNode::Element(c) = &e.children[i] {
            assert(cs[i as int] == NodeView::Element(elem_view(*c)));
            if node_name_eq(c, name) {
                return Some(i);
            }
        }
        i = i + 1;
    }
    None
}

/// `e` with a child element named `name`: the first one it has, or `fresh`
/// added at the end; and the index of that child.
pub open spec fn ensured_child(e: ElemView, name: Seq<char>, fresh: ElemView) -> (ElemView, int) {
    match child_named(e, name) {
        Some(i) => (e, i),
        None => (ElemView { children: e.children.push(NodeView::Element(fresh)), ..e }, e.children.len() as int),
    }
}

/// Makes sure that `parent` has a child element named `name`, adding
/// `fresh` at the end when it has none, and gives that child's index.
fn ensure_child(parent: &mut SvgElement, name: &str, fresh: SvgElement) -> (r: usize)
    ensures
        (elem_view(*final(parent)), r as int) == ensured_child(elem_view(*old(parent)), name@, elem_view(fresh)),
        r < elem_view(*final(parent)).children.len(),
        elem_view(*final(parent)).children[r as int] is Element,
{
    proof {
        lemma_child_named_from(elem_view(*parent).children, name@, 0);
        lemma_nodes_view_len(parent.children@);
    }
    match find_child_index(parent, name) {
        Some(i) => i,
        None => {
            let n = parent.children.len();
            parent.push_child(SvgNode::Element(fresh));
            n
        },
    }
}

/// Takes the child element at index `i` out, leaving an empty element.
fn take_child(e: &mut SvgElement, i: usize) -> (c: SvgElement)
    requires
        i < elem_view(*old(e)).children.len(),
        elem_view(*old(e)).children[i as int] is Element,
    ensures
        elem_view(c) == child_at(elem_view(*old(e)), i as int),
        elem_view(*final(e)) == set_child(elem_view(*old(e)), i as int, empty_elem(Seq::empty())),
{
    let mut p: Vec<usize> = Vec::new();
    p.push(i);
    proof {
        lemma_nodes_view_len(e.children@);
        assert(p@.skip(0) =~= seq![i]);
        assert(seq![i].drop_first() =~= Seq::<usize>::empty());
    }
    proof {
        let ev = elem_view(*e);
        let q = seq![i];
        let ch = child_at(ev, i as int);
        assert(elem_at(ch, q.drop_first()) == Some(ch));
        assert(elem_at(ev, q) == Some(ch));
        assert(replace_at(ch, q.drop_first(), empty_elem(Seq::empty())) == empty_elem(Seq::empty()));
        assert(replace_at(ev, q, empty_elem(Seq::empty())) == set_child(ev, i as int, empty_elem(Seq::empty())));
    }
    let c = take_at(e, &p, 0);
    c
}

/// Puts `c` back as the child at index `i`.
fn put_child(e: &mut SvgElement, i: usize, c: SvgElement)
    requires
        i < elem_view(*old(e)).children.len(),
        elem_view(*old(e)).children[i as int] is Element,
    ensures
        elem_view(*final(e)) == set_child(elem_view(*old(e)), i as int, elem_view(c)),
{
    let mut p: Vec<usize> = Vec::new();
    p.push(i);
    proof {
        lemma_nodes_view_len(e.children@);
        assert(p@.skip(0) =~= seq![i]);
        assert(seq![i].drop_first() =~= Seq::<usize>::empty());
    }
    proof {
        let ev = elem_view(*e);
        let q = seq![i];
        let ch = child_at(ev, i as int);
        assert(elem_at(ch, q.drop_first()) == Some(ch));
        assert(elem_at(ev, q) == Some(ch));
        assert(replace_at(ch, q.drop_first(), elem_view(c)) == elem_view(c));
        assert(replace_at(ev, q, elem_view(c)) == set_child(ev, i as int, elem_view(c)));
    }
    put_at(e, &p, 0, c);
}

/// The element with the `termtosvg` namespace set to `ns`, in it and all
/// its descendants: in their namespace declarations where they have them, and
/// in their `xmlns:termtosvg` attribute where they have one.
pub open spec fn spec_apply_ns(e: ElemView, ns: Seq<char>) -> ElemView
    decreases e, 0nat,
{
    ElemView {
        namespaces: match e.namespaces {
            Some(m) => Some(attr_insert(m, "termtosvg"@, ns)),
            None => None,
        },
        attributes: if attr_lookup(e.attributes, "xmlns:termtosvg"@) is Some {
            attr_insert(e.attributes, "xmlns:termtosvg"@, ns)
        } else {
            e.attributes
        },
        children: ns_nodes(e.children, ns),
        ..e
    }
}

pub open spec fn ns_nodes(cs: Seq<NodeView>, ns: Seq<char>) -> Seq<NodeView>
    decreases cs, 1nat,
{
    if cs.len() == 0 {
        Seq::empty()
    } else {
        ns_nodes(cs.drop_last(), ns).push(ns_node(cs.last(), ns))
    }
}

pub open spec fn ns_node(n: NodeView, ns: Seq<char>) -> NodeView
    decreases n, 2nat,
{
    match n {
        NodeView::Element(e) => NodeView::Element(spec_apply_ns(e, ns)),
        _ => n,
    }
}

proof fn lemma_ns_nodes(cs: Seq<NodeView>, ns: Seq<char>)
    ensures
        ns_nodes(cs, ns).len() == cs.len(),
        forall|j: int| 0 <= j < cs.len() ==> #[trigger] ns_nodes(cs, ns)[j] == ns_node(cs[j], ns),
    decreases cs.len(),
{
    if cs.len() > 0 {
        lemma_ns_nodes(cs.drop_last(), ns);
    }
}

/// Sets the `termtosvg` namespace to `namespace` in the element and all its
/// descendants.
fn apply_namespace(element: &mut SvgElement, namespace: &str)
    ensures
        elem_view(*final(element)) == spec_apply_ns(elem_view(*old(element)), namespace@),
    decreases *old(element),
{
    let ghost old_e = *element;
    match element.namespaces.take() {
        Some(mut m) => {
            m.insert("termtosvg".to_owned(), namespace.to_owned());
            element.namespaces = Some(m);
        },
        None => {},
    }
    if element.attributes.get("xmlns:termtosvg").is_some() {
        element.attributes.insert("xmlns:termtosvg".to_owned(), namespace.to_owned());
    }
    let ghost ocs = old_e.children@;
    let ghost ov = nodes_view(ocs);
    proof {
        lemma_nodes_view_len(ocs);
        lemma_ns_nodes(ov, namespace@);
    }
    let mut i: usize = 0;
    while i < element.children.len()
        invariant
            i <= element.children@.len(),
            element.children@.len() == ocs.len(),
            ov == nodes_view(ocs),
            ov.len() == ocs.len(),
            old_e == *old(element),
            ocs == old_e.children@,
            forall|j: int| i <= j < ocs.len() ==> element.children@[j] == ocs[j],
            forall|j: int| 0 <= j < i ==> #[trigger] crate::svg::node_view(element.children@[j]) == ns_node(ov[j], namespace@),
            element.name == old_e.name,
            element.prefix == old_e.prefix,
            element.namespace == old_e.namespace,
            crate::svg::opt_attrs_view(element.namespaces) == (match elem_view(old_e).namespaces {
                Some(m) => Some(attr_insert(m, "termtosvg"@, namespace@)),
                None => None,
            }),
            attrs_view(element.attributes.entries@) == (if attr_lookup(elem_view(old_e).attributes, "xmlns:termtosvg"@) is Some {
                attr_insert(elem_view(old_e).attributes, "xmlns:termtosvg"@, namespace@)
            } else {
                elem_view(old_e).attributes
            }),
        decreases element.children.len() - i,
    {
        proof {
            lemma_nodes_view_index(ocs, i as int);
        }
        let ghost before = element.children@;
        let node = element.children.remove(i);
        let node2 = match node {
            SvgNode::Element(mut c) => {
                assert(decreases_to!(old_e => c)) by {
                    assert(decreases_to!(old_e => old_e.children));
                    assert(decreases_to!(old_e.children => old_e.children@));
                    assert(decreases_to!(old_e.children@ => old_e.children@[i as int]));
                }
                apply_namespace(&mut c, namespace);
                SvgNode::Element(c)
            },
            other => other,
        };
        element.children.insert(i, node2);
        assert(element.children@ =~= before.update(i as int, node2));
        i = i + 1;
    }
    proof {
        lemma_nodes_view_len(element.children@);
        assert forall|j: int| 0 <= j < ocs.len() implies #[trigger] nodes_view(element.children@)[j] == ns_nodes(ov, namespace@)[j] by {
            lemma_nodes_view_index(element.children@, j);
        }
        assert(nodes_view(element.children@) =~= ns_nodes(ov, namespace@));
    }
}

/// The attribute `name` of the screen geometry read as a `u16`, or the
/// message for a missing or invalid one.
pub open spec fn geometry_attr(g: ElemView, name: Seq<char>) -> Result<u16, Seq<char>> {
    match attr_lookup(g.attributes, name) {
        None => Err("Missing \""@ + name + "\" attribute in screen_geometry"@),
        Some(v) => match parse_unsigned(v, 0xffff) {
            None => Err("Invalid \""@ + name + "\" attribute in screen_geometry"@),
            Some(n) => Ok(n as u16),
        },
    }
}

/// A fresh `template_settings` element: it declares the `termtosvg` prefix
/// when a namespace `ns` is given.
pub open spec fn fresh_settings(ns: Seq<char>) -> ElemView {
    if ns.len() > 0 {
        new_elem_with("termtosvg:template_settings"@, seq![("xmlns:termtosvg"@, ns)])
    } else {
        empty_elem("termtosvg:template_settings"@)
    }
}

/// The template settings in `defs` with their children in place: `defs`
/// with its `template_settings` element (added when missing, declaring the
/// `termtosvg` prefix when a namespace `ns` is given; `ns` is applied to it
/// then) and that element's index, then the element with its `animation`
/// (CSS by default) and `screen_geometry` (the given size by default)
/// children, and the index of `screen_geometry`.
pub open spec fn settings_in_place(defs: ElemView, columns: u16, rows: u16, ns: Seq<char>) -> (
    ElemView,
    int,
    ElemView,
    int,
) {
    let (d1, si) = ensured_child(defs, "template_settings"@, fresh_settings(ns));
    let s0 = child_at(d1, si);
    let s1 = if ns.len() > 0 {
        spec_apply_ns(s0, ns)
    } else {
        s0
    };
    let s2 = ensured_child(s1, "animation"@, new_elem_with("termtosvg:animation"@, seq![("type"@, "css"@)])).0;
    let (s3, gi) = ensured_child(
        s2,
        "screen_geometry"@,
        new_elem_with("termtosvg:screen_geometry"@, seq![("columns"@, decimal(columns as nat)), ("rows"@, decimal(rows as nat))]),
    );
    (d1, si, s3, gi)
}

/// What settling the template settings in `defs` gives: the settings with
/// their children in place (see [`settings_in_place`]); the geometry the
/// template was drawn for, read from `screen_geometry`, which then takes the
/// given size.
pub open spec fn spec_template_settings(defs: ElemView, columns: u16, rows: u16, ns: Seq<char>) -> Result<
    (ElemView, (u16, u16)),
    Seq<char>,
> {
    let (d1, si, s3, gi) = settings_in_place(defs, columns, rows, ns);
    let g = child_at(s3, gi);
    match geometry_attr(g, "columns"@) {
        Err(m) => Err(m),
        Ok(tc) => match geometry_attr(g, "rows"@) {
            Err(m) => Err(m),
            Ok(tr) => {
                let g2 = ElemView {
                    attributes: attr_insert(
                        attr_insert(g.attributes, "columns"@, decimal(columns as nat)),
                        "rows"@,
                        decimal(rows as nat),
                    ),
                    ..g
                };
                Ok((set_child(d1, si, set_child(s3, gi, g2)), (tc, tr)))
            },
        },
    }
}

fn attr_pair(k: &str, v: String) -> (r: (String, String))
    ensures
        r.0@ == k@,
        r.1@ == v@,
{
    (k.to_owned(), v)
}

fn elem_with(name: &str, entries: Vec<(String, String)>) -> (r: SvgElement)
    ensures
        elem_view(r) == new_elem_with(name@, attrs_view(entries@)),
{
    let r = SvgElement {
        prefix: None,
        namespace: None,
        namespaces: None,
        name: name.to_owned(),
        attributes: SvgAttributes { entries },
        children: Vec::new(),
    };
    assert(nodes_view(r.children@) =~= Seq::empty());
    r
}

fn read_geometry_attr(g: &SvgElement, name: &str) -> (r: Result<u16, String>)
    ensures
        match geometry_attr(elem_view(*g), name@) {
            Ok(n) => r == Ok::<u16, String>(n),
            Err(m) => r matches Err(x) && x@ == m,
        },
{
    match g.attributes.get(name) {
        None => {
            let mut m = String::new();
            push_str(&mut m, "Missing \"");
            push_str(&mut m, name);
            push_str(&mut m, "\" attribute in screen_geometry");
            assert(m@ =~= "Missing \""@ + name@ + "\" attribute in screen_geometry"@);
            Err(m)
        },
        Some(v) => {
            let c = chars_of(v.as_str());
            match parse_unsigned_chars(&c, 0xffff) {
                Some(n) => Ok(n as u16),
                None => {
                    let mut m = String::new();
                    push_str(&mut m, "Invalid \"");
                    push_str(&mut m, name);
                    push_str(&mut m, "\" attribute in screen_geometry");
                    assert(m@ =~= "Invalid \""@ + name@ + "\" attribute in screen_geometry"@);
                    Err(m)
                },
            }
        },
    }
}

/// Settles the template settings in `defs` and gives the geometry that the
/// template was drawn for. On an error, `defs` keeps the settings with the
/// children added to them.
fn ensure_template_settings(defs: &mut SvgElement, columns: u16, rows: u16, namespace: &str) -> (r: Result<(u16, u16), String>)
    ensures
        match spec_template_settings(elem_view(*old(defs)), columns, rows, namespace@) {
            Ok((d, g)) => r == Ok::<(u16, u16), String>(g) && elem_view(*final(defs)) == d,
            Err(m) => r matches Err(x) && x@ == m && elem_view(*final(defs)) == ({
                let (d1, si, s3, gi) = settings_in_place(elem_view(*old(defs)), columns, rows, namespace@);
                set_child(d1, si, s3)
            }),
        },
{
    let fresh = if namespace.is_empty() {
        SvgElement::new("termtosvg:template_settings")
    } else {
        let mut attrs: Vec<(String, String)> = Vec::new();
        attrs.push(attr_pair("xmlns:termtosvg", namespace.to_owned()));
        assert(attrs_view(attrs@) =~= seq![("xmlns:termtosvg"@, namespace@)]);
        elem_with("termtosvg:template_settings", attrs)
    };
    let si = ensure_child(defs, "template_settings", fresh);
    let ghost d1 = elem_view(*defs);
    let mut settings = take_child(defs, si);
    if !namespace.is_empty() {
        apply_namespace(&mut settings, namespace);
    }
    let mut animation_attrs: Vec<(String, String)> = Vec::new();
    animation_attrs.push(attr_pair("type", "css".to_owned()));
    assert(attrs_view(animation_attrs@) =~= seq![("type"@, "css"@)]);
    let _ai = ensure_child(&mut settings, "animation", elem_with("termtosvg:animation", animation_attrs));
    let mut geometry_attrs: Vec<(String, String)> = Vec::new();
    geometry_attrs.push(attr_pair("columns", decimal_string(columns as u128)));
    geometry_attrs.push(attr_pair("rows", decimal_string(rows as u128)));
    assert(attrs_view(geometry_attrs@) =~= seq![("columns"@, decimal(columns as nat)), ("rows"@, decimal(rows as nat))]);
    let gi = ensure_child(&mut settings, "screen_geometry", elem_with("termtosvg:screen_geometry", geometry_attrs));
    let ghost s3 = elem_view(settings);
    let mut geometry = take_child(&mut settings, gi);
    proof {
        lemma_set_child_same(s3, gi as int);
        lemma_set_child_twice(s3, gi as int, empty_elem(Seq::empty()), elem_view(geometry));
    }
    let template_columns = match read_geometry_attr(&geometry, "columns") {
        Ok(v) => v,
        Err(m) => {
            put_child(&mut settings, gi, geometry);
            put_child(defs, si, settings);
            proof {
                lemma_set_child_twice(d1, si as int, empty_elem(Seq::empty()), s3);
            }
            return Err(m);
        },
    };
    let template_rows = match read_geometry_attr(&geometry, "rows") {
        Ok(v) => v,
        Err(m) => {
            put_child(&mut settings, gi, geometry);
            put_child(defs, si, settings);
            proof {
                lemma_set_child_twice(d1, si as int, empty_elem(Seq::empty()), s3);
            }
            return Err(m);
        },
    };
    geometry.attributes.insert("columns".to_owned(), decimal_string(columns as u128));
    geometry.attributes.insert("rows".to_owned(), decimal_string(rows as u128));
    put_child(&mut settings, gi, geometry);
    proof {
        lemma_set_child_twice(s3, gi as int, empty_elem(Seq::empty()), elem_view(geometry));
    }
    put_child(defs, si, settings);
    proof {
        lemma_set_child_twice(d1, si as int, empty_elem(Seq::empty()), elem_view(settings));
    }
    Ok((template_columns, template_rows))
}

/// Whether `e` is the generated style sheet: `<style id="generated-style">`.
pub open spec fn is_generated_style(e: ElemView) -> bool {
    e.name == "style"@ && attr_lookup(e.attributes, "id"@) == Some("generated-style"@)
}

/// The index of the first generated style sheet among the nodes `cs` from
/// the `i`-th on.
pub open spec fn style_from(cs: Seq<NodeView>, i: nat) -> Option<int>
    decreases cs.len() - i,
{
    if i >= cs.len() || i > usize::MAX {
        None
    } else if cs[i as int] matches NodeView::Element(c) && is_generated_style(c) {
        Some(i as int)
    } else {
        style_from(cs, i + 1)
    }
}

proof fn lemma_style_from(cs: Seq<NodeView>, i: nat)
    ensures
        style_from(cs, i) matches Some(k) ==> i <= k < cs.len() && k <= usize::MAX && cs[k] is Element
            && is_generated_style(cs[k]->Element_0),
    decreases cs.len() - i,
{
    if i < cs.len() && i <= usize::MAX {
        lemma_style_from(cs, i + 1);
    }
}

fn is_generated_style_elem(e: &SvgElement) -> (r: bool)
    ensures
        r == is_generated_style(elem_view(*e)),
{
    if !str_eq(e.name.as_str(), "style") {
        return false;
    }
    match e.attributes.get("id") {
        Some(v) => str_eq(v.as_str(), "generated-style"),
        None => false,
    }
}

/// The index of the first generated style sheet among the children of `e`.
fn find_style_index(e: &SvgElement) -> (r: Option<usize>)
    ensures
        match r {
            Some(i) => style_from(elem_view(*e).children, 0) == Some(i as int),
            None => style_from(elem_view(*e).children, 0) is None,
        },
{
    let ghost cs = elem_view(*e).children;
    proof {
        lemma_nodes_view_len(e.children@);
    }
    let mut i: usize = 0;
    while i < e.children.len()
        invariant
            i <= e.children@.len(),
            cs == nodes_view(e.children@),
            cs.len() == e.children@.len(),
            style_from(cs, 0) == style_from(cs, i as nat),
        decreases e.children.len() - i,
    {
        proof {
            lemma_nodes_view_index(e.children@, i as int);
        }
        if let SvgNode::Element(c) = &e.children[i] {
            assert(cs[i as int] == NodeView::Element(elem_view(*c)));
            if is_generated_style_elem(c) {
                return Some(i);
            }
        }
        i = i + 1;
    }
    None
}

/// The generated style sheet element, empty.
pub open spec fn generated_style() -> ElemView {
    new_elem_with("style"@, seq![("id"@, "generated-style"@), ("type"@, "text/css"@)])
}

/// `defs` with a generated style sheet: unchanged when it has one, else with
/// an empty one added at the end.
pub open spec fn spec_ensure_style(defs: ElemView) -> ElemView {
    if style_from(defs.children, 0) is Some {
        defs
    } else {
        ElemView { children: defs.children.push(NodeView::Element(generated_style())), ..defs }
    }
}

fn ensure_style(defs: &mut SvgElement)
    ensures
        elem_view(*final(defs)) == spec_ensure_style(elem_view(*old(defs))),
{
    if find_style_index(defs).is_some() {
        return;
    }
    let mut attrs: Vec<(String, String)> = Vec::new();
    attrs.push(attr_pair("id", "generated-style".to_owned()));
    attrs.push(attr_pair("type", "text/css".to_owned()));
    assert(attrs_view(attrs@) =~= seq![("id"@, "generated-style"@), ("type"@, "text/css"@)]);
    defs.push_child(SvgNode::Element(elem_with("style", attrs)));
}

/// What settling a template's defaults gives: its `<defs>` element (added
/// when missing) with settled template settings and a generated style
/// sheet, and the geometry the template was drawn for. On an error the
/// `<defs>` element and the settings keep what was added to them.
pub open spec fn spec_template_defaults(root: ElemView, geometry: (u16, u16), ns: Seq<char>) -> Result<
    (ElemView, (u16, u16)),
    Seq<char>,
> {
    let (r1, di) = ensured_child(root, "defs"@, empty_elem("defs"@));
    match spec_template_settings(child_at(r1, di), geometry.0, geometry.1, ns) {
        Err(m) => Err(m),
        Ok((d2, g)) => Ok((set_child(r1, di, spec_ensure_style(d2)), g)),
    }
}

fn ensure_template_defaults(root: &mut SvgElement, geometry: (u16, u16), namespace: &str) -> (r: Result<(u16, u16), String>)
    ensures
        match spec_template_defaults(elem_view(*old(root)), geometry, namespace@) {
            Ok((e, g)) => r == Ok::<(u16, u16), String>(g) && elem_view(*final(root)) == e,
            Err(m) => r matches Err(x) && x@ == m && elem_view(*final(root)) == ({
                let (r1, di) = ensured_child(elem_view(*old(root)), "defs"@, empty_elem("defs"@));
                let (d1, si, s3, gi) = settings_in_place(child_at(r1, di), geometry.0, geometry.1, namespace@);
                set_child(r1, di, set_child(d1, si, s3))
            }),
        },
{
    let di = ensure_child(root, "defs", SvgElement::new("defs"));
    let ghost r1 = elem_view(*root);
    let mut defs = take_child(root, di);
    let values = match ensure_template_settings(&mut defs, geometry.0, geometry.1, namespace) {
        Ok(v) => v,
        Err(m) => {
            put_child(root, di, defs);
            proof {
                lemma_set_child_twice(r1, di as int, empty_elem(Seq::empty()), elem_view(defs));
            }
            return Err(m);
        },
    };
    ensure_style(&mut defs);
    put_child(root, di, defs);
    proof {
        lemma_set_child_twice(r1, di as int, empty_elem(Seq::empty()), elem_view(defs));
    }
    Ok(values)
}

/// The message for a template without a screen element.
pub open spec fn missing_screen() -> Seq<char> {
    "Missing <svg id=\"screen\"> element in template"@
}

/// The screen element that a template without one gets: an
/// `<svg id="screen">` as large as `geometry` in cells.
pub open spec fn new_screen(geometry: (u16, u16)) -> ElemView {
    let w = geometry.0 * 8;
    let h = geometry.1 * 17;
    new_elem_with(
        "svg"@,
        seq![("id"@, "screen"@), ("width"@, int_decimal(w)), ("height"@, int_decimal(h)), ("viewBox"@, four_numbers(0, 0, w, h))],
    )
}

fn make_screen(geometry: (u16, u16)) -> (r: SvgElement)
    ensures
        elem_view(r) == new_screen(geometry),
{
    let w: i64 = geometry.0 as i64 * 8;
    let h: i64 = geometry.1 as i64 * 17;
    let mut vb = String::new();
    push_int_decimal(&mut vb, 0);
    string_push(&mut vb, ' ');
    push_int_decimal(&mut vb, 0);
    string_push(&mut vb, ' ');
    push_int_decimal(&mut vb, w);
    string_push(&mut vb, ' ');
    push_int_decimal(&mut vb, h);
    assert(vb@ =~= four_numbers(0, 0, w as int, h as int));
    let mut attrs: Vec<(String, String)> = Vec::new();
    attrs.push(attr_pair("id", "screen".to_owned()));
    attrs.push(attr_pair("width", int_decimal_string(w)));
    attrs.push(attr_pair("height", int_decimal_string(h)));
    attrs.push(attr_pair("viewBox", vb));
    assert(attrs_view(attrs@) =~= new_screen(geometry).attributes);
    elem_with("svg", attrs)
}

/// What fitting a template to a screen of `geometry` gives: its defaults
/// settled, then the template and its screen element resized by the
/// difference between `geometry` and the geometry the template was drawn
/// for. A template without a screen element gets one (see [`new_screen`])
/// as its last child, after the resizing.
pub open spec fn spec_resize(root: ElemView, geometry: (u16, u16), ns: Seq<char>) -> Result<ElemView, Seq<char>> {
    match spec_template_defaults(root, geometry, ns) {
        Err(m) => Err(m),
        Ok((r1, (tc, tr))) => {
            let dc = geometry.0 - tc;
            let dr = geometry.1 - tr;
            match spec_apply_scale(r1, dc, dr) {
                Err(m) => Err(m),
                Ok(r2) => match screen_path(r2) {
                    None => Ok(ElemView { children: r2.children.push(NodeView::Element(new_screen(geometry))), ..r2 }),
                    Some(p) => match spec_apply_scale(elem_at(r2, p).unwrap(), dc, dr) {
                        Err(m) => Err(m),
                        Ok(sc) => Ok(replace_at(r2, p, sc)),
                    },
                },
            }
        },
    }
}

/// The value of an element result.
pub open spec fn elem_result(r: Result<SvgElement, String>) -> Result<ElemView, Seq<char>> {
    match r {
        Ok(e) => Ok(elem_view(e)),
        Err(m) => Err(m@),
    }
}

/// Fits a parsed template to a screen of `geometry`; `namespace` is the
/// `termtosvg` namespace to declare (none when empty).
pub fn resize_element(root: SvgElement, geometry: (u16, u16), namespace: &str) -> (r: Result<SvgElement, String>)
    ensures
        elem_result(r) == spec_resize(elem_view(root), geometry, namespace@),
{
    let mut root = root;
    let (template_columns, template_rows) = ensure_template_defaults(&mut root, geometry, namespace)?;
    let delta_columns: i32 = geometry.0 as i32 - template_columns as i32;
    let delta_rows: i32 = geometry.1 as i32 - template_rows as i32;
    apply_scale(&mut root, delta_columns, delta_rows)?;
    let path = match find_screen(&root) {
        Some(p) => p,
        None => {
            let screen = make_screen(geometry);
            root.push_child(SvgNode::Element(screen));
            return Ok(root);
        },
    };
    proof {
        lemma_screen_path(elem_view(root));
        assert(path@.skip(0) =~= path@);
    }
    let ghost r2 = elem_view(root);
    let mut screen = take_at(&mut root, &path, 0);
    apply_scale(&mut screen, delta_columns, delta_rows)?;
    proof {
        lemma_replace_at(r2, path@, empty_elem(Seq::empty()), elem_view(screen));
    }
    put_at(&mut root, &path, 0, screen);
    Ok(root)
}

/// Parses a template and fits it to a screen of `geometry`. Bytes that do
/// not parse give `Invalid template`; otherwise the result is what
/// [`resize_element`] gives for the parsed document.
pub fn resize_template(template: &[u8], geometry: (u16, u16), namespace: &str) -> (r: Result<SvgElement, String>)
    ensures
        xml_document(template@) is None ==> elem_result(r) == Err::<ElemView, Seq<char>>("Invalid template"@),
        xml_document(template@) matches Some(d) ==> exists|t: ElemView| same_but_attribute_order(t, d) && elem_result(r) == #[trigger] spec_resize(t, geometry, namespace@),
{
    let root = match parse_xml(template) {
        Some(e) => e,
        None => {
            return Err("Invalid template".to_owned());
        },
    };
    let ghost t = elem_view(root);
    let r = resize_element(root, geometry, namespace);
    assert(elem_result(r) == spec_resize(t, geometry, namespace@));
    r
}

/// The rectangle that paints the screen's background.
pub open spec fn bg_rect() -> ElemView {
    new_elem_with(
        "rect"@,
        seq![("class"@, "background"@), ("height"@, "100%"@), ("width"@, "100%"@), ("x"@, "0"@), ("y"@, "0"@)],
    )
}

fn make_bg_rect() -> (r: SvgElement)
    ensures
        elem_view(r) == bg_rect(),
{
    let mut attrs: Vec<(String, String)> = Vec::new();
    attrs.push(attr_pair("class", "background".to_owned()));
    attrs.push(attr_pair("height", "100%".to_owned()));
    attrs.push(attr_pair("width", "100%".to_owned()));
    attrs.push(attr_pair("x", "0".to_owned()));
    attrs.push(attr_pair("y", "0".to_owned()));
    assert(attrs_view(attrs@) =~= bg_rect().attributes);
    elem_with("rect", attrs)
}

/// What preparing a template gives: the fitted template whose screen holds
/// only the background rectangle.
pub open spec fn spec_preparation(root: ElemView, geometry: (u16, u16), ns: Seq<char>) -> Result<ElemView, Seq<char>> {
    match spec_resize(root, geometry, ns) {
        Err(m) => Err(m),
        Ok(r) => match screen_path(r) {
            None => Err(missing_screen()),
            Some(p) => Ok(replace_at(r, p, ElemView { children: seq![NodeView::Element(bg_rect())], ..elem_at(r, p).unwrap() })),
        },
    }
}

/// Fits a parsed template to a screen of `geometry` and empties its screen
/// but for the background rectangle.
pub fn prepare_element(root: SvgElement, geometry: (u16, u16), namespace: &str) -> (r: Result<SvgElement, String>)
    ensures
        elem_result(r) == spec_preparation(elem_view(root), geometry, namespace@),
{
    let mut root = resize_element(root, geometry, namespace)?;
    let path = match find_screen(&root) {
        Some(p) => p,
        None => {
            return Err("Missing <svg id=\"screen\"> element in template".to_owned());
        },
    };
    proof {
        lemma_screen_path(elem_view(root));
        assert(path@.skip(0) =~= path@);
    }
    let ghost r = elem_view(root);
    let mut screen = take_at(&mut root, &path, 0);
    screen.children = Vec::new();
    let rect = make_bg_rect();
    proof {
        crate::svg::lemma_nodes_view_push(screen.children@, SvgNode::Element(rect));
    }
    screen.children.push(SvgNode::Element(rect));
    proof {
        assert(nodes_view(screen.children@) =~= seq![NodeView::Element(bg_rect())]);
        lemma_replace_at(r, path@, empty_elem(Seq::empty()), elem_view(screen));
    }
    put_at(&mut root, &path, 0, screen);
    Ok(root)
}

/// Parses a template, fits it to a screen of `geometry` and empties its
/// screen but for the background rectangle.
pub fn render_preparation(geometry: (u16, u16), template: &[u8], namespace: &str) -> (r: Result<SvgElement, String>)
    ensures
        xml_document(template@) is None ==> elem_result(r) == Err::<ElemView, Seq<char>>("Invalid template"@),
        xml_document(template@) matches Some(d) ==> exists|t: ElemView| same_but_attribute_order(t, d) && elem_result(r) == #[trigger] spec_preparation(t, geometry, namespace@),
{
    let root = match parse_xml(template) {
        Some(e) => e,
        None => {
            return Err("Invalid template".to_owned());
        },
    };
    let ghost t = elem_view(root);
    let r = prepare_element(root, geometry, namespace);
    assert(elem_result(r) == spec_preparation(t, geometry, namespace@));
    r
}

/// What `str::to_lowercase` gives for a text.
pub uninterp spec fn lowercase(s: Seq<char>) -> Seq<char>;

/// Calls `str::to_lowercase`. Its result is named by [`lowercase`].
#[verifier::external_body]
fn to_lowercase(s: &str) -> (r: String)
    ensures
        r@ == lowercase(s@),
{
    s.to_lowercase()
}

/// What checking a template's animation type gives: the settings must say
/// (in any case) that the animation is done with CSS.
pub open spec fn spec_css_animation(root: ElemView) -> Result<(), Seq<char>> {
    match child_named(root, "defs"@) {
        None => Err("Unable to locate <defs> element in template"@),
        Some(di) => {
            let d = child_at(root, di);
            match child_named(d, "template_settings"@) {
                None => Err("Missing \"template_settings\" element in definitions"@),
                Some(si) => {
                    let st = child_at(d, si);
                    match child_named(st, "animation"@) {
                        None => Err("Missing \"animation\" element in \"template_settings\""@),
                        Some(ai) => match attr_lookup(child_at(st, ai).attributes, "type"@) {
                            None => Err("Missing \"type\" attribute for animation element"@),
                            Some(t) => if lowercase(t) == "css"@ {
                                Ok(())
                            } else {
                                Err(
                                    "Template requests unsupported animation type '"@ + lowercase(t)
                                        + "'. Only CSS-based templates are supported (GitHub-safe)."@,
                                )
                            },
                        },
                    }
                },
            }
        },
    }
}

fn child_ref(e: &SvgElement, i: usize) -> (c: &SvgElement)
    requires
        i < elem_view(*e).children.len(),
        elem_view(*e).children[i as int] is Element,
    ensures
        elem_view(*c) == child_at(elem_view(*e), i as int),
{
    proof {
        lemma_nodes_view_len(e.children@);
        lemma_nodes_view_index(e.children@, i as int);
    }
    match &e.children[i] {
        SvgNode::Element(c) => c,
        _ => {
            proof {
                assert(false);
            }
            e
        },
    }
}

/// Checks that the template animates with CSS.
pub fn ensure_css_animation(root: &SvgElement) -> (r: Result<(), String>)
    ensures
        crate::xml::check_result(r) == spec_css_animation(elem_view(*root)),
{
    proof {
        lemma_child_named_from(elem_view(*root).children, "defs"@, 0);
    }
    let di = match find_child_index(root, "defs") {
        Some(i) => i,
        None => {
            return Err("Unable to locate <defs> element in template".to_owned());
        },
    };
    let defs = child_ref(root, di);
    proof {
        lemma_child_named_from(elem_view(*defs).children, "template_settings"@, 0);
    }
    let si = match find_child_index(defs, "template_settings") {
        Some(i) => i,
        None => {
            return Err("Missing \"template_settings\" element in definitions".to_owned());
        },
    };
    let settings = child_ref(defs, si);
    proof {
        lemma_child_named_from(elem_view(*settings).children, "animation"@, 0);
    }
    let ai = match find_child_index(settings, "animation") {
        Some(i) => i,
        None => {
            return Err("Missing \"animation\" element in \"template_settings\"".to_owned());
        },
    };
    let animation = child_ref(settings, ai);
    let animation_type = match animation.attributes.get("type") {
        Some(t) => to_lowercase(t.as_str()),
        None => {
            return Err("Missing \"type\" attribute for animation element".to_owned());
        },
    };
    if str_eq(animation_type.as_str(), "css") {
        return Ok(());
    }
    let mut m = String::new();
    push_str(&mut m, "Template requests unsupported animation type '");
    push_str(&mut m, animation_type.as_str());
    push_str(&mut m, "'. Only CSS-based templates are supported (GitHub-safe).");
    assert(m@ =~= "Template requests unsupported animation type '"@ + animation_type@
        + "'. Only CSS-based templates are supported (GitHub-safe)."@);
    Err(m)
}

/// The path to the generated style sheet: the first child of the root that
/// is one, or that is a `<defs>` element holding one.
pub open spec fn style_path_from(cs: Seq<NodeView>, i: nat) -> Option<Seq<usize>>
    decreases cs.len() - i,
{
    if i >= cs.len() || i > usize::MAX {
        None
    } else {
        match cs[i as int] {
            NodeView::Element(e) => if is_generated_style(e) {
                Some(seq![i as usize])
            } else if e.name == "defs"@ && style_from(e.children, 0) is Some {
                Some(seq![i as usize, style_from(e.children, 0).unwrap() as usize])
            } else {
                style_path_from(cs, i + 1)
            },
            _ => style_path_from(cs, i + 1),
        }
    }
}

/// The path to the generated style sheet of a document.
pub open spec fn style_path(root: ElemView) -> Option<Seq<usize>> {
    style_path_from(root.children, 0)
}

proof fn lemma_style_path_from(root: ElemView, i: nat)
    ensures
        style_path_from(root.children, i) matches Some(p) ==> elem_at(root, p) matches Some(s)
            && is_generated_style(s),
    decreases root.children.len() - i,
{
    let cs = root.children;
    if i < cs.len() && i <= usize::MAX {
        if let NodeView::Element(e) = cs[i as int] {
            if is_generated_style(e) {
                let q = seq![i as usize];
                assert(q[0] as int == i);
                assert(elem_at(e, q.drop_first()) == Some(e));
            } else if e.name == "defs"@ && style_from(e.children, 0) is Some {
                lemma_style_from(e.children, 0);
                let j = style_from(e.children, 0).unwrap();
                let q = seq![i as usize, j as usize];
                let c = e.children[j]->Element_0;
                assert(q[0] as int == i);
                assert(q.drop_first() =~= seq![j as usize]);
                assert(seq![j as usize].drop_first() =~= Seq::<usize>::empty());
                assert(elem_at(c, Seq::empty()) == Some(c));
                assert(elem_at(e, seq![j as usize]) == Some(c));
                assert(elem_at(root, q) == elem_at(e, q.drop_first()));
            } else {
                lemma_style_path_from(root, i + 1);
            }
        } else {
            lemma_style_path_from(root, i + 1);
        }
    }
}

/// Finds the generated style sheet.
fn find_style(root: &SvgElement) -> (r: Option<Vec<usize>>)
    ensures
        match r {
            Some(p) => style_path(elem_view(*root)) == Some(p@),
            None => style_path(elem_view(*root)) is None,
        },
{
    let ghost cs = elem_view(*root).children;
    proof {
        lemma_nodes_view_len(root.children@);
    }
    let mut i: usize = 0;
    while i < root.children.len()
        invariant
            i <= root.children@.len(),
            cs == nodes_view(root.children@),
            cs == elem_view(*root).children,
            cs.len() == root.children@.len(),
            style_path(elem_view(*root)) == style_path_from(cs, i as nat),
        decreases root.children.len() - i,
    {
        proof {
            lemma_nodes_view_index(root.children@, i as int);
        }
        if let SvgNode::Element(e) = &root.children[i] {
            assert(cs[i as int] == NodeView::Element(elem_view(*e)));
            if is_generated_style_elem(e) {
                let mut p: Vec<usize> = Vec::new();
                p.push(i);
                assert(p@ =~= seq![i]);
                return Some(p);
            }
            if str_eq(e.name.as_str(), "defs") {
                match find_style_index(e) {
                    Some(j) => {
                        let mut p: Vec<usize> = Vec::new();
                        p.push(i);
                        p.push(j);
                        assert(p@ =~= seq![i, j]);
                        return Some(p);
                    },
                    None => {},
                }
            }
        }
        i = i + 1;
    }
    None
}

/// The style sheet that every document gets.
pub open spec fn css_body() -> Seq<char> {
    "#screen {\n                font-family: 'DejaVu Sans Mono', monospace;\n                font-style: normal;\n                font-size: 14px;\n            }\n\n        text {\n            dominant-baseline: text-before-edge;\n            white-space: pre;\n        }\n    \n"@
}

/// One keyframe: at `percent` of the animation, the screen scrolls to
/// `offset`.
pub open spec fn keyframe(percent: Seq<char>, offset: i32) -> Seq<char> {
    percent + "%{transform:translateY("@ + int_decimal(offset as int) + "px)}"@
}

/// The keyframes of the animation: one per frame start, given as the text of
/// its percentage of the whole and its scroll offset, and a last one at 100%
/// that holds the last offset.
pub open spec fn keyframe_lines(ks: Seq<(Seq<char>, i32)>) -> Seq<Seq<char>> {
    Seq::new(ks.len(), |i: int| keyframe(ks[i].0, ks[i].1)) + (if ks.len() > 0 {
        seq![keyframe("100.000"@, ks.last().1)]
    } else {
        Seq::empty()
    })
}

/// The style sheet of an animation lasting `duration` milliseconds through
/// the keyframes `ks`.
pub open spec fn animation_css(ks: Seq<(Seq<char>, i32)>, duration: u64) -> Seq<char> {
    "            :root {\n                --animation-duration: "@ + decimal(duration as nat)
        + "ms;\n            }\n\n            @keyframes roll {\n                "@ + spec_join(keyframe_lines(ks), '\n')
        + "\n            }\n\n            #screen_view {\n                animation-duration: "@ + decimal(duration as nat)
        + "ms;\n                animation-iteration-count:infinite;\n                animation-name:roll;\n                animation-timing-function: steps(1,end);\n                animation-fill-mode: forwards;\n            }\n        "@
}

/// The value of a list of keyframes.
pub open spec fn keyframes_view(ks: Seq<(String, i32)>) -> Seq<(Seq<char>, i32)> {
    Seq::new(ks.len(), |i: int| (ks[i].0@, ks[i].1))
}

/// The style sheet of a document: the common rules, and the animation's
/// when there is one.
pub open spec fn document_css(animation: Option<(Seq<(Seq<char>, i32)>, u64)>) -> Seq<char> {
    match animation {
        Some((ks, d)) => css_body() + animation_css(ks, d),
        None => css_body(),
    }
}

fn keyframe_text(percent: &str, offset: i32) -> (r: String)
    ensures
        r@ == keyframe(percent@, offset),
{
    let mut r = String::new();
    push_str(&mut r, percent);
    push_str(&mut r, "%{transform:translateY(");
    push_int_decimal(&mut r, offset as i64);
    push_str(&mut r, "px)}");
    assert(r@ =~= keyframe(percent@, offset));
    r
}

fn css_text(animation: Option<(&Vec<(String, i32)>, u64)>) -> (r: String)
    ensures
        r@ == document_css(match animation {
            Some((ks, d)) => Some((keyframes_view(ks@), d)),
            None => None,
        }),
{
    let mut css = String::new();
    push_str(&mut css, "#screen {\n                font-family: 'DejaVu Sans Mono', monospace;\n                font-style: normal;\n                font-size: 14px;\n            }\n\n        text {\n            dominant-baseline: text-before-edge;\n            white-space: pre;\n        }\n    \n");
    assert(css@ =~= css_body());
    if let Some((keyframes, duration)) = animation {
        let ghost kv = keyframes_view(keyframes@);
        let mut lines: Vec<String> = Vec::new();
        let mut i: usize = 0;
        while i < keyframes.len()
            invariant
                i <= keyframes@.len(),
                kv == keyframes_view(keyframes@),
                strings_view(lines@) == Seq::new(i as nat, |k: int| keyframe(kv[k].0, kv[k].1)),
            decreases keyframes.len() - i,
        {
            let line = keyframe_text(keyframes[i].0.as_str(), keyframes[i].1);
            assert(line@ == keyframe(kv[i as int].0, kv[i as int].1));
            let ghost before = lines@;
            lines.push(line);
            assert(strings_view(lines@) =~= strings_view(before).push(line@));
            assert(strings_view(lines@) =~= Seq::new((i + 1) as nat, |k: int| keyframe(kv[k].0, kv[k].1)));
            i = i + 1;
        }
        if keyframes.len() > 0 {
            let last = keyframes[keyframes.len() - 1].1;
            lines.push(keyframe_text("100.000", last));
        }
        assert(strings_view(lines@) =~= keyframe_lines(kv));
        let block = join_with(&lines, lines.len(), '\n');
        assert(strings_view(lines@).take(lines@.len() as int) =~= strings_view(lines@));
        let ghost before = css@;
        push_str(&mut css, "            :root {\n                --animation-duration: ");
        push_decimal(&mut css, duration as u128);
        push_str(&mut css, "ms;\n            }\n\n            @keyframes roll {\n                ");
        push_str(&mut css, block.as_str());
        push_str(&mut css, "\n            }\n\n            #screen_view {\n                animation-duration: ");
        push_decimal(&mut css, duration as u128);
        push_str(&mut css, "ms;\n                animation-iteration-count:infinite;\n                animation-name:roll;\n                animation-timing-function: steps(1,end);\n                animation-fill-mode: forwards;\n            }\n        ");
        assert(css@ =~= before + animation_css(kv, duration));
    }
    css
}

/// What embedding the style sheet gives: the generated style sheet holds
/// only the document's CSS (as character data). A document without one, and
/// an animation lasting no time, are errors.
pub open spec fn spec_embed_css(root: ElemView, animation: Option<(Seq<(Seq<char>, i32)>, u64)>) -> Result<ElemView, Seq<char>> {
    match style_path(root) {
        None => Err("Missing <style id=\"generated-style\"> element"@),
        Some(p) => if animation matches Some((_, d)) && d == 0 {
            Err("Animation duration must be greater than 0"@)
        } else {
            Ok(replace_at(root, p, ElemView { children: seq![NodeView::CData(document_css(animation))], ..elem_at(root, p).unwrap() }))
        },
    }
}

/// Writes the document's CSS into its generated style sheet. `animation`
/// gives the keyframes (the text of each frame start's percentage of the
/// whole and its scroll offset, in order of time) and the duration of the
/// animation in milliseconds.
pub fn embed_css(root: &mut SvgElement, animation: Option<(&Vec<(String, i32)>, u64)>) -> (r: Result<(), String>)
    ensures
        match spec_embed_css(elem_view(*old(root)), match animation {
            Some((ks, d)) => Some((keyframes_view(ks@), d)),
            None => None,
        }) {
            Ok(e) => r is Ok && elem_view(*final(root)) == e,
            Err(m) => r matches Err(x) && x@ == m,
        },
        r is Err ==> *final(root) == *old(root),
{
    let path = match find_style(root) {
        Some(p) => p,
        None => {
            return Err("Missing <style id=\"generated-style\"> element".to_owned());
        },
    };
    if let Some((_, duration)) = animation {
        if duration == 0 {
            return Err("Animation duration must be greater than 0".to_owned());
        }
    }
    let css = css_text(animation);
    proof {
        lemma_style_path_from(elem_view(*root), 0);
        assert(path@.skip(0) =~= path@);
    }
    let ghost r0 = elem_view(*root);
    let mut style = take_at(root, &path, 0);
    style.children = Vec::new();
    let node = SvgNode::CData(css);
    proof {
        crate::svg::lemma_nodes_view_push(style.children@, node);
    }
    style.children.push(node);
    proof {
        assert(nodes_view(style.children@) =~= seq![node_view_of_cdata(css@)]);
        lemma_replace_at(r0, path@, empty_elem(Seq::empty()), elem_view(style));
    }
    put_at(root, &path, 0, style);
    Ok(())
}

/// A character data node.
pub open spec fn node_view_of_cdata(t: Seq<char>) -> NodeView {
    NodeView::CData(t)
}

/// Fitting a template to the geometry it was drawn for changes nothing but
/// its settings: resizing by no columns and no rows leaves an element as it
/// is.
pub proof fn law_no_resize_without_change(e: ElemView)
    ensures
        spec_apply_scale(e, 0, 0) == Ok::<ElemView, Seq<char>>(e),
{
}

} // verus!
