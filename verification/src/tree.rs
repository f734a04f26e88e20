//! Positions in an SVG document: paths of child indices, and taking an
//! element out of a document and putting one back.

use vstd::prelude::*;

use crate::svg::{
    elem_view, empty_elem, lemma_nodes_view_index, lemma_nodes_view_len, node_view, nodes_view,
    ElemView, NodeView, SvgElement, SvgNode,
};

verus! {

/// The element reached from `e` by following the child indices `p`.
pub open spec fn elem_at(e: ElemView, p: Seq<usize>) -> Option<ElemView>
    decreases p.len(),
{
    if p.len() == 0 {
        Some(e)
    } else if p[0] < e.children.len() {
        match e.children[p[0] as int] {
            NodeView::Element(c) => elem_at(c, p.drop_first()),
            _ => None,
        }
    } else {
        None
    }
}

/// `e` with the element at path `p` replaced by `s`.
pub open spec fn replace_at(e: ElemView, p: Seq<usize>, s: ElemView) -> ElemView
    decreases p.len(),
{
    if p.len() == 0 {
        s
    } else if p[0] < e.children.len() {
        match e.children[p[0] as int] {
            NodeView::Element(c) => ElemView {
                children: e.children.update(p[0] as int, NodeView::Element(replace_at(c, p.drop_first(), s))),
                ..e
            },
            _ => e,
        }
    } else {
        e
    }
}

/// Replacing twice at one path keeps the second replacement, and what is at
/// that path afterwards is what was put there.
pub proof fn lemma_replace_at(e: ElemView, p: Seq<usize>, a: ElemView, b: ElemView)
    requires
        elem_at(e, p) is Some,
    ensures
        replace_at(replace_at(e, p, a), p, b) == replace_at(e, p, b),
        elem_at(replace_at(e, p, a), p) == Some(a),
    decreases p.len(),
{
    if p.len() > 0 {
        let c = e.children[p[0] as int]->Element_0;
        lemma_replace_at(c, p.drop_first(), a, b);
        let r = replace_at(e, p, a);
        assert(r.children[p[0] as int] == NodeView::Element(replace_at(c, p.drop_first(), a)));
        assert(replace_at(r, p, b).children =~= replace_at(e, p, b).children);
    }
}

/// The children's view after one child is replaced.
pub proof fn lemma_nodes_view_update(s: Seq<SvgNode>, i: int, n: SvgNode)
    requires
        0 <= i < s.len(),
    ensures
        nodes_view(s.update(i, n)) == nodes_view(s).update(i, node_view(n)),
{
    let t = s.update(i, n);
    lemma_nodes_view_len(s);
    lemma_nodes_view_len(t);
    assert forall|j: int| 0 <= j < s.len() implies #[trigger] nodes_view(t)[j] == nodes_view(s).update(i, node_view(n))[j] by {
        lemma_nodes_view_index(t, j);
        lemma_nodes_view_index(s, j);
    }
    assert(nodes_view(t) =~= nodes_view(s).update(i, node_view(n)));
}

/// The element at path `p` (from position `k` on) is taken out of `e` and
/// returned; an empty element is left in its place.
pub fn take_at(e: &mut SvgElement, p: &Vec<usize>, k: usize) -> (sub: SvgElement)
    requires
        k <= p@.len(),
        elem_at(elem_view(*old(e)), p@.skip(k as int)) is Some,
    ensures
        elem_view(sub) == elem_at(elem_view(*old(e)), p@.skip(k as int)).unwrap(),
        elem_view(*final(e)) == replace_at(elem_view(*old(e)), p@.skip(k as int), empty_elem(Seq::empty())),
    decreases p@.len() - k,
{
    let ghost q = p@.skip(k as int);
    if k == p.len() {
        let mut sub = SvgElement::new("");
        proof {
            reveal_strlit("");
            assert(""@ =~= Seq::<char>::empty());
        }
        std::mem::swap(e, &mut sub);
        assert(q =~= Seq::<usize>::empty());
        return sub;
    }
    assert(q.drop_first() =~= p@.skip(k + 1));
    let i = p[k];
    proof {
        lemma_nodes_view_len(e.children@);
        lemma_nodes_view_index(e.children@, i as int);
    }
    let ghost before = e.children@;
    let node = e.children.remove(i);
    match node {
        SvgNode::Element(mut c) => {
            let sub = take_at(&mut c, p, k + 1);
            let ghost cv = elem_view(c);
            e.children.insert(i, SvgNode::Element(c));
            proof {
                assert(e.children@ =~= before.update(i as int, SvgNode::Element(c)));
                lemma_nodes_view_update(before, i as int, SvgNode::Element(c));
            }
            sub
        },
        _ => {
            proof {
                assert(false);
            }
            SvgElement::new("")
        },
    }
}

/// Puts `sub` at path `p` (from position `k` on) in `e`.
pub fn put_at(e: &mut SvgElement, p: &Vec<usize>, k: usize, sub: SvgElement)
    requires
        k <= p@.len(),
        elem_at(elem_view(*old(e)), p@.skip(k as int)) is Some,
    ensures
        elem_view(*final(e)) == replace_at(elem_view(*old(e)), p@.skip(k as int), elem_view(sub)),
    decreases p@.len() - k,
{
    let ghost q = p@.skip(k as int);
    if k == p.len() {
        *e = sub;
        assert(q =~= Seq::<usize>::empty());
        return;
    }
    assert(q.drop_first() =~= p@.skip(k + 1));
    let i = p[k];
    proof {
        lemma_nodes_view_len(e.children@);
        lemma_nodes_view_index(e.children@, i as int);
    }
    let ghost before = e.children@;
    let node = e.children.remove(i);
    match node {
        SvgNode::Element(mut c) => {
            put_at(&mut c, p, k + 1, sub);
            e.children.insert(i, SvgNode::Element(c));
            proof {
                assert(e.children@ =~= before.update(i as int, SvgNode::Element(c)));
                lemma_nodes_view_update(before, i as int, SvgNode::Element(c));
            }
        },
        _ => {
            proof {
                assert(false);
            }
        },
    }
}

} // verus!
