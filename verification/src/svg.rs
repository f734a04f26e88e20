//! A small model of SVG documents: elements with attributes and children.

use vstd::prelude::*;

use crate::text::str_eq;

verus! {

/// The attributes of an element, in insertion order.
#[derive(Debug, Clone, PartialEq)]
pub struct SvgAttributes {
    pub entries: Vec<(String, String)>,
}

/// A node of an SVG document.
#[derive(Debug, PartialEq)]
pub enum SvgNode {
    Element(SvgElement),
    Comment(String),
    CData(String),
    Text(String),
    ProcessingInstruction(String, Option<String>),
}

/// An element of an SVG document: its namespace prefix and URI, the
/// namespace declarations in scope, its local name, its attributes and its
/// children.
#[derive(Debug, PartialEq)]
pub struct SvgElement {
    pub prefix: Option<String>,
    pub namespace: Option<String>,
    pub namespaces: Option<SvgAttributes>,
    pub name: String,
    pub attributes: SvgAttributes,
    pub children: Vec<SvgNode>,
}

/// The value of a node.
pub enum NodeView {
    Element(ElemView),
    Comment(Seq<char>),
    CData(Seq<char>),
    Text(Seq<char>),
    ProcessingInstruction(Seq<char>, Option<Seq<char>>),
}

/// The value of an element.
pub struct ElemView {
    pub prefix: Option<Seq<char>>,
    pub namespace: Option<Seq<char>>,
    pub namespaces: Option<Seq<(Seq<char>, Seq<char>)>>,
    pub name: Seq<char>,
    pub attributes: Seq<(Seq<char>, Seq<char>)>,
    pub children: Seq<NodeView>,
}

pub open spec fn attrs_view(a: Seq<(String, String)>) -> Seq<(Seq<char>, Seq<char>)> {
    Seq::new(a.len(), |i: int| (a[i].0@, a[i].1@))
}

pub open spec fn opt_str_view(o: Option<String>) -> Option<Seq<char>> {
    match o {
        Some(s) => Some(s@),
        None => None,
    }
}

pub open spec fn opt_attrs_view(o: Option<SvgAttributes>) -> Option<Seq<(Seq<char>, Seq<char>)>> {
    match o {
        Some(a) => Some(attrs_view(a.entries@)),
        None => None,
    }
}

pub open spec fn elem_view(e: SvgElement) -> ElemView
    decreases e, 0nat,
{
    ElemView {
        prefix: opt_str_view(e.prefix),
        namespace: opt_str_view(e.namespace),
        namespaces: opt_attrs_view(e.namespaces),
        name: e.name@,
        attributes: attrs_view(e.attributes.entries@),
        children: nodes_view(e.children@),
    }
}

pub open spec fn nodes_view(s: Seq<SvgNode>) -> Seq<NodeView>
    decreases s, 1nat,
{
    if s.len() == 0 {
        Seq::empty()
    } else {
        nodes_view(s.drop_last()).push(node_view(s.last()))
    }
}

pub open spec fn node_view(n: SvgNode) -> NodeView
    decreases n, 2nat,
{
    match n {
        SvgNode::Element(e) => NodeView::Element(elem_view(e)),
        SvgNode::Comment(t) => NodeView::Comment(t@),
        SvgNode::CData(t) => NodeView::CData(t@),
        SvgNode::Text(t) => NodeView::Text(t@),
        SvgNode::ProcessingInstruction(t, d) => NodeView::ProcessingInstruction(t@, opt_str_view(d)),
    }
}

/// Whether two elements are the same but for the order in which each
/// element lists its attributes.
pub open spec fn same_but_attribute_order(a: ElemView, b: ElemView) -> bool
    decreases a, 0nat,
{
    &&& a.prefix == b.prefix
    &&& a.namespace == b.namespace
    &&& a.namespaces == b.namespaces
    &&& a.name == b.name
    &&& a.attributes.to_multiset() == b.attributes.to_multiset()
    &&& same_nodes_but_attribute_order(a.children, b.children)
}

/// Whether two lists of nodes are the same but for the order of the
/// attributes of their elements.
pub open spec fn same_nodes_but_attribute_order(a: Seq<NodeView>, b: Seq<NodeView>) -> bool
    decreases a, 1nat,
{
    if a.len() == 0 {
        b.len() == 0
    } else {
        &&& b.len() == a.len()
        &&& same_nodes_but_attribute_order(a.drop_last(), b.drop_last())
        &&& same_node_but_attribute_order(a.last(), b.last())
    }
}

/// Whether two nodes are the same but for the order of the attributes of
/// their elements.
pub open spec fn same_node_but_attribute_order(a: NodeView, b: NodeView) -> bool
    decreases a, 2nat,
{
    match a {
        NodeView::Element(x) => match b {
            NodeView::Element(y) => same_but_attribute_order(x, y),
            _ => false,
        },
        _ => a == b,
    }
}

/// The views of a list of elements.
pub open spec fn elems_view(s: Seq<SvgElement>) -> Seq<ElemView> {
    Seq::new(s.len(), |i: int| elem_view(s[i]))
}

/// A fresh element named `name`, with nothing in it.
pub open spec fn empty_elem(name: Seq<char>) -> ElemView {
    ElemView {
        prefix: None,
        namespace: None,
        namespaces: None,
        name,
        attributes: Seq::empty(),
        children: Seq::empty(),
    }
}

/// Elements as nodes.
pub open spec fn as_nodes(es: Seq<ElemView>) -> Seq<NodeView> {
    Seq::new(es.len(), |i: int| NodeView::Element(es[i]))
}

/// The children's view of two lists of nodes one after the other.
pub proof fn lemma_nodes_view_concat(a: Seq<SvgNode>, b: Seq<SvgNode>)
    ensures
        nodes_view(a + b) == nodes_view(a) + nodes_view(b),
    decreases b.len(),
{
    if b.len() == 0 {
        assert(a + b =~= a);
        assert(nodes_view(a) + nodes_view(b) =~= nodes_view(a));
    } else {
        lemma_nodes_view_concat(a, b.drop_last());
        assert((a + b).drop_last() =~= a + b.drop_last());
        assert((a + b).last() == b.last());
        assert(nodes_view(a + b) =~= nodes_view(a) + nodes_view(b));
    }
}

/// Appends the nodes of `src` to `dst`.
pub fn append_nodes(dst: &mut Vec<SvgNode>, src: Vec<SvgNode>)
    ensures
        nodes_view(final(dst)@) == nodes_view(old(dst)@) + nodes_view(src@),
{
    let mut src = src;
    proof {
        lemma_nodes_view_concat(dst@, src@);
    }
    dst.append(&mut src);
}

/// Appends the elements of `src` to `dst` as element nodes.
pub fn append_elements(dst: &mut Vec<SvgNode>, src: Vec<SvgElement>)
    ensures
        nodes_view(final(dst)@) == nodes_view(old(dst)@) + as_nodes(elems_view(src@)),
{
    let ghost start = nodes_view(dst@);
    let ghost es = elems_view(src@);
    for e in it: src.into_iter()
        invariant
            it.seq() == src@,
            es == elems_view(src@),
            nodes_view(dst@) == start + as_nodes(es.take(it.index() as int)),
    {
        let ghost before = dst@;
        let ghost k = it.index();
        let n = SvgNode::Element(e);
        proof {
            lemma_nodes_view_push(before, n);
        }
        dst.push(n);
        assert(as_nodes(es.take(k + 1)) =~= as_nodes(es.take(k as int)).push(NodeView::Element(es[k as int])));
    }
    assert(es.take(src@.len() as int) =~= es);
}

/// Pushing a node extends the children's view by that node's view.
pub proof fn lemma_nodes_view_push(s: Seq<SvgNode>, n: SvgNode)
    ensures
        nodes_view(s.push(n)) == nodes_view(s).push(node_view(n)),
        nodes_view(s).len() == s.len(),
{
    assert(s.push(n).drop_last() =~= s);
    lemma_nodes_view_len(s);
}

/// The children's view has one entry per child.
pub proof fn lemma_nodes_view_len(s: Seq<SvgNode>)
    ensures
        nodes_view(s).len() == s.len(),
    decreases s.len(),
{
    if s.len() > 0 {
        lemma_nodes_view_len(s.drop_last());
    }
}

/// Each entry of the children's view is the view of that child.
pub proof fn lemma_nodes_view_index(s: Seq<SvgNode>, i: int)
    requires
        0 <= i < s.len(),
    ensures
        nodes_view(s)[i] == node_view(s[i]),
    decreases s.len(),
{
    lemma_nodes_view_len(s);
    if i < s.len() - 1 {
        lemma_nodes_view_index(s.drop_last(), i);
    }
}

/// The value of the first attribute named `key`.
pub open spec fn attr_lookup(a: Seq<(Seq<char>, Seq<char>)>, key: Seq<char>) -> Option<Seq<char>>
    decreases a.len(),
{
    if a.len() == 0 {
        None
    } else if a[0].0 == key {
        Some(a[0].1)
    } else {
        attr_lookup(a.drop_first(), key)
    }
}

/// The attributes with `key` set to `value`: the first attribute of that
/// name gets the new value, or a new attribute is added at the end.
pub open spec fn attr_insert(a: Seq<(Seq<char>, Seq<char>)>, key: Seq<char>, value: Seq<char>) -> Seq<
    (Seq<char>, Seq<char>),
>
    decreases a.len(),
{
    if a.len() == 0 {
        seq![(key, value)]
    } else if a[0].0 == key {
        a.update(0, (key, value))
    } else {
        seq![a[0]] + attr_insert(a.drop_first(), key, value)
    }
}

proof fn lemma_attr_insert_prefix(
    a: Seq<(Seq<char>, Seq<char>)>,
    i: int,
    key: Seq<char>,
    value: Seq<char>,
)
    requires
        0 <= i <= a.len(),
        forall|j: int| 0 <= j < i ==> a[j].0 != key,
    ensures
        attr_insert(a, key, value) == a.take(i) + attr_insert(a.skip(i), key, value),
    decreases i,
{
    if i > 0 {
        lemma_attr_insert_prefix(a.drop_first(), i - 1, key, value);
        assert(a.drop_first().take(i - 1) =~= a.take(i).drop_first());
        assert(a.drop_first().skip(i - 1) =~= a.skip(i));
        assert(attr_insert(a, key, value) =~= a.take(i) + attr_insert(a.skip(i), key, value));
    } else {
        assert(a.skip(0) =~= a);
        assert(a.take(0) + attr_insert(a, key, value) =~= attr_insert(a, key, value));
    }
}

fn copy_opt_string(o: &Option<String>) -> (r: Option<String>)
    ensures
        opt_str_view(r) == opt_str_view(*o),
{
    match o {
        Some(s) => Some(s.clone()),
        None => None,
    }
}

impl SvgNode {
    /// A copy of the node and everything in it.
    pub fn deep_copy(&self) -> (r: SvgNode)
        ensures
            node_view(r) == node_view(*self),
        decreases self,
    {
        match self {
            SvgNode::Element(e) => SvgNode::Element(e.deep_copy()),
            SvgNode::Comment(t) => SvgNode::Comment(t.clone()),
            SvgNode::CData(t) => SvgNode::CData(t.clone()),
            SvgNode::Text(t) => SvgNode::Text(t.clone()),
            SvgNode::ProcessingInstruction(t, d) => SvgNode::ProcessingInstruction(t.clone(), copy_opt_string(d)),
        }
    }
}

impl SvgElement {
    /// A copy of the element and everything in it.
    pub fn deep_copy(&self) -> (r: SvgElement)
        ensures
            elem_view(r) == elem_view(*self),
        decreases self,
    {
        let namespaces = match &self.namespaces {
            Some(m) => Some(m.copy()),
            None => None,
        };
        let mut children: Vec<SvgNode> = Vec::new();
        let mut i: usize = 0;
        proof {
            lemma_nodes_view_len(self.children@);
        }
        assert(nodes_view(children@) =~= Seq::empty());
        while i < self.children.len()
            invariant
                i <= self.children@.len(),
                nodes_view(self.children@).len() == self.children@.len(),
                nodes_view(children@) == nodes_view(self.children@).take(i as int),
            decreases self.children.len() - i,
        {
            proof {
                lemma_nodes_view_index(self.children@, i as int);
            }
            assert(decreases_to!(self => self.children@[i as int])) by {
                assert(decreases_to!(self => self.children));
                assert(decreases_to!(self.children => self.children@));
            }
            let c = self.children[i].deep_copy();
            proof {
                lemma_nodes_view_push(children@, c);
            }
            children.push(c);
            assert(nodes_view(children@) =~= nodes_view(self.children@).take(i + 1));
            i = i + 1;
        }
        assert(nodes_view(self.children@).take(i as int) =~= nodes_view(self.children@));
        SvgElement {
            prefix: copy_opt_string(&self.prefix),
            namespace: copy_opt_string(&self.namespace),
            namespaces,
            name: self.name.clone(),
            attributes: self.attributes.copy(),
            children,
        }
    }

    /// A fresh element with the given name.
    pub fn new(name: &str) -> (r: Self)
        ensures
            elem_view(r) == empty_elem(name@),
    {
        let r = SvgElement {
            prefix: None,
            namespace: None,
            namespaces: None,
            name: name.to_owned(),
            attributes: SvgAttributes::new(),
            children: Vec::new(),
        };
        assert(attrs_view(r.attributes.entries@) =~= Seq::empty());
        assert(nodes_view(r.children@) =~= Seq::empty());
        r
    }

    /// Appends a child node.
    pub fn push_child(&mut self, n: SvgNode)
        ensures
            elem_view(*final(self)) == (ElemView {
                children: elem_view(*old(self)).children.push(node_view(n)),
                ..elem_view(*old(self))
            }),
    {
        proof {
            lemma_nodes_view_push(self.children@, n);
        }
        self.children.push(n);
    }
}

impl SvgAttributes {
    /// A copy of the attributes.
    pub fn copy(&self) -> (r: Self)
        ensures
            attrs_view(r.entries@) == attrs_view(self.entries@),
    {
        let mut entries: Vec<(String, String)> = Vec::new();
        let mut i: usize = 0;
        while i < self.entries.len()
            invariant
                i <= self.entries@.len(),
                attrs_view(entries@) == attrs_view(self.entries@).take(i as int),
            decreases self.entries.len() - i,
        {
            let k = self.entries[i].0.clone();
            let v = self.entries[i].1.clone();
            assert(k@ == self.entries@[i as int].0@ && v@ == self.entries@[i as int].1@);
            let ghost before = entries@;
            entries.push((k, v));
            assert(attrs_view(entries@) =~= attrs_view(before).push((k@, v@)));
            assert(attrs_view(entries@) =~= attrs_view(self.entries@).take(i + 1));
            i = i + 1;
        }
        assert(attrs_view(self.entries@).take(i as int) =~= attrs_view(self.entries@));
        SvgAttributes { entries }
    }

    /// No attributes.
    pub fn new() -> (r: Self)
        ensures
            r.entries@.len() == 0,
    {
        SvgAttributes { entries: Vec::new() }
    }

    /// The value of the attribute named `key`.
    pub fn get(&self, key: &str) -> (r: Option<&String>)
        ensures
            match r {
                Some(v) => attr_lookup(attrs_view(self.entries@), key@) == Some(v@),
                None => attr_lookup(attrs_view(self.entries@), key@) is None,
            },
    {
        let ghost a = attrs_view(self.entries@);
        let mut i: usize = 0;
        assert(a.skip(0) =~= a);
        while i < self.entries.len()
            invariant
                i <= self.entries@.len(),
                a == attrs_view(self.entries@),
                attr_lookup(a, key@) == attr_lookup(a.skip(i as int), key@),
            decreases self.entries.len() - i,
        {
            assert(a.skip(i as int).drop_first() =~= a.skip(i + 1));
            if str_eq(self.entries[i].0.as_str(), key) {
                return Some(&self.entries[i].1);
            }
            i = i + 1;
        }
        None
    }

    /// Sets the attribute `key` to `value`.
    pub fn insert(&mut self, key: String, value: String)
        ensures
            attrs_view(final(self).entries@) == attr_insert(attrs_view(old(self).entries@), key@, value@),
    {
        let ghost a = attrs_view(self.entries@);
        let mut i: usize = 0;
        while i < self.entries.len()
            invariant
                i <= self.entries@.len(),
                self.entries@ == old(self).entries@,
                a == attrs_view(self.entries@),
                forall|j: int| 0 <= j < i ==> a[j].0 != key@,
            decreases self.entries.len() - i,
        {
            if str_eq(self.entries[i].0.as_str(), key.as_str()) {
                proof {
                    lemma_attr_insert_prefix(a, i as int, key@, value@);
                    assert(a.skip(i as int)[0].0 == key@);
                }
                self.entries.set(i, (key, value));
                proof {
                    let b = attrs_view(self.entries@);
                    assert(b =~= a.take(i as int) + attr_insert(a.skip(i as int), key@, value@));
                }
                return;
            }
            i = i + 1;
        }
        proof {
            lemma_attr_insert_prefix(a, i as int, key@, value@);
            assert(a.skip(i as int) =~= Seq::<(Seq<char>, Seq<char>)>::empty());
        }
        self.entries.push((key, value));
        assert(attrs_view(self.entries@) =~= a.take(i as int) + seq![(key@, value@)]);
    }
}

} // verus!
