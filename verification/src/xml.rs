//! The XML text of SVG documents: parsing a template into the library's
//! model, writing the model out, and checking that text is well-formed.

use vstd::prelude::*;
use vstd::utf8::{decode_utf8, valid_utf8};

use crate::svg::{elem_view, opt_str_view, same_but_attribute_order, ElemView, SvgAttributes, SvgElement, SvgNode};
use crate::text::push_str;

verus! {

#[verifier::external_type_specification]
#[verifier::external_body]
pub struct ExXmlElement(xmltree::Element);

#[verifier::external_type_specification]
#[verifier::external_body]
pub struct ExXmlNode(xmltree::XMLNode);

#[verifier::external_type_specification]
#[verifier::external_body]
pub struct ExXmlNamespace(xmltree::Namespace);

/// Moves an `xmltree` element into the library's model, field by field.
/// Nothing is stated of the result: the element's attributes come out in the
/// order in which its hash map is walked.
#[verifier::external_body]
fn element_from_xml(e: xmltree::Element) -> SvgElement {
    SvgElement {
        prefix: e.prefix,
        namespace: e.namespace,
        namespaces: e.namespaces.map(namespaces_from_xml),
        name: e.name,
        attributes: SvgAttributes { entries: e.attributes.into_iter().collect() },
        children: e.children.into_iter().map(node_from_xml).collect(),
    }
}

/// Moves the prefix-to-URI pairs of an `xmltree` (`xml-rs`) namespace map
/// into an attribute list.
#[verifier::external_body]
fn namespaces_from_xml(ns: xmltree::Namespace) -> SvgAttributes {
    SvgAttributes { entries: ns.0.into_iter().collect() }
}

/// Moves an `xmltree` node into the library's model, variant by variant.
#[verifier::external_body]
fn node_from_xml(n: xmltree::XMLNode) -> SvgNode {
    match n {
        xmltree::XMLNode::Element(e) => SvgNode::Element(element_from_xml(e)),
        xmltree::XMLNode::Comment(t) => SvgNode::Comment(t),
        xmltree::XMLNode::CData(t) => SvgNode::CData(t),
        xmltree::XMLNode::Text(t) => SvgNode::Text(t),
        xmltree::XMLNode::ProcessingInstruction(t, d) => SvgNode::ProcessingInstruction(t, d),
    }
}

/// Moves an element of the library's model into an `xmltree` element,
/// field by field.
#[verifier::external_body]
fn element_to_xml(e: SvgElement) -> xmltree::Element {
    let mut x = xmltree::Element::new(&e.name);
    x.prefix = e.prefix;
    x.namespace = e.namespace;
    x.namespaces = e.namespaces.map(namespaces_to_xml);
    x.attributes = e.attributes.entries.into_iter().collect();
    x.children = e.children.into_iter().map(node_to_xml).collect();
    x
}

/// Moves an attribute list into an `xmltree` (`xml-rs`) namespace map.
#[verifier::external_body]
fn namespaces_to_xml(a: SvgAttributes) -> xmltree::Namespace {
    xmltree::Namespace(a.entries.into_iter().collect())
}

/// Moves a node of the library's model into an `xmltree` node, variant by
/// variant.
#[verifier::external_body]
fn node_to_xml(n: SvgNode) -> xmltree::XMLNode {
    match n {
        SvgNode::Element(e) => xmltree::XMLNode::Element(element_to_xml(e)),
        SvgNode::Comment(t) => xmltree::XMLNode::Comment(t),
        SvgNode::CData(t) => xmltree::XMLNode::CData(t),
        SvgNode::Text(t) => xmltree::XMLNode::Text(t),
        SvgNode::ProcessingInstruction(t, d) => xmltree::XMLNode::ProcessingInstruction(t, d),
    }
}

/// The root element that `xmltree::Element::parse` reads from the bytes,
/// with the attributes of each element in one fixed order, or nothing when
/// the parse fails.
pub uninterp spec fn xml_document(bytes: Seq<u8>) -> Option<ElemView>;

/// Calls `xmltree::Element::parse` and moves the root element into the
/// library's model. It fails exactly where the parse does, and the element
/// is the one named by [`xml_document`] but for the order of each element's
/// attributes, which come out of a hash map.
#[verifier::external_body]
pub(crate) fn parse_xml(bytes: &[u8]) -> (r: Option<SvgElement>)
    ensures
        r is Some <==> xml_document(bytes@) is Some,
        r matches Some(e) ==> same_but_attribute_order(elem_view(e), xml_document(bytes@).unwrap()),
{
    match xmltree::Element::parse(bytes) {
        Ok(e) => Some(element_from_xml(e)),
        Err(_) => None,
    }
}

/// Moves the element into an `xmltree` element and calls
/// `Element::write_with_config` without an XML declaration, giving the bytes
/// written or the message of the error. Nothing is stated of the bytes: the
/// attributes of each element are written in hash-map order.
#[verifier::external_body]
pub(crate) fn write_xml(e: SvgElement) -> Result<Vec<u8>, String> {
    let mut buf = Vec::new();
    let config = xmltree::EmitterConfig::new().write_document_declaration(false);
    match element_to_xml(e).write_with_config(&mut buf, config) {
        Ok(()) => Ok(buf),
        Err(err) => Err(err.to_string()),
    }
}

/// The message that `roxmltree::Document::parse` reports for `text`, or
/// nothing when it parses.
pub uninterp spec fn xml_error(text: Seq<char>) -> Option<Seq<char>>;

/// Calls `roxmltree::Document::parse` and gives the text of its error, if
/// any. The result is named by [`xml_error`].
#[verifier::external_body]
fn roxml_error(text: &str) -> (r: Option<String>)
    ensures
        opt_str_view(r) == xml_error(text@),
{
    match roxmltree::Document::parse(text) {
        Ok(_) => None,
        Err(err) => Some(err.to_string()),
    }
}

/// The text of the error that `std::str::from_utf8` reports for `bytes`.
pub uninterp spec fn utf8_error(bytes: Seq<u8>) -> Seq<char>;

/// Calls `std::str::from_utf8`. As its documentation says, it succeeds
/// exactly on valid UTF-8, giving the text that the bytes encode; the text of
/// its error is named by [`utf8_error`].
#[verifier::external_body]
fn utf8_text(bytes: &[u8]) -> (r: Result<&str, String>)
    ensures
        r is Ok <==> valid_utf8(bytes@),
        r matches Ok(s) ==> s@ == decode_utf8(bytes@),
        r matches Err(m) ==> m@ == utf8_error(bytes@),
{
    match std::str::from_utf8(bytes) {
        Ok(s) => Ok(s),
        Err(err) => Err(err.to_string()),
    }
}

/// What checking SVG output gives: an error when the bytes are not UTF-8 or
/// the text is not a well-formed XML document.
pub open spec fn svg_check(bytes: Seq<u8>) -> Result<(), Seq<char>> {
    if !valid_utf8(bytes) {
        Err("SVG output is not valid UTF-8: "@ + utf8_error(bytes))
    } else {
        match xml_error(decode_utf8(bytes)) {
            Some(m) => Err("Invalid SVG emitted: "@ + m),
            None => Ok(()),
        }
    }
}

/// The value of a check result.
pub open spec fn check_result(r: Result<(), String>) -> Result<(), Seq<char>> {
    match r {
        Ok(()) => Ok(()),
        Err(m) => Err(m@),
    }
}

fn prefixed(prefix: &str, detail: &str) -> (m: String)
    ensures
        m@ == prefix@ + detail@,
{
    let mut m = String::new();
    push_str(&mut m, prefix);
    push_str(&mut m, detail);
    assert(m@ =~= prefix@ + detail@);
    m
}

/// Checks that SVG output is UTF-8 text holding a well-formed XML document.
pub fn validate_svg(svg_data: &[u8]) -> (r: Result<(), String>)
    ensures
        check_result(r) == svg_check(svg_data@),
{
    let text = match utf8_text(svg_data) {
        Ok(t) => t,
        Err(m) => {
            return Err(prefixed("SVG output is not valid UTF-8: ", m.as_str()));
        },
    };
    match roxml_error(text) {
        Some(m) => Err(prefixed("Invalid SVG emitted: ", m.as_str())),
        None => Ok(()),
    }
}

/// The value of a result that carries bytes or a message.
pub open spec fn bytes_result(r: Result<Vec<u8>, String>) -> Result<Seq<u8>, Seq<char>> {
    match r {
        Ok(b) => Ok(b@),
        Err(m) => Err(m@),
    }
}

/// What checking the outcome of writing a document gives: a failed write
/// stays failed, and bytes written are kept when they pass [`svg_check`] and
/// replaced by its message when they do not.
pub open spec fn checked_svg(written: Result<Seq<u8>, Seq<char>>) -> Result<Seq<u8>, Seq<char>> {
    match written {
        Err(m) => Err(m),
        Ok(b) => match svg_check(b) {
            Ok(()) => Ok(b),
            Err(m) => Err(m),
        },
    }
}

/// Checks the outcome of writing a document: passes a write error on, and
/// gives back bytes written only when they are UTF-8 text holding a
/// well-formed XML document.
pub fn check_written_svg(written: Result<Vec<u8>, String>) -> (r: Result<Vec<u8>, String>)
    ensures
        bytes_result(r) == checked_svg(bytes_result(written)),
{
    match written {
        Err(m) => Err(m),
        Ok(buf) => match validate_svg(buf.as_slice()) {
            Ok(()) => Ok(buf),
            Err(m) => Err(m),
        },
    }
}

/// Writes an SVG document out and checks the bytes written. Whether the
/// write succeeds, and which bytes it gives, is up to `xmltree`; whatever it
/// gives is handed to [`check_written_svg`], so bytes come back only when
/// they pass [`svg_check`].
pub fn emit_svg_bytes(element: SvgElement) -> (r: Result<Vec<u8>, String>)
    ensures
        r matches Ok(b) ==> svg_check(b@) is Ok,
{
    let written = write_xml(element);
    check_written_svg(written)
}

} // verus!
