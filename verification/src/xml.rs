//! XML documents as a flat list of nodes in document order, as roxmltree
//! parses them, and attribute lookup on them.
use vstd::prelude::*;
use crate::profiles::opt_view;
use crate::text::str_eq;

verus! {

/// An attribute: its namespace URI (if any), its local name and its value.
pub type XmlAttrView = (Option<Seq<char>>, Seq<char>, Seq<char>);

/// A node: whether it is an element, its local tag name (empty for other
/// nodes), its attributes in document order, and the position of its parent
/// in the node list (`None` for the document root).
pub type XmlNodeView = (bool, Seq<char>, Seq<XmlAttrView>, Option<usize>);

/// One node of a parsed document.
pub struct XmlNode {
    pub element: bool,
    pub tag: String,
    pub attrs: Vec<(Option<String>, String, String)>,
    pub parent: Option<usize>,
}

pub open spec fn xml_attr_view(a: (Option<String>, String, String)) -> XmlAttrView {
    (opt_view(a.0), a.1@, a.2@)
}

pub open spec fn xml_node_view(n: XmlNode) -> XmlNodeView {
    (n.element, n.tag@, n.attrs@.map_values(|a: (Option<String>, String, String)| xml_attr_view(a)), n.parent)
}

pub open spec fn xml_node_views(ns: Seq<XmlNode>) -> Seq<XmlNodeView> {
    ns.map_values(|n: XmlNode| xml_node_view(n))
}

/// What roxmltree makes of a text: all nodes of the document, the root
/// first, in document order, each with its parent's position; or the text of
/// the parse error.
pub uninterp spec fn xml_parse_of(xml: Seq<char>) -> Result<
    Seq<(bool, Seq<char>, Seq<(Option<Seq<char>>, Seq<char>, Seq<char>)>, Option<usize>)>,
    Seq<char>,
>;

/// Parses `xml` with `roxmltree::Document::parse` and lists its nodes as
/// `Document::descendants` yields them from the root.  roxmltree keeps its
/// nodes in one vector in document order and `descendants` of the root walks
/// that vector from the start, so a node's `NodeId` is its position in the
/// list and `parent` points into the same list.  The contract says that the
/// result is the named parse of the text, or its error message.
#[verifier::external_body]
pub(crate) fn parse_xml_nodes(xml: &str) -> (r: Result<Vec<XmlNode>, String>)
    ensures
        match xml_parse_of(xml@) {
            Ok(ns) => r matches Ok(v) && xml_node_views(v@) == ns,
            Err(m) => r matches Err(e) && e@ == m,
        },
{
    let doc = roxmltree::Document::parse(xml).map_err(|e| e.to_string())?;
    Ok(doc.descendants().map(|n| XmlNode {
        element: n.is_element(),
        tag: n.tag_name().name().to_string(),
        attrs: n.attributes().map(|a| (a.namespace().map(|s| s.to_string()), a.name().to_string(), a.value().to_string())).collect(),
        parent: n.parent().map(|p| p.id().get_usize()),
    }).collect())
}

/// The value of the first attribute without a namespace named `name`, as
/// roxmltree's `Node::attribute` finds it for a plain name.
pub open spec fn xml_attr(attrs: Seq<XmlAttrView>, name: Seq<char>) -> Option<Seq<char>>
    decreases attrs.len(),
{
    if attrs.len() == 0 {
        None
    } else if attrs[0].0 is None && attrs[0].1 == name {
        Some(attrs[0].2)
    } else {
        xml_attr(attrs.drop_first(), name)
    }
}

/// Whether a node is an element with the local name `tag`.
pub open spec fn is_xml_element(n: XmlNodeView, tag: Seq<char>) -> bool {
    n.0 && n.1 == tag
}

/// The value of attribute `name` of a node.
pub fn attribute(n: &XmlNode, name: &str) -> (r: Option<String>)
    ensures
        opt_view(r) == xml_attr(xml_node_view(*n).2, name@),
{
    let ghost all = xml_node_view(*n).2;
    let mut i: usize = 0;
    assert(all.skip(0) == all);
    while i < n.attrs.len()
        invariant
            i <= n.attrs@.len(),
            all == n.attrs@.map_values(|a: (Option<String>, String, String)| xml_attr_view(a)),
            xml_attr(all, name@) == xml_attr(all.skip(i as int), name@),
        decreases n.attrs.len() - i,
    {
        let a = &n.attrs[i];
        proof {
            assert(all.skip(i as int)[0] == xml_attr_view(n.attrs@[i as int]));
            assert(all.skip(i as int).drop_first() == all.skip(i + 1));
        }
        if a.0.is_none() && str_eq(a.1.as_str(), name) {
            return Some(a.2.clone());
        }
        i = i + 1;
    }
    proof {
        assert(all.skip(i as int).len() == 0);
    }
    None
}

/// Whether a node is an element named `tag`.
pub fn has_tag(n: &XmlNode, tag: &str) -> (r: bool)
    ensures
        r == is_xml_element(xml_node_view(*n), tag@),
{
    n.element && str_eq(n.tag.as_str(), tag)
}

} // verus!
