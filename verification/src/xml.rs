//! A plain model of a parsed XML document.
//!
//! The document is held as its nodes in document order; each node keeps
//! the index of its parent, so that the feed logic can walk an element's
//! descendants in verified code.

use vstd::prelude::*;

use crate::text::{opt_text_view, pairs_view};

verus! {

/// One node of a parsed document. `parent` is the index of the node's
/// parent; the document's root stands at index zero with `parent == 0`.
pub struct XmlNode {
    pub parent: usize,
    pub elem: bool,
    pub name: String,
    pub ns: Option<String>,
    pub text: Option<String>,
    pub attrs: Vec<(String, String)>,
}

#[verifier::ext_equal]
pub ghost struct XmlNodeView {
    pub parent: int,
    pub elem: bool,
    pub name: Seq<char>,
    pub ns: Option<Seq<char>>,
    pub text: Option<Seq<char>>,
    pub attrs: Seq<(Seq<char>, Seq<char>)>,
}

impl View for XmlNode {
    type V = XmlNodeView;

    open spec fn view(&self) -> XmlNodeView {
        XmlNodeView {
            parent: self.parent as int,
            elem: self.elem,
            name: self.name@,
            ns: opt_text_view(self.ns),
            text: opt_text_view(self.text),
            attrs: pairs_view(self.attrs@),
        }
    }
}

pub open spec fn nodes_view(nodes: Seq<XmlNode>) -> Seq<XmlNodeView> {
    nodes.map_values(|n: XmlNode| n@)
}

/// Every node but the root points at a parent that stands before it.
pub open spec fn well_parented(ns: Seq<XmlNodeView>) -> bool {
    forall|j: int| 1 <= j < ns.len() ==> 0 <= #[trigger] ns[j].parent < j
}

/// What `roxmltree` reads out of a document: its nodes in document
/// order, or nothing when the text is not well-formed XML.
pub uninterp spec fn xml_nodes_of(text: Seq<char>) -> Option<Seq<XmlNodeView>>;

#[verifier::external_type_specification]
#[verifier::external_body]
pub struct ExXmlError(roxmltree::Error);

/// Relies on roxmltree::Document::parse for XML well-formedness and
/// namespace resolution, and on Node::{parent, is_element, tag_name,
/// text, attributes} plus Attribute::{name, value}, read off every node
/// in document order. roxmltree stores nodes in document order and a
/// parent always stands before its children.
#[verifier::external_body]
pub(crate) fn parse_document(text: &str) -> (r: Result<Vec<XmlNode>, roxmltree::Error>)
    ensures
        (r is Ok) == (xml_nodes_of(text@) is Some),
        r matches Ok(nodes) ==> xml_nodes_of(text@) == Some(nodes_view(nodes@))
            && well_parented(nodes_view(nodes@)),
{
    let doc = match roxmltree::Document::parse(text) {
        Ok(doc) => doc,
        Err(e) => return Err(e),
    };
    Ok(doc.descendants().map(|n| XmlNode {
        parent: n.parent().map_or(0, |p| p.id().get_usize()),
        elem: n.is_element(),
        name: n.tag_name().name().to_string(),
        ns: n.tag_name().namespace().map(str::to_string),
        text: n.text().map(str::to_string),
        attrs: n.attributes().map(|a| (a.name().to_string(), a.value().to_string())).collect(),
    }).collect())
}

/// Relies on the Display impl of roxmltree::Error for the failure text.
#[verifier::external_body]
pub(crate) fn xml_error_text(e: &roxmltree::Error) -> String {
    format!("{e}")
}

/// Node `j` lies somewhere below node `a` in the tree.
pub open spec fn is_descendant(ns: Seq<XmlNodeView>, j: int, a: int) -> bool
    decreases (if j >= 0 {
        j
    } else {
        0
    }),
{
    if 0 < j < ns.len() {
        let p = ns[j].parent;
        0 <= p < j && (p == a || is_descendant(ns, p, a))
    } else {
        false
    }
}

/// Walk the parent chain of `j` and test whether it passes through `a`.
pub fn descendant_of(nodes: &Vec<XmlNode>, j: usize, a: usize) -> (r: bool)
    requires
        j < nodes@.len(),
        well_parented(nodes_view(nodes@)),
    ensures
        r == is_descendant(nodes_view(nodes@), j as int, a as int),
{
    let ghost vs = nodes_view(nodes@);
    let mut k = j;
    while k > 0
        invariant
            k <= j < nodes@.len(),
            vs == nodes_view(nodes@),
            well_parented(vs),
            is_descendant(vs, j as int, a as int) == is_descendant(vs, k as int, a as int),
        decreases k,
    {
        proof {
            assert(vs[k as int] == nodes@[k as int]@);
        }
        let p = nodes[k].parent;
        if p == a {
            return true;
        }
        k = p;
    }
    false
}

} // verus!
