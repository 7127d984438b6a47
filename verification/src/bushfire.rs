//! The alert feed: entries, parsing, and the proximity check.
//!
//! The feed is Atom with GeoRSS points. Every descendant of an `entry`
//! element is walked exactly once; fields are matched by (local name,
//! namespace), later occurrences win, and a field whose text does not
//! decode is simply left absent.

use vstd::prelude::*;
use vstd::string::StringExecFns;

use crate::geo;
use crate::geo::{GeoPoint, ALERT_DISTANCE_KM};
use crate::stamp::{parse_rfc3339, rfc3339_of, Timestamp};
use crate::text::{opt_text_view, pairs_view, str_eq};
use crate::xml::{
    descendant_of, is_descendant, nodes_view, parse_document, well_parented,
    xml_error_text, xml_nodes_of, XmlNode, XmlNodeView,
};

verus! {

/// The feed's stable identifier for an alert; equality is exact string
/// match and it is the dedup key.
#[derive(Debug, PartialEq, Eq, Hash, Clone)]
pub struct EntryId(pub String);

impl View for EntryId {
    type V = Seq<char>;

    open spec fn view(&self) -> Seq<char> {
        self.0@
    }
}

/// One hazard alert read from the feed.
#[derive(Debug, PartialEq)]
pub struct Entry {
    pub category: Option<String>,
    pub content: Option<String>,
    pub id: EntryId,
    pub published: Option<Timestamp>,
    pub title: Option<String>,
    pub updated: Option<Timestamp>,
    pub point: Option<GeoPoint>,
}

#[verifier::ext_equal]
pub ghost struct EntryView {
    pub category: Option<Seq<char>>,
    pub content: Option<Seq<char>>,
    pub id: Seq<char>,
    pub published: Option<Timestamp>,
    pub title: Option<Seq<char>>,
    pub updated: Option<Timestamp>,
    pub point: Option<GeoPoint>,
}

impl View for Entry {
    type V = EntryView;

    open spec fn view(&self) -> EntryView {
        EntryView {
            category: opt_text_view(self.category),
            content: opt_text_view(self.content),
            id: self.id@,
            published: self.published,
            title: opt_text_view(self.title),
            updated: self.updated,
            point: self.point,
        }
    }
}

pub open spec fn entries_view(es: Seq<Entry>) -> Seq<EntryView> {
    es.map_values(|e: Entry| e@)
}

/// A failure of one poll cycle.
#[derive(Debug)]
pub enum BushfireError {
    /// The fetched text is not well-formed XML.
    Xml(String),
    /// The feed could not be fetched.
    Http(String),
    /// Reading or writing failed at the transport or store level.
    Io(String),
}

pub open spec fn spec_message(e: BushfireError) -> Seq<char> {
    match e {
        BushfireError::Xml(s) => "unable to parse XML: "@ + s@,
        BushfireError::Http(s) => "HTTP request error: "@ + s@,
        BushfireError::Io(s) => "I/O error: "@ + s@,
    }
}

impl BushfireError {
    /// The failure text, for reports and logs.
    pub fn message(&self) -> (r: String)
        ensures
            r@ == spec_message(*self),
    {
        match self {
            BushfireError::Xml(s) => String::from_str("unable to parse XML: ").concat(s.as_str()),
            BushfireError::Http(s) => String::from_str("HTTP request error: ").concat(s.as_str()),
            BushfireError::Io(s) => String::from_str("I/O error: ").concat(s.as_str()),
        }
    }
}

// ---------------------------------------------------------------------------
// Reading entries out of the document's nodes
// ---------------------------------------------------------------------------

pub open spec fn atom_ns() -> Seq<char> {
    "http://www.w3.org/2005/Atom"@
}

pub open spec fn georss_ns() -> Seq<char> {
    "http://www.georss.org/georss"@
}

pub open spec fn is_entry_elem(n: XmlNodeView) -> bool {
    n.elem && n.name == "entry"@ && n.ns == Some(atom_ns())
}

/// The value of the first `term` attribute, if any.
pub open spec fn attr_term(attrs: Seq<(Seq<char>, Seq<char>)>) -> Option<Seq<char>>
    decreases attrs.len(),
{
    if attrs.len() == 0 {
        None
    } else if attrs[0].0 == "term"@ {
        Some(attrs[0].1)
    } else {
        attr_term(attrs.skip(1))
    }
}

pub open spec fn empty_entry() -> EntryView {
    EntryView {
        category: None,
        content: None,
        id: Seq::<char>::empty(),
        published: None,
        title: None,
        updated: None,
        point: None,
    }
}

/// One descendant node's effect on the entry under construction.
pub open spec fn apply_node(e: EntryView, n: XmlNodeView) -> EntryView {
    if !n.elem {
        e
    } else if n.ns == Some(atom_ns()) {
        if n.name == "category"@ {
            EntryView { category: attr_term(n.attrs), ..e }
        } else if n.name == "content"@ {
            EntryView { content: n.text, ..e }
        } else if n.name == "id"@ {
            match n.text {
                Some(t) => EntryView { id: t, ..e },
                None => e,
            }
        } else if n.name == "published"@ {
            match n.text {
                Some(t) => EntryView { published: rfc3339_of(t), ..e },
                None => e,
            }
        } else if n.name == "title"@ {
            EntryView { title: n.text, ..e }
        } else if n.name == "updated"@ {
            match n.text {
                Some(t) => EntryView { updated: rfc3339_of(t), ..e },
                None => e,
            }
        } else {
            e
        }
    } else if n.ns == Some(georss_ns()) && n.name == "point"@ {
        match n.text {
            Some(t) => match geo::spec_parse_point(t) {
                Some(p) => EntryView { point: Some(p), ..e },
                None => e,
            },
            None => e,
        }
    } else {
        e
    }
}

/// The entry at element `i`, after the first `k` nodes of the document
/// have been walked.
pub open spec fn entry_fold(ns: Seq<XmlNodeView>, i: int, k: int) -> EntryView
    decreases k,
{
    if k <= 0 {
        empty_entry()
    } else {
        let prev = entry_fold(ns, i, k - 1);
        if is_descendant(ns, k - 1, i) {
            apply_node(prev, ns[k - 1])
        } else {
            prev
        }
    }
}

/// The entry built from the descendants of element `i`, in document
/// order.
pub open spec fn entry_at(ns: Seq<XmlNodeView>, i: int) -> EntryView {
    entry_fold(ns, i, ns.len() as int)
}

pub open spec fn entries_upto(ns: Seq<XmlNodeView>, k: int) -> Seq<EntryView>
    decreases k,
{
    if k <= 0 {
        Seq::<EntryView>::empty()
    } else {
        let pre = entries_upto(ns, k - 1);
        if is_entry_elem(ns[k - 1]) {
            pre.push(entry_at(ns, k - 1))
        } else {
            pre
        }
    }
}

/// The document's entries, in document order.
pub open spec fn entries_of(ns: Seq<XmlNodeView>) -> Seq<EntryView> {
    entries_upto(ns, ns.len() as int)
}

/// The value of the first `term` attribute of an element.
fn find_term(attrs: &Vec<(String, String)>) -> (r: Option<String>)
    ensures
        opt_text_view(r) == attr_term(pairs_view(attrs@)),
{
    let ghost av = pairs_view(attrs@);
    proof {
        assert(av.skip(0) =~= av);
    }
    let mut idx: usize = 0;
    while idx < attrs.len()
        invariant
            0 <= idx <= attrs@.len(),
            av == pairs_view(attrs@),
            av.len() == attrs@.len(),
            attr_term(av) == attr_term(av.skip(idx as int)),
        decreases attrs@.len() - idx,
    {
        proof {
            assert(av[idx as int] == (attrs@[idx as int].0@, attrs@[idx as int].1@));
            assert(av.skip(idx as int)[0] == av[idx as int]);
        }
        if str_eq(attrs[idx].0.as_str(), "term") {
            return Some(attrs[idx].1.clone());
        }
        proof {
            assert(av.skip(idx as int).skip(1) =~= av.skip(idx + 1));
        }
        idx += 1;
    }
    proof {
        assert(av.skip(idx as int).len() == 0);
    }
    None
}

fn clone_text(t: &Option<String>) -> (r: Option<String>)
    ensures
        opt_text_view(r) == opt_text_view(*t),
{
    match t {
        Some(s) => Some(s.clone()),
        None => None,
    }
}

fn is_atom_elem(node: &XmlNode) -> (r: bool)
    ensures
        r == (node@.ns == Some(atom_ns())),
{
    match &node.ns {
        Some(s) => str_eq(s.as_str(), "http://www.w3.org/2005/Atom"),
        None => false,
    }
}

fn is_georss_elem(node: &XmlNode) -> (r: bool)
    ensures
        r == (node@.ns == Some(georss_ns())),
{
    match &node.ns {
        Some(s) => str_eq(s.as_str(), "http://www.georss.org/georss"),
        None => false,
    }
}

impl Entry {
    /// Build the entry at element `i` by walking every descendant node
    /// once, in document order.
    fn parse(nodes: &Vec<XmlNode>, i: usize) -> (e: Entry)
        requires
            i < nodes@.len(),
            well_parented(nodes_view(nodes@)),
        ensures
            e@ == entry_at(nodes_view(nodes@), i as int),
    {
        let ghost vs = nodes_view(nodes@);
        let mut e = Entry {
            category: None,
            content: None,
            id: EntryId(String::new()),
            published: None,
            title: None,
            updated: None,
            point: None,
        };
        proof {
            assert(e@ =~= empty_entry());
        }
        let mut j: usize = 0;
        while j < nodes.len()
            invariant
                0 <= j <= nodes@.len(),
                i < nodes@.len(),
                vs == nodes_view(nodes@),
                well_parented(vs),
                e@ == entry_fold(vs, i as int, j as int),
            decreases nodes@.len() - j,
        {
            proof {
                assert(vs[j as int] == nodes@[j as int]@);
            }
            if descendant_of(nodes, j, i) {
                let node = &nodes[j];
                if node.elem {
                    if is_atom_elem(node) {
                        if str_eq(node.name.as_str(), "category") {
                            e.category = find_term(&node.attrs);
                        } else if str_eq(node.name.as_str(), "content") {
                            e.content = clone_text(&node.text);
                        } else if str_eq(node.name.as_str(), "id") {
                            if let Some(t) = &node.text {
                                e.id = EntryId(t.clone());
                            }
                        } else if str_eq(node.name.as_str(), "published") {
                            if let Some(t) = &node.text {
                                e.published = parse_rfc3339(t.as_str());
                            }
                        } else if str_eq(node.name.as_str(), "title") {
                            e.title = clone_text(&node.text);
                        } else if str_eq(node.name.as_str(), "updated") {
                            if let Some(t) = &node.text {
                                e.updated = parse_rfc3339(t.as_str());
                            }
                        }
                    } else if is_georss_elem(node) && str_eq(node.name.as_str(), "point") {
                        if let Some(t) = &node.text {
                            match geo::parse_point(t.as_str()) {
                                Some(p) => e.point = Some(p),
                                None => (),
                            }
                        }
                    }
                }
                proof {
                    assert(e@ =~= apply_node(entry_fold(vs, i as int, j as int), vs[j as int]));
                }
            }
            j += 1;
        }
        e
    }

    /// Whether this alert is near `reference`. An entry with no point
    /// is near by definition: an alert of unknown location is never
    /// suppressed.
    pub fn near(&self, reference: GeoPoint) -> (r: bool)
        ensures
            r == spec_entry_near(self@, reference),
    {
        match self.point {
            Some(p) => geo::near(reference, p, ALERT_DISTANCE_KM),
            None => true,
        }
    }
}

pub open spec fn spec_entry_near(e: EntryView, reference: GeoPoint) -> bool {
    match e.point {
        Some(p) => geo::spec_near(reference, p, ALERT_DISTANCE_KM),
        None => true,
    }
}

/// Decode the fetched feed into its entries, in document order.
pub fn parse_feed(body: &str) -> (r: Result<Vec<Entry>, BushfireError>)
    ensures
        match r {
            Ok(entries) => xml_nodes_of(body@) matches Some(ns) && entries_view(entries@)
                == entries_of(ns),
            Err(e) => xml_nodes_of(body@) is None && e matches BushfireError::Xml(_),
        },
{
    let nodes = match parse_document(body) {
        Ok(nodes) => nodes,
        Err(e) => {
            return Err(BushfireError::Xml(xml_error_text(&e)));
        },
    };
    let ghost vs = nodes_view(nodes@);
    let mut out: Vec<Entry> = Vec::new();
    let mut i: usize = 0;
    while i < nodes.len()
        invariant
            0 <= i <= nodes@.len(),
            vs == nodes_view(nodes@),
            well_parented(vs),
            entries_view(out@) == entries_upto(vs, i as int),
        decreases nodes@.len() - i,
    {
        proof {
            assert(vs[i as int] == nodes@[i as int]@);
        }
        let is_entry = nodes[i].elem && is_atom_elem(&nodes[i]) && str_eq(
            nodes[i].name.as_str(),
            "entry",
        );
        if is_entry {
            let e = Entry::parse(&nodes, i);
            proof {
                assert(entries_view(out@).push(e@) =~= entries_view(out@.push(e)));
            }
            out.push(e);
        }
        i += 1;
    }
    Ok(out)
}

pub open spec fn near_filter_upto(es: Seq<EntryView>, reference: GeoPoint, k: int) -> Seq<
    EntryView,
>
    decreases k,
{
    if k <= 0 {
        Seq::<EntryView>::empty()
    } else {
        let pre = near_filter_upto(es, reference, k - 1);
        if spec_entry_near(es[k - 1], reference) {
            pre.push(es[k - 1])
        } else {
            pre
        }
    }
}

/// The entries near `reference`, kept in document order.
pub open spec fn near_filter(es: Seq<EntryView>, reference: GeoPoint) -> Seq<EntryView> {
    near_filter_upto(es, reference, es.len() as int)
}

/// Check the fetched feed text for entries near `notify_near`.
pub fn check(body: &str, notify_near: GeoPoint) -> (r: Result<Vec<Entry>, BushfireError>)
    ensures
        match r {
            Ok(es) => xml_nodes_of(body@) matches Some(ns) && entries_view(es@) == near_filter(
                entries_of(ns),
                notify_near,
            ),
            Err(e) => xml_nodes_of(body@) is None && e matches BushfireError::Xml(_),
        },
{
    let entries = match parse_feed(body) {
        Ok(entries) => entries,
        Err(e) => {
            return Err(e);
        },
    };
    let ghost all = entries_view(entries@);
    let mut v = entries;
    let mut out: Vec<Entry> = Vec::new();
    let mut k: usize = 0;
    let total = v.len();
    proof {
        assert(all.len() == total as int);
        assert(entries_view(v@) =~= all.skip(0));
    }
    while v.len() > 0
        invariant
            0 <= k,
            k + v@.len() == all.len(),
            all.len() <= usize::MAX,
            entries_view(v@) == all.skip(k as int),
            entries_view(out@) == near_filter_upto(all, notify_near, k as int),
        decreases v@.len(),
    {
        let ghost prev = v@;
        let e = v.remove(0);
        proof {
            assert(entries_view(prev)[0] == prev[0]@);
            assert(e@ == all.skip(k as int)[0]);
            assert(e@ == all[k as int]);
            assert(v@ =~= prev.skip(1));
            assert(entries_view(v@) =~= all.skip(k + 1)) by {
                assert forall|m: int| 0 <= m < v@.len() implies entries_view(v@)[m] == all.skip(
                    k + 1,
                )[m] by {
                    assert(entries_view(v@)[m] == v@[m]@);
                    assert(v@[m] == prev[m + 1]);
                    assert(entries_view(prev)[m + 1] == prev[m + 1]@);
                    assert(entries_view(prev)[m + 1] == all.skip(k as int)[m + 1]);
                    assert(all.skip(k as int)[m + 1] == all[k + 1 + m]);
                    assert(all.skip(k + 1)[m] == all[k + 1 + m]);
                }
            }
        }
        if e.near(notify_near) {
            proof {
                assert(entries_view(out@).push(e@) =~= entries_view(out@.push(e)));
            }
            out.push(e);
        }
        k += 1;
    }
    proof {
        assert(near_filter_upto(all, notify_near, all.len() as int) == near_filter(
            all,
            notify_near,
        ));
    }
    Ok(out)
}

// ---------------------------------------------------------------------------
// A document with no entry elements parses to no entries.
// ---------------------------------------------------------------------------

proof fn lemma_entries_upto_empty(ns: Seq<XmlNodeView>, k: int)
    requires
        k <= ns.len(),
        forall|i: int| 0 <= i < ns.len() ==> !is_entry_elem(ns[i]),
    ensures
        entries_upto(ns, k) == Seq::<EntryView>::empty(),
    decreases k,
{
    if k > 0 {
        lemma_entries_upto_empty(ns, k - 1);
    }
}

/// A document that holds no entry element of the feed's namespace
/// parses to an empty sequence of entries.
pub proof fn lemma_no_entries_parses_empty(ns: Seq<XmlNodeView>)
    requires
        forall|i: int| 0 <= i < ns.len() ==> !is_entry_elem(ns[i]),
    ensures
        entries_of(ns) == Seq::<EntryView>::empty(),
{
    lemma_entries_upto_empty(ns, ns.len() as int);
}

} // verus!
