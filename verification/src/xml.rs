//! XML documents as plain library values: every node in document order, each
//! pointing at its parent.

use vstd::prelude::*;
use crate::text::{chars_of, chars_equal};

verus! {

/// The kind of an XML node.
#[derive(Debug, Clone, Copy, PartialEq, Eq, Structural)]
pub enum XmlKind {
    Root,
    Element,
    Text,
    Comment,
    ProcessingInstruction,
}

/// One XML node: its kind, local name, attributes in document order, text (an
/// element's first text child; a text node's content) and the index of its parent.
#[derive(Debug, Clone)]
pub struct XmlNode {
    pub kind: XmlKind,
    pub name: String,
    pub attributes: Vec<(String, String)>,
    pub text: Option<String>,
    pub parent: Option<usize>,
}

/// `roxmltree::Node`, carried through conversion only.
#[verifier::external_type_specification]
#[verifier::external_body]
pub struct ExXmlNode<'a, 'input: 'a>(roxmltree::Node<'a, 'input>);

/// What `roxmltree` parses `text` to with at most `nodes_limit` nodes, as library
/// values in document order (`None` when it is not well-formed XML).
pub uninterp spec fn spec_parse_xml(text: Seq<char>, nodes_limit: u32) -> Option<Seq<XmlNode>>;

/// One `roxmltree` node converted to a library value.
#[verifier::external_body]
fn node_of(node: roxmltree::Node<'_, '_>) -> XmlNode {
    XmlNode {
        kind: match node.node_type() {
            roxmltree::NodeType::Root => XmlKind::Root,
            roxmltree::NodeType::Element => XmlKind::Element,
            roxmltree::NodeType::Text => XmlKind::Text,
            roxmltree::NodeType::Comment => XmlKind::Comment,
            roxmltree::NodeType::PI => XmlKind::ProcessingInstruction,
        },
        name: node.tag_name().name().to_string(),
        attributes: node.attributes().map(|a| (a.name().to_string(), a.value().to_string())).collect(),
        text: node.text().map(String::from),
        parent: node.parent().map(|p| p.id().get_usize()),
    }
}

/// `roxmltree::Document::parse_with_options` (DTDs refused, `nodes_limit` nodes at
/// most), every node converted in document order: `None` when `text` is not
/// well-formed XML. The nodes are named, not restated.
#[verifier::external_body]
pub fn parse_xml(text: &str, nodes_limit: u32) -> (res: Option<Vec<XmlNode>>)
    ensures
        res matches Some(v) ==> spec_parse_xml(text@, nodes_limit) == Some(v@),
        res is None ==> spec_parse_xml(text@, nodes_limit) is None,
{
    let options = roxmltree::ParsingOptions { allow_dtd: false, nodes_limit };
    let document = roxmltree::Document::parse_with_options(text, options).ok()?;
    Some(document.root().descendants().map(node_of).collect())
}

/// Every node's parent comes before it, and node 0 is the document root.
pub open spec fn well_formed(nodes: Seq<XmlNode>) -> bool {
    &&& nodes.len() > 0
    &&& nodes[0].parent is None
    &&& forall|j: int|
        0 < j < nodes.len() ==> ((#[trigger] nodes[j]).parent matches Some(p) && p < j)
}

/// Check the parent ordering of a converted document.
pub fn check_well_formed(nodes: &Vec<XmlNode>) -> (res: bool)
    ensures
        res == well_formed(nodes@),
{
    if nodes.len() == 0 {
        return false;
    }
    if nodes[0].parent.is_some() {
        return false;
    }
    let mut j: usize = 1;
    while j < nodes.len()
        invariant
            1 <= j <= nodes@.len(),
            forall|k: int| 0 < k < j ==> ((#[trigger] nodes@[k]).parent matches Some(p) && p < k),
        decreases nodes@.len() - j,
    {
        match nodes[j].parent {
            Some(p) => if p >= j {
                return false;
            },
            None => return false,
        }
        j = j + 1;
    }
    true
}

/// `a` is `j` or one of its ancestors.
pub open spec fn within(nodes: Seq<XmlNode>, j: int, a: int) -> bool
    decreases j,
{
    if j == a {
        true
    } else if j <= 0 || j >= nodes.len() {
        false
    } else {
        match nodes[j].parent {
            Some(p) => if 0 <= p < j {
                within(nodes, p as int, a)
            } else {
                false
            },
            None => false,
        }
    }
}

/// Whether node `a` is node `j` or one of its ancestors.
pub fn is_within(nodes: &Vec<XmlNode>, j: usize, a: usize) -> (res: bool)
    requires
        j < nodes@.len(),
    ensures
        res == within(nodes@, j as int, a as int),
{
    let mut k = j;
    while k != a
        invariant
            k < nodes@.len(),
            within(nodes@, j as int, a as int) == within(nodes@, k as int, a as int),
        decreases k,
    {
        if k == 0 {
            return false;
        }
        match nodes[k].parent {
            Some(p) => if p < k {
                k = p;
            } else {
                return false;
            },
            None => return false,
        }
    }
    true
}

/// The element is named `name`.
pub open spec fn has_tag(node: XmlNode, name: Seq<char>) -> bool {
    node.kind == XmlKind::Element && node.name@ == name
}

/// Whether `node` is an element named `name`.
pub fn is_tag(node: &XmlNode, name: &str) -> (res: bool)
    ensures
        res == has_tag(*node, name@),
{
    if node.kind != XmlKind::Element {
        return false;
    }
    let n = chars_of(node.name.as_str());
    crate::text::text_is(&n, name)
}

/// The value of the first attribute named `name`.
pub open spec fn find_attribute(attrs: Seq<(String, String)>, name: Seq<char>) -> Option<Seq<char>>
    decreases attrs.len(),
{
    if attrs.len() == 0 {
        None
    } else if attrs[0].0@ == name {
        Some(attrs[0].1@)
    } else {
        find_attribute(attrs.drop_first(), name)
    }
}

/// The value of the attribute `name` of a node.
pub open spec fn attribute(node: XmlNode, name: Seq<char>) -> Option<Seq<char>> {
    find_attribute(node.attributes@, name)
}

/// The attribute `name` of `node`.
pub fn attr<'a>(node: &'a XmlNode, name: &str) -> (res: Option<&'a String>)
    ensures
        res matches Some(v) ==> attribute(*node, name@) == Some(v@),
        res is None ==> attribute(*node, name@) is None,
{
    let n = chars_of(name);
    let mut i: usize = 0;
    assert(node.attributes@.skip(0) =~= node.attributes@);
    while i < node.attributes.len()
        invariant
            0 <= i <= node.attributes@.len(),
            n@ == name@,
            attribute(*node, name@) == find_attribute(node.attributes@.skip(i as int), name@),
        decreases node.attributes@.len() - i,
    {
        assert(node.attributes@.skip(i as int).drop_first() =~= node.attributes@.skip(i + 1));
        assert(node.attributes@.skip(i as int)[0] == node.attributes@[i as int]);
        let k = chars_of(node.attributes[i].0.as_str());
        if chars_equal(&k, &n) {
            return Some(&node.attributes[i].1);
        }
        i = i + 1;
    }
    None
}

} // verus!

verus! {

/// Node `k` is a child of node `j`.
pub open spec fn child_of(nodes: Seq<XmlNode>, k: int, j: int) -> bool {
    nodes[k].parent == Some(j as usize)
}

/// Node `j` has a child element named `tag`.
pub open spec fn has_child_tag(nodes: Seq<XmlNode>, j: int, tag: Seq<char>) -> bool {
    exists|k: int| 0 <= k < nodes.len() && child_of(nodes, k, j) && has_tag(#[trigger] nodes[k], tag)
}

/// Whether node `j` has a child element named `tag`.
pub fn child_tag(nodes: &Vec<XmlNode>, j: usize, tag: &str) -> (res: bool)
    ensures
        res == has_child_tag(nodes@, j as int, tag@),
{
    let mut k: usize = 0;
    while k < nodes.len()
        invariant
            0 <= k <= nodes@.len(),
            forall|q: int| 0 <= q < k ==> !(child_of(nodes@, q, j as int) && has_tag(#[trigger] nodes@[q], tag@)),
        decreases nodes@.len() - k,
    {
        if nodes[k].parent == Some(j) && is_tag(&nodes[k], tag) {
            return true;
        }
        k = k + 1;
    }
    false
}

/// The document's root element: the first element whose parent is the document node.
pub open spec fn root_element(nodes: Seq<XmlNode>) -> Option<int> {
    if exists|j: int| is_root_element(nodes, j) {
        Some(choose|j: int| is_root_element(nodes, j))
    } else {
        None
    }
}

/// `j` is the first element child of node 0.
pub open spec fn is_root_element(nodes: Seq<XmlNode>, j: int) -> bool {
    &&& 0 <= j < nodes.len()
    &&& nodes[j].kind == XmlKind::Element
    &&& nodes[j].parent == Some(0usize)
    &&& forall|k: int| 0 <= k < j ==> !((#[trigger] nodes[k]).kind == XmlKind::Element && nodes[k].parent == Some(0usize))
}

/// The root element of a document.
pub fn find_root_element(nodes: &Vec<XmlNode>) -> (res: Option<usize>)
    ensures
        res matches Some(j) ==> root_element(nodes@) == Some(j as int) && j < nodes@.len(),
        res is None ==> root_element(nodes@) is None,
{
    let mut j: usize = 0;
    while j < nodes.len()
        invariant
            0 <= j <= nodes@.len(),
            forall|k: int| 0 <= k < j ==> !((#[trigger] nodes@[k]).kind == XmlKind::Element && nodes@[k].parent == Some(0usize)),
        decreases nodes@.len() - j,
    {
        if nodes[j].kind == XmlKind::Element && nodes[j].parent == Some(0usize) {
            assert(is_root_element(nodes@, j as int));
            let ghost c = choose|c: int| is_root_element(nodes@, c);
            assert(c == j) by {
                if c < j {
                } else if c > j {
                    assert(nodes@[j as int].kind == XmlKind::Element && nodes@[j as int].parent == Some(0usize));
                }
            }
            return Some(j);
        }
        j = j + 1;
    }
    assert(!exists|c: int| is_root_element(nodes@, c));
    None
}

/// An optional numeric attribute: absent, a `usize`, or invalid.
pub open spec fn optional_number(node: XmlNode, name: Seq<char>) -> Result<Option<usize>, ()> {
    match attribute(node, name) {
        None => Ok(None),
        Some(v) => match crate::text::parse_uint(v, usize::MAX as nat) {
            Some(n) => Ok(Some(n as usize)),
            None => Err(()),
        },
    }
}

/// The numeric attribute `name` of `node`, if present.
pub fn number_attr(node: &XmlNode, name: &str) -> (res: Result<Option<usize>, ()>)
    ensures
        res == optional_number(*node, name@),
{
    match attr(node, name) {
        None => Ok(None),
        Some(v) => match crate::text::parse_usize_str(v) {
            Some(n) => Ok(Some(n)),
            None => Err(()),
        },
    }
}

} // verus!

verus! {

/// The nearest element named `tag` among node `j` and its ancestors.
pub open spec fn nearest_tagged(nodes: Seq<XmlNode>, j: int, tag: Seq<char>) -> Option<int>
    decreases j,
{
    if j < 0 || j >= nodes.len() {
        None
    } else if has_tag(nodes[j], tag) {
        Some(j)
    } else {
        match nodes[j].parent {
            Some(p) => if p < j {
                nearest_tagged(nodes, p as int, tag)
            } else {
                None
            },
            None => None,
        }
    }
}

/// The nearest element named `tag` that is node `j` or one of its ancestors.
pub fn nearest(nodes: &Vec<XmlNode>, j: usize, tag: &str) -> (res: Option<usize>)
    ensures
        res matches Some(k) ==> nearest_tagged(nodes@, j as int, tag@) == Some(k as int) && k
            < nodes@.len(),
        res is None ==> nearest_tagged(nodes@, j as int, tag@) is None,
{
    let mut k = j;
    loop
        invariant
            nearest_tagged(nodes@, j as int, tag@) == nearest_tagged(nodes@, k as int, tag@),
        decreases k,
    {
        if k >= nodes.len() {
            return None;
        }
        if is_tag(&nodes[k], tag) {
            return Some(k);
        }
        match nodes[k].parent {
            Some(p) => if p < k {
                k = p;
            } else {
                return None;
            },
            None => return None,
        }
    }
}

/// The first node among `0..n` that lies within node `a` and is an element named `tag`.
pub open spec fn first_desc(nodes: Seq<XmlNode>, a: int, tag: Seq<char>, n: int) -> Option<int>
    decreases n,
{
    if n <= 0 {
        None
    } else {
        match first_desc(nodes, a, tag, n - 1) {
            Some(k) => Some(k),
            None => if within(nodes, n - 1, a) && has_tag(nodes[n - 1], tag) {
                Some(n - 1)
            } else {
                None
            },
        }
    }
}

/// A found first descendant stays the first one over longer prefixes.
pub proof fn first_desc_stable(nodes: Seq<XmlNode>, a: int, tag: Seq<char>, m: int, n: int)
    requires
        m <= n,
        first_desc(nodes, a, tag, m) is Some,
    ensures
        first_desc(nodes, a, tag, n) == first_desc(nodes, a, tag, m),
    decreases n - m,
{
    if m < n {
        first_desc_stable(nodes, a, tag, m, n - 1);
    }
}

/// The first element named `tag` within node `a` (`a` itself included), in document order.
pub fn first_descendant(nodes: &Vec<XmlNode>, a: usize, tag: &str) -> (res: Option<usize>)
    ensures
        res matches Some(k) ==> first_desc(nodes@, a as int, tag@, nodes@.len() as int) == Some(
            k as int,
        ) && k < nodes@.len(),
        res is None ==> first_desc(nodes@, a as int, tag@, nodes@.len() as int) is None,
{
    let mut k: usize = 0;
    while k < nodes.len()
        invariant
            0 <= k <= nodes@.len(),
            first_desc(nodes@, a as int, tag@, k as int) is None,
        decreases nodes@.len() - k,
    {
        if is_within(nodes, k, a) && is_tag(&nodes[k], tag) {
            proof {
                first_desc_stable(nodes@, a as int, tag@, k + 1, nodes@.len() as int);
            }
            return Some(k);
        }
        k = k + 1;
    }
    None
}

/// Some node within node `a` is an element named `tag`.
pub open spec fn has_desc(nodes: Seq<XmlNode>, a: int, tag: Seq<char>) -> bool {
    exists|k: int| 0 <= k < nodes.len() && within(nodes, k, a) && has_tag(#[trigger] nodes[k], tag)
}

/// Whether some node within node `a` is an element named `tag`.
pub fn any_descendant(nodes: &Vec<XmlNode>, a: usize, tag: &str) -> (res: bool)
    ensures
        res == has_desc(nodes@, a as int, tag@),
{
    let mut k: usize = 0;
    while k < nodes.len()
        invariant
            0 <= k <= nodes@.len(),
            forall|q: int| 0 <= q < k ==> !(within(nodes@, q, a as int) && has_tag(#[trigger] nodes@[q], tag@)),
        decreases nodes@.len() - k,
    {
        if is_within(nodes, k, a) && is_tag(&nodes[k], tag) {
            return true;
        }
        k = k + 1;
    }
    false
}

} // verus!
