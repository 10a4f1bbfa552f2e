//! The XML tree that feeds are read from and written to.
//!
//! The tree mirrors the one that `xmltree` builds: parsing and writing are
//! done by that crate, the rest of the library works on these plain values.

use vstd::prelude::*;

verus! {

/// One node of an XML tree.
#[derive(Debug, PartialEq, Eq)]
pub enum XmlNode {
    Element(XmlElement),
    Comment(String),
    CData(String),
    Text(String),
    ProcessingInstruction(String, Option<String>),
}

/// An XML element with its attributes and children, in document order.
#[derive(Debug, PartialEq, Eq)]
pub struct XmlElement {
    pub prefix: Option<String>,
    pub namespace: Option<String>,
    /// Namespace bindings in scope at this element, ordered by prefix.
    pub namespaces: Option<Vec<(String, String)>>,
    pub name: String,
    pub attributes: Vec<(String, String)>,
    pub children: Vec<XmlNode>,
}

/// Whether `n` is an element named `name`.
pub open spec fn is_element_named(n: XmlNode, name: Seq<char>) -> bool {
    n matches XmlNode::Element(e) && e.name@ == name
}

/// The index of the first element named `name` among `children`.
pub open spec fn first_named(children: Seq<XmlNode>, name: Seq<char>) -> Option<int>
    decreases children.len(),
{
    if children.len() == 0 {
        None
    } else if is_element_named(children[0], name) {
        Some(0)
    } else {
        match first_named(children.drop_first(), name) {
            Some(i) => Some(i + 1),
            None => None,
        }
    }
}

/// Whether the string `n` holds exactly the characters of `name`.
pub fn name_is(n: &String, name: &str) -> (r: bool)
    ensures
        r == (n@ == name@),
{
    let a: &str = n.as_str();
    let len = a.unicode_len();
    if len != name.unicode_len() {
        return false;
    }
    let mut i: usize = 0;
    while i < len
        invariant
            a@ == n@,
            len == a@.len(),
            len == name@.len(),
            i <= len,
            a@.subrange(0, i as int) == name@.subrange(0, i as int),
        decreases len - i,
    {
        if a.get_char(i) != name.get_char(i) {
            assert(a@[i as int] != name@[i as int]);
            return false;
        }
        assert(a@.subrange(0, i + 1) == a@.subrange(0, i as int).push(a@[i as int]));
        assert(name@.subrange(0, i + 1) == name@.subrange(0, i as int).push(name@[i as int]));
        i += 1;
    }
    assert(a@ == a@.subrange(0, len as int));
    assert(name@ == name@.subrange(0, len as int));
    true
}


/// Once no element among the first `k` children is named `name`, the first
/// one named so is the `k`-th child if it is, and there is none if `k` is
/// the number of children.
pub proof fn lemma_first_named(children: Seq<XmlNode>, name: Seq<char>, k: int)
    requires
        0 <= k <= children.len(),
        forall|j: int| 0 <= j < k ==> !is_element_named(#[trigger] children[j], name),
    ensures
        k < children.len() && is_element_named(children[k], name) ==> first_named(children, name)
            == Some(k),
        k == children.len() ==> first_named(children, name) is None,
    decreases k,
{
    if k > 0 {
        let rest = children.drop_first();
        assert forall|j: int| 0 <= j < k - 1 implies !is_element_named(#[trigger] rest[j], name) by {
            assert(rest[j] == children[j + 1]);
        }
        lemma_first_named(rest, name, k - 1);
        assert(!is_element_named(children[0], name));
        if k < children.len() {
            assert(rest[k - 1] == children[k]);
        }
    }
}

/// The position of the first child element named `name`.
pub fn position_named(children: &Vec<XmlNode>, name: &str) -> (r: Option<usize>)
    ensures
        match r {
            Some(i) => {
                &&& i < children@.len()
                &&& is_element_named(children@[i as int], name@)
                &&& first_named(children@, name@) == Some(i as int)
            },
            None => first_named(children@, name@) is None,
        },
{
    let n = children.len();
    let mut i: usize = 0;
    while i < n
        invariant
            n == children@.len(),
            i <= n,
            forall|j: int| 0 <= j < i ==> !is_element_named(#[trigger] children@[j], name@),
        decreases n - i,
    {
        let found = match &children[i] {
            XmlNode::Element(e) => name_is(&e.name, name),
            _ => false,
        };
        if found {
            proof {
                lemma_first_named(children@, name@, i as int);
            }
            return Some(i);
        }
        i += 1;
    }
    proof {
        lemma_first_named(children@, name@, n as int);
    }
    None
}

/// The first child element of `e` named `name`.
pub open spec fn child_named(e: XmlElement, name: Seq<char>) -> Option<XmlElement> {
    match first_named(e.children@, name) {
        Some(i) => Some(e.children@[i]->Element_0),
        None => None,
    }
}

/// Finds the first child element of `e` named `name`.
pub fn get_child<'a>(e: &'a XmlElement, name: &str) -> (r: Option<&'a XmlElement>)
    ensures
        match r {
            Some(c) => child_named(*e, name@) == Some(*c),
            None => child_named(*e, name@) is None,
        },
{
    match position_named(&e.children, name) {
        Some(i) => match &e.children[i] {
            XmlNode::Element(c) => Some(c),
            _ => None,
        },
        None => None,
    }
}

/// The text of a text or CDATA node.
pub open spec fn node_text(n: XmlNode) -> Option<Seq<char>> {
    match n {
        XmlNode::Text(t) => Some(t@),
        XmlNode::CData(t) => Some(t@),
        _ => None,
    }
}

/// The text and CDATA nodes among `children`, joined in order.
pub open spec fn joined_text(children: Seq<XmlNode>) -> Seq<char>
    decreases children.len(),
{
    if children.len() == 0 {
        seq![]
    } else {
        let rest = joined_text(children.drop_last());
        match node_text(children.last()) {
            Some(t) => rest + t,
            None => rest,
        }
    }
}

/// Whether some node among `children` is a text or CDATA node.
pub open spec fn has_text(children: Seq<XmlNode>) -> bool {
    exists|i: int| 0 <= i < children.len() && (#[trigger] node_text(children[i])) is Some
}

/// The text and CDATA children of an element, joined, or none where it has
/// no such child.
pub open spec fn inner_text(e: XmlElement) -> Option<Seq<char>> {
    if has_text(e.children@) {
        Some(joined_text(e.children@))
    } else {
        None
    }
}

/// The text content of an element: empty for an element without children,
/// its inner text otherwise (see [`inner_text`]).
pub open spec fn text_of(e: XmlElement) -> Option<Seq<char>> {
    if e.children@.len() == 0 {
        Some(seq![])
    } else {
        inner_text(e)
    }
}

/// Reads the joined text and CDATA children of `e` (see [`inner_text`]).
pub fn get_inner_text(e: &XmlElement) -> (r: Option<String>)
    ensures
        match r {
            Some(t) => inner_text(*e) == Some(t@),
            None => inner_text(*e) is None,
        },
{
    let n = e.children.len();
    let mut text = String::new();
    let mut found = false;
    let mut i: usize = 0;
    while i < n
        invariant
            n == e.children@.len(),
            i <= n,
            text@ == joined_text(e.children@.subrange(0, i as int)),
            found == exists|j: int| 0 <= j < i && (#[trigger] node_text(e.children@[j])) is Some,
        decreases n - i,
    {
        let ghost prefix = e.children@.subrange(0, i + 1);
        assert(prefix.drop_last() == e.children@.subrange(0, i as int));
        assert(prefix.last() == e.children@[i as int]);
        match &e.children[i] {
            XmlNode::Text(t) => {
                text.append(t.as_str());
                found = true;
            },
            XmlNode::CData(t) => {
                text.append(t.as_str());
                found = true;
            },
            _ => {},
        }
        i += 1;
    }
    assert(e.children@.subrange(0, n as int) == e.children@);
    if found {
        Some(text)
    } else {
        None
    }
}

/// Reads the text content of `e` (see [`text_of`]).
pub fn get_text(e: &XmlElement) -> (r: Option<String>)
    ensures
        match r {
            Some(t) => text_of(*e) == Some(t@),
            None => text_of(*e) is None,
        },
{
    if e.children.len() == 0 {
        Some(String::new())
    } else {
        get_inner_text(e)
    }
}

#[verifier::external_type_specification]
#[verifier::external_body]
pub struct ExXmlTreeElement(xmltree::Element);

#[verifier::external_type_specification]
#[verifier::external_body]
pub struct ExXmlTreeNode(xmltree::XMLNode);

/// The tree that `xmltree` reads from `data`, or the text of its error.
pub uninterp spec fn xml_parse(data: Seq<u8>) -> Result<XmlElement, Seq<char>>;

/// The document that `xmltree` writes for the root element `root`, or none
/// where its writer reports an error.
pub uninterp spec fn xml_write(root: XmlElement) -> Option<Seq<u8>>;

/// Relies on `xmltree::Element::parse`: the first root element of the
/// document, or the parser's error; the result depends on the bytes alone
/// (attributes keep their document order).
#[verifier::external_body]
pub(crate) fn parse_tree(data: &[u8]) -> (r: Result<XmlElement, String>)
    ensures
        match r {
            Ok(root) => xml_parse(data@) == Ok::<XmlElement, Seq<char>>(root),
            Err(m) => xml_parse(data@) == Err::<XmlElement, Seq<char>>(m@),
        },
{
    match xmltree::Element::parse(data) {
        Ok(root) => Ok(element_from_xmltree(root)),
        Err(e) => Err(e.to_string()),
    }
}

/// Relies on `xmltree::Element::write`: the document for `root` as bytes, with
/// the XML declaration and without indentation; the result depends on the
/// tree alone.
#[verifier::external_body]
pub(crate) fn write_tree(root: XmlElement) -> (r: Option<Vec<u8>>)
    ensures
        match r {
            Some(b) => xml_write(root) == Some(b@),
            None => xml_write(root) is None,
        },
{
    let mut buf: Vec<u8> = Vec::new();
    match element_to_xmltree(root).write(&mut buf) {
        Ok(()) => Some(buf),
        Err(_) => None,
    }
}

/// Moves an `xmltree` element into the library's tree, one node for one node.
#[verifier::external_body]
fn element_from_xmltree(e: xmltree::Element) -> XmlElement {
    XmlElement {
        prefix: e.prefix,
        namespace: e.namespace,
        namespaces: e.namespaces.map(|ns| ns.0.into_iter().collect()),
        name: e.name,
        attributes: e.attributes.into_iter().collect(),
        children: e.children.into_iter().map(node_from_xmltree).collect(),
    }
}

/// Moves an `xmltree` node into the library's tree.
#[verifier::external_body]
fn node_from_xmltree(n: xmltree::XMLNode) -> XmlNode {
    match n {
        xmltree::XMLNode::Element(e) => XmlNode::Element(element_from_xmltree(e)),
        xmltree::XMLNode::Comment(s) => XmlNode::Comment(s),
        xmltree::XMLNode::CData(s) => XmlNode::CData(s),
        xmltree::XMLNode::Text(s) => XmlNode::Text(s),
        xmltree::XMLNode::ProcessingInstruction(s, d) => XmlNode::ProcessingInstruction(s, d),
    }
}

/// Moves an element of the library's tree into an `xmltree` element.
#[verifier::external_body]
fn element_to_xmltree(e: XmlElement) -> xmltree::Element {
    xmltree::Element {
        prefix: e.prefix,
        namespace: e.namespace,
        namespaces: e.namespaces.map(|ns| xmltree::Namespace(ns.into_iter().collect())),
        name: e.name,
        attributes: e.attributes.into_iter().collect(),
        children: e.children.into_iter().map(node_to_xmltree).collect(),
    }
}

/// Moves a node of the library's tree into an `xmltree` node.
#[verifier::external_body]
fn node_to_xmltree(n: XmlNode) -> xmltree::XMLNode {
    match n {
        XmlNode::Element(e) => xmltree::XMLNode::Element(element_to_xmltree(e)),
        XmlNode::Comment(s) => xmltree::XMLNode::Comment(s),
        XmlNode::CData(s) => xmltree::XMLNode::CData(s),
        XmlNode::Text(s) => xmltree::XMLNode::Text(s),
        XmlNode::ProcessingInstruction(s, d) => xmltree::XMLNode::ProcessingInstruction(s, d),
    }
}

} // verus!
