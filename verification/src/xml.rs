//! An XML tree as the OpenDocument readers walk it: elements with their
//! namespace, local name, attributes and children, text and comment nodes.

use vstd::prelude::*;
use crate::text;
use crate::text::str_eq;
use crate::types::opt_str;

verus! {

/// An attribute: its namespace, local name and value.
#[derive(Debug)]
pub struct XmlAttribute {
    pub namespace: Option<String>,
    pub name: String,
    pub value: String,
}

/// A node of an XML tree.
#[derive(Debug)]
pub enum XmlNode {
    Element { namespace: Option<String>, name: String, attributes: Vec<XmlAttribute>, children: Vec<XmlNode> },
    Text(String),
    Comment(String),
    Other,
}

/// A node's local name; empty for nodes other than elements.
pub open spec fn node_name(n: XmlNode) -> Seq<char> {
    match n {
        XmlNode::Element { name, .. } => name@,
        _ => seq![],
    }
}

/// A node's children; none for nodes other than elements.
pub open spec fn node_children(n: XmlNode) -> Seq<XmlNode> {
    match n {
        XmlNode::Element { children, .. } => children@,
        _ => seq![],
    }
}

/// A node's text: an element's first child when that is text, a text or
/// comment node's own text.
pub open spec fn node_text(n: XmlNode) -> Option<Seq<char>> {
    match n {
        XmlNode::Element { children, .. } => if children@.len() > 0 {
            match children@[0] {
                XmlNode::Text(t) => Some(t@),
                _ => None,
            }
        } else {
            None
        },
        XmlNode::Text(t) => Some(t@),
        XmlNode::Comment(t) => Some(t@),
        XmlNode::Other => None,
    }
}

/// The value of the first attribute in `attrs` named `name` in namespace `ns`
/// (any namespace when `ns` is `None`).
pub open spec fn attr_in(attrs: Seq<XmlAttribute>, ns: Option<Seq<char>>, name: Seq<char>) -> Option<Seq<char>>
    decreases attrs.len(),
{
    if attrs.len() == 0 {
        None
    } else if attrs[0].name@ == name && (ns is None || opt_str(attrs[0].namespace) == ns) {
        Some(attrs[0].value@)
    } else {
        attr_in(attrs.drop_first(), ns, name)
    }
}

/// The value of a node's attribute `name` in namespace `ns` (any namespace when
/// `ns` is `None`).
pub open spec fn node_attr(n: XmlNode, ns: Option<Seq<char>>, name: Seq<char>) -> Option<Seq<char>> {
    match n {
        XmlNode::Element { attributes, .. } => attr_in(attributes@, ns, name),
        _ => None,
    }
}

/// The attribute `local` in namespace `ns`, or else one whose local name is the
/// prefixed `qualified`.
pub open spec fn attr_or(n: XmlNode, ns: Seq<char>, local: Seq<char>, qualified: Seq<char>) -> Option<Seq<char>> {
    match node_attr(n, Some(ns), local) {
        Some(v) => Some(v),
        None => node_attr(n, None, qualified),
    }
}

impl XmlNode {
    /// The local name; empty for nodes other than elements.
    pub fn name(&self) -> (r: &str)
        ensures
            r@ == node_name(*self),
    {
        match self {
            XmlNode::Element { name, .. } => name.as_str(),
            _ => {
                proof {
                    reveal_strlit("");
                }
                ""
            },
        }
    }

    /// Whether the local name is `s`.
    pub fn is_named(&self, s: &str) -> (r: bool)
        ensures
            r == (node_name(*self) == s@),
    {
        let n = self.name();
        proof {
            reveal_strlit("");
        }
        str_eq(n, s)
    }

    /// The children; none for nodes other than elements.
    pub fn children(&self) -> (r: &[XmlNode])
        ensures
            r@ == node_children(*self),
    {
        match self {
            XmlNode::Element { children, .. } => children.as_slice(),
            _ => &[],
        }
    }

    /// The text: an element's first child when that is text, a text or comment
    /// node's own text.
    pub fn text(&self) -> (r: Option<&str>)
        ensures
            match r {
                Some(t) => node_text(*self) == Some(t@),
                None => node_text(*self) is None,
            },
    {
        match self {
            XmlNode::Element { children, .. } => {
                if children.len() > 0 {
                    match &children[0] {
                        XmlNode::Text(t) => Some(t.as_str()),
                        _ => None,
                    }
                } else {
                    None
                }
            },
            XmlNode::Text(t) => Some(t.as_str()),
            XmlNode::Comment(t) => Some(t.as_str()),
            XmlNode::Other => None,
        }
    }

    /// The value of attribute `name` in namespace `ns` (any namespace when `ns`
    /// is `None`).
    pub fn attribute(&self, ns: Option<&str>, name: &str) -> (r: Option<&str>)
        ensures
            match r {
                Some(v) => node_attr(*self, match ns {
                    Some(x) => Some(x@),
                    None => None,
                }, name@) == Some(v@),
                None => node_attr(*self, match ns {
                    Some(x) => Some(x@),
                    None => None,
                }, name@) is None,
            },
    {
        let ghost nsv = match ns {
            Some(x) => Some(x@),
            None => None,
        };
        match self {
            XmlNode::Element { attributes, .. } => {
                let mut k: usize = 0;
                assert(attributes@.skip(0) =~= attributes@);
                assert(node_attr(*self, nsv, name@) == attr_in(attributes@, nsv, name@));
                while k < attributes.len()
                    invariant
                        k <= attributes@.len(),
                        attr_in(attributes@, nsv, name@) == attr_in(attributes@.skip(k as int), nsv, name@),
                        nsv == match ns {
                            Some(x) => Some(x@),
                            None => None,
                        },
                        node_attr(*self, nsv, name@) == attr_in(attributes@, nsv, name@),
                    decreases attributes@.len() - k,
                {
                    let a = &attributes[k];
                    assert(attributes@.skip(k as int)[0] == attributes@[k as int]);
                    assert(attributes@.skip(k as int).drop_first() =~= attributes@.skip(k + 1int));
                    let ns_ok = match ns {
                        None => true,
                        Some(x) => match &a.namespace {
                            Some(y) => str_eq(y.as_str(), x),
                            None => false,
                        },
                    };
                    assert(ns_ok == (nsv is None || opt_str(a.namespace) == nsv));
                    if str_eq(a.name.as_str(), name) && ns_ok {
                        assert(attr_in(attributes@.skip(k as int), nsv, name@) == Some(a.value@));
                        return Some(a.value.as_str());
                    }
                    k = k + 1;
                }
                None
            },
            _ => None,
        }
    }

    /// The attribute `local` in namespace `ns`, or else one whose local name is
    /// the prefixed `qualified`.
    pub fn attribute_or(&self, ns: &str, local: &str, qualified: &str) -> (r: Option<&str>)
        ensures
            match r {
                Some(v) => attr_or(*self, ns@, local@, qualified@) == Some(v@),
                None => attr_or(*self, ns@, local@, qualified@) is None,
            },
    {
        match self.attribute(Some(ns), local) {
            Some(v) => Some(v),
            None => self.attribute(None, qualified),
        }
    }
}


/// A node of a document parsed by `roxmltree`, read through the functions below.
#[verifier::external_type_specification]
#[verifier::external_body]
pub struct ExRoxNode<'a, 'input: 'a>(roxmltree::Node<'a, 'input>);

/// What kind of node a parsed node is.
pub enum XmlKind {
    Element,
    Text,
    Comment,
    Other,
}

/// `roxmltree::Node::node_type`: the kind of a parsed node.
#[verifier::external_body]
fn rox_kind(n: &roxmltree::Node) -> XmlKind {
    match n.node_type() {
        roxmltree::NodeType::Element => XmlKind::Element,
        roxmltree::NodeType::Text => XmlKind::Text,
        roxmltree::NodeType::Comment => XmlKind::Comment,
        _ => XmlKind::Other,
    }
}

/// `roxmltree::Node::tag_name`: the namespace and local name of a parsed node.
#[verifier::external_body]
fn rox_tag(n: &roxmltree::Node) -> (Option<String>, String) {
    (n.tag_name().namespace().map(String::from), n.tag_name().name().to_string())
}

/// `roxmltree::Node::attributes`: the attributes of a parsed node, in order.
#[verifier::external_body]
fn rox_attributes(n: &roxmltree::Node) -> Vec<XmlAttribute> {
    n.attributes().map(|a| XmlAttribute {
        namespace: a.namespace().map(String::from),
        name: a.name().to_string(),
        value: a.value().to_string(),
    }).collect()
}

/// `roxmltree::Node::text`: the text of a parsed text or comment node.
#[verifier::external_body]
fn rox_text(n: &roxmltree::Node) -> String {
    n.text().unwrap_or("").to_string()
}

/// `roxmltree::Node::children`: the children of a parsed node, in order.
#[verifier::external_body]
fn rox_children<'a, 'input>(n: &roxmltree::Node<'a, 'input>) -> Vec<roxmltree::Node<'a, 'input>> {
    n.children().collect()
}

/// A parsed node in the library's form; `depth` bounds how deep the walk goes.
fn rox_tree(n: &roxmltree::Node, depth: usize) -> XmlNode
    decreases depth,
{
    match rox_kind(n) {
        XmlKind::Element => {
            let (namespace, name) = rox_tag(n);
            let attributes = rox_attributes(n);
            let kids = rox_children(n);
            let mut children: Vec<XmlNode> = Vec::new();
            if depth > 0 {
                let mut k: usize = 0;
                while k < kids.len()
                    invariant
                        depth > 0,
                    decreases kids.len() - k,
                {
                    children.push(rox_tree(&kids[k], depth - 1));
                    k = k + 1;
                }
            }
            XmlNode::Element { namespace, name, attributes, children }
        },
        XmlKind::Text => XmlNode::Text(rox_text(n)),
        XmlKind::Comment => XmlNode::Comment(rox_text(n)),
        XmlKind::Other => XmlNode::Other,
    }
}

/// The root element of a document as `roxmltree::Document::parse` reads `text`;
/// `None` where `text` is not well-formed XML.
pub uninterp spec fn xml_parsed(text: Seq<char>) -> Option<XmlNode>;

/// `roxmltree::Document::parse`: the root element of the document in the
/// library's form, or `None` where the text is not well-formed XML. The claim
/// is that the result depends on the text alone.
#[verifier::external_body]
fn rox_parse(text: &str) -> (r: Option<XmlNode>)
    ensures
        r == xml_parsed(text@),
{
    roxmltree::Document::parse(text).ok().map(|doc| rox_tree(&doc.root_element(), text.len()))
}

/// The root element of XML text; `None` where the text is not well-formed XML.
pub fn parse_xml(text: &str) -> (r: Option<XmlNode>)
    ensures
        r == xml_parsed(text@),
{
    rox_parse(text)
}

} // verus!
