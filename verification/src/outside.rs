//! The types and calls of the XML and query crates that the extraction is
//! built on. Nothing in this file is proved: each contract states no more
//! than the crate's own source shows, and most state nothing, because what a
//! query returns depends on the document behind the node.

use vstd::prelude::*;

use sxd_document::dom::Element;
use sxd_xpath::nodeset::Node;
pub use sxd_xpath::Error as XPathError;
use sxd_xpath::Value;

verus! {

/// The error of the query crate, carried through unread.
#[verifier::external_type_specification]
#[verifier::external_body]
pub struct ExXPathError(XPathError);

/// A node of a parsed document: a handle into the document that owns it.
#[verifier::external_type_specification]
#[verifier::external_body]
pub struct ExNode<'a>(sxd_xpath::nodeset::Node<'a>);

/// An element node of a parsed document.
#[verifier::external_type_specification]
#[verifier::external_body]
pub struct ExElement<'a>(sxd_document::dom::Element<'a>);

/// What evaluating a query gives: a boolean, a number, a string or a set of
/// nodes.
#[verifier::external_type_specification]
#[verifier::external_body]
pub struct ExValue<'a>(sxd_xpath::Value<'a>);

/// What `sxd_xpath::Factory::build` makes of the text of a query: `None`
/// where its parser refuses the text, `Some(false)` where the text holds no
/// expression, and `Some(true)` where the text compiles to an expression. The
/// parser reads nothing but the text.
pub uninterp spec fn compiles(expr: Seq<char>) -> Option<bool>;

/// `sxd_xpath::Factory::build` on a fresh factory, then
/// `sxd_xpath::XPath::evaluate` in a fresh `sxd_xpath::Context`, with `node`
/// as the context node: compiles the text of a query and evaluates it.
/// `Ok(None)` stands for a text that holds no expression. The parser's error
/// and a failure of the evaluation come back as the crate's general error.
///
/// Of the result this states only what the text alone decides: a text that
/// the parser refuses gives an error, and a text gives `Ok(None)` exactly
/// when it holds no expression. What a compiled query evaluates to depends
/// on the document behind the node, and nothing is stated of it.
///
/// The engine panics where a query names a namespace prefix that its
/// context does not know, and a fresh context knows none; and where the
/// function `name` meets an attribute that has no element. The text is
/// therefore required to hold neither outside its string literals.
#[verifier::external_body]
pub(crate) fn query<'a>(node: Node<'a>, expr: &str) -> (res: Result<Option<Value<'a>>, XPathError>)
    requires
        crate::query_text::supported_query(expr@),
    ensures
        compiles(expr@) is None ==> res is Err,
        (res matches Ok(None)) <==> compiles(expr@) == Some(false),
{
    let compiled = sxd_xpath::Factory::new().build(expr)?;
    let context = sxd_xpath::Context::new();
    compiled.map(|xpath| xpath.evaluate(&context, node)).transpose().map_err(Into::into)
}

/// The crate's error for a query text that holds no expression,
/// `sxd_xpath::Error::NoXPath`.
#[verifier::external_body]
pub(crate) fn no_xpath() -> (res: XPathError) {
    XPathError::NoXPath
}

/// `sxd_xpath::nodeset::Nodeset::document_order` on a value that is a set of
/// nodes: its nodes, in the order of the document. `None` for a value of
/// another kind.
#[verifier::external_body]
pub(crate) fn nodes_in_document_order<'a>(value: Value<'a>) -> (res: Option<Vec<Node<'a>>>) {
    match value {
        Value::Nodeset(nodes) => Some(nodes.document_order()),
        Value::Boolean(_) => None,
        Value::Number(_) => None,
        Value::String(_) => None,
    }
}

/// `sxd_xpath::nodeset::Node::element`: the element that the node is, if it
/// is one.
#[verifier::external_body]
pub(crate) fn node_element<'a>(node: Node<'a>) -> (res: Option<Element<'a>>) {
    node.element()
}

/// `sxd_xpath::nodeset::Node::string_value`: the text of the node, which for
/// an element is the text of all its descendants in document order.
#[verifier::external_body]
pub(crate) fn node_string_value<'a>(node: &Node<'a>) -> (res: String) {
    node.string_value()
}

/// `sxd_document::dom::Element::attribute_value`: the value of the attribute
/// of that name without a namespace, if the element has one.
#[verifier::external_body]
pub(crate) fn attribute_value<'a>(element: Element<'a>, name: &str) -> (res: Option<&'a str>) {
    element.attribute_value(name)
}

/// `sxd_document::dom::Element::name`: the namespace of the element's name,
/// if it has one, and its local part.
#[verifier::external_body]
pub(crate) fn element_name<'a>(element: Element<'a>) -> (res: (Option<&'a str>, &'a str)) {
    let name = element.name();
    (name.namespace_uri(), name.local_part())
}

} // verus!
