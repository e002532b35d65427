use xmpkit::error::{XmpError, XmpResult};
use xmpkit::node::{ArrayNode, ArrayType, Node, Qualifier, SimpleNode, StructureNode};
use xmpkit::ns;
use xmpkit::serializer::XmpSerializer;

fn rdf(path: &str, node: Node) -> XmpResult<String> {
    let mut root = StructureNode::new();
    root.set_field(path, node);
    XmpSerializer::new().serialize_rdf(&root)
}

fn io_error(message: &str) -> XmpResult<String> {
    Err(XmpError::IoError(message.to_string()))
}

fn dc(name: &str) -> String {
    format!("{}:{}", ns::DC, name)
}

fn within(path: &str, node: Node) -> Node {
    let mut structure = StructureNode::new();
    structure.set_field(path, node);
    Node::Structure(structure)
}

fn list(items: Vec<Node>) -> Node {
    Node::Array(ArrayNode { array_type: ArrayType::Ordered, items })
}

#[test]
fn errors_in_words() {
    let m = || "m".to_string();
    assert_eq!(XmpError::IoError(m()).to_string(), "IO error: m");
    assert_eq!(XmpError::BadXPath(m()).to_string(), "Bad XPath: m");
    assert_eq!(XmpError::BadValue(m()).to_string(), "Bad value: m");
    assert_eq!(XmpError::NotSupported(m()).to_string(), "Not supported: m");
    assert_eq!(XmpError::SerializationError(m()).to_string(), "Serialization error: m");
}

#[test]
fn an_element_needs_a_registered_namespace() {
    let expected = io_error("Bad XPath: Invalid path format: urn:a:x");
    assert_eq!(rdf("urn:a:x", Node::array(ArrayType::Ordered)), expected);
    assert_eq!(rdf("urn:a:x", within(&dc("y"), Node::simple("1"))), expected);
    let language = Qualifier {
        namespace: ns::XML.to_string(),
        name: "lang".to_string(),
        value: "en".to_string(),
    };
    let text = SimpleNode { value: "v".to_string(), qualifiers: vec![language] };
    assert_eq!(rdf("urn:a:x", Node::Simple(text)), expected);
}

#[test]
fn an_element_needs_a_colon_in_its_path() {
    assert_eq!(
        rdf("x", Node::array(ArrayType::Ordered)),
        io_error("Bad XPath: Invalid path format: x")
    );
}

#[test]
fn an_array_cannot_be_an_item() {
    let inner = Node::array(ArrayType::Unordered);
    assert_eq!(
        rdf(&dc("x"), list(vec![Node::simple("1"), inner])),
        io_error("Not supported: Nested arrays not yet supported")
    );
}

#[test]
fn each_enclosing_structure_quotes_the_error() {
    let node = within(&dc("y"), within("urn:a:x", Node::array(ArrayType::Ordered)));
    assert_eq!(
        rdf(&dc("z"), node),
        io_error("IO error: IO error: Bad XPath: Invalid path format: urn:a:x")
    );
    let item = within("urn:a:x", Node::array(ArrayType::Ordered));
    let error = rdf(&dc("z"), list(vec![item])).unwrap_err();
    assert_eq!(
        error.to_string(),
        "IO error: IO error: Bad XPath: Invalid path format: urn:a:x"
    );
}

#[test]
fn the_first_error_counts() {
    let first = within("urn:a:x", Node::array(ArrayType::Ordered));
    let second = list(vec![]);
    assert_eq!(
        rdf(&dc("z"), list(vec![first, second])),
        io_error("IO error: Bad XPath: Invalid path format: urn:a:x")
    );
}

#[test]
fn a_packet_that_does_not_fit() {
    let root = StructureNode::new();
    for (target, shown) in [(0, "0"), (10, "10"), (430, "430")] {
        let result = XmpSerializer::new().serialize_packet_with_padding(&root, target);
        let message =
            format!("XMP packet minimum size (431) exceeds target length ({})", shown);
        assert_eq!(result, Err(XmpError::BadValue(message)));
    }
}
