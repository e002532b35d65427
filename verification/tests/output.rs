use xmpkit::namespace::NamespaceMap;
use xmpkit::node::{ArrayNode, ArrayType, Node, Qualifier, SimpleNode, StructureNode};
use xmpkit::ns;
use xmpkit::serializer::XmpSerializer;

const FIXED: &str = "xmlns:rdf=\"http://www.w3.org/1999/02/22-rdf-syntax-ns#\" \
                     xmlns:xmp=\"http://ns.adobe.com/xap/1.0/\" \
                     xmlns:dc=\"http://purl.org/dc/elements/1.1/\" \
                     xmlns:exif=\"http://ns.adobe.com/exif/1.0/\" \
                     xmlns:xml=\"http://www.w3.org/XML/1998/namespace\"";

/// A whole document around the lines of the description.
fn document(more_declarations: &str, description: &[&str]) -> String {
    let mut text = format!(
        "<x:xmpmeta xmlns:x=\"adobe:ns:meta/\" x:xmptk=\"xmpkit\">\n  <rdf:RDF {}{}>\n",
        FIXED, more_declarations
    );
    for line in description {
        text.push_str("    ");
        text.push_str(line);
        text.push('\n');
    }
    text.push_str("  </rdf:RDF>\n</x:xmpmeta>");
    text
}

fn dc(name: &str) -> String {
    format!("{}:{}", ns::DC, name)
}

fn exif(name: &str) -> String {
    format!("{}:{}", ns::EXIF, name)
}

fn qualified(value: &str, namespace: &str, name: &str, qualifier: &str) -> Node {
    Node::Simple(SimpleNode {
        value: value.to_string(),
        qualifiers: vec![Qualifier {
            namespace: namespace.to_string(),
            name: name.to_string(),
            value: qualifier.to_string(),
        }],
    })
}

fn array(array_type: ArrayType, items: Vec<Node>) -> Node {
    Node::Array(ArrayNode { array_type, items })
}

fn structure(fields: Vec<(String, Node)>) -> StructureNode {
    let mut r = StructureNode::new();
    for (key, node) in fields {
        r.set_field(key, node);
    }
    r
}

fn rdf(root: &StructureNode) -> String {
    XmpSerializer::new().serialize_rdf(root).unwrap()
}

#[test]
fn empty_document() {
    let expected = document("", &["<rdf:Description rdf:about=\"\"/>"]);
    assert_eq!(rdf(&StructureNode::new()), expected);
    let default = XmpSerializer::default().serialize_rdf(&StructureNode::default());
    assert_eq!(default, Ok(expected));
}

#[test]
fn plain_texts_are_attributes() {
    let root = structure(vec![
        (dc("format"), Node::simple("image/jpeg")),
        (exif("ISO"), Node::simple("100")),
    ]);
    assert_eq!(
        rdf(&root),
        document(
            "",
            &["<rdf:Description rdf:about=\"\" dc:format=\"image/jpeg\" exif:ISO=\"100\"/>"]
        )
    );
}

#[test]
fn arrays_hold_their_items_in_order() {
    let root = structure(vec![
        (dc("subject"), array(ArrayType::Unordered, vec![Node::simple("b"), Node::simple("a")])),
        (dc("creator"), array(ArrayType::Ordered, vec![Node::simple("")])),
    ]);
    assert_eq!(
        rdf(&root),
        document(
            "",
            &[
                "<rdf:Description rdf:about=\"\">",
                "  <dc:subject>",
                "    <rdf:Bag>",
                "      <rdf:li>b</rdf:li>",
                "      <rdf:li>a</rdf:li>",
                "    </rdf:Bag>",
                "  </dc:subject>",
                "  <dc:creator>",
                "    <rdf:Seq>",
                "      <rdf:li></rdf:li>",
                "    </rdf:Seq>",
                "  </dc:creator>",
                "</rdf:Description>",
            ]
        )
    );
}

#[test]
fn empty_arrays_hold_an_empty_container() {
    let root = structure(vec![
        (dc("a"), Node::array(ArrayType::Ordered)),
        (dc("b"), Node::array(ArrayType::Unordered)),
        (dc("c"), Node::array(ArrayType::Alternative)),
    ]);
    assert_eq!(
        rdf(&root),
        document(
            "",
            &[
                "<rdf:Description rdf:about=\"\">",
                "  <dc:a>",
                "    <rdf:Seq/>",
                "  </dc:a>",
                "  <dc:b>",
                "    <rdf:Bag/>",
                "  </dc:b>",
                "  <dc:c>",
                "    <rdf:Alt/>",
                "  </dc:c>",
                "</rdf:Description>",
            ]
        )
    );
}

#[test]
fn a_language_makes_an_element() {
    let root = structure(vec![
        (dc("title"), qualified("Hello", ns::XML, "lang", "en")),
        (
            dc("rights"),
            array(
                ArrayType::Alternative,
                vec![
                    qualified("all", ns::XML, "lang", "x-default"),
                    qualified("some", ns::XML, "other", "de"),
                ],
            ),
        ),
    ]);
    assert_eq!(
        rdf(&root),
        document(
            "",
            &[
                "<rdf:Description rdf:about=\"\">",
                "  <dc:title xml:lang=\"en\">Hello</dc:title>",
                "  <dc:rights>",
                "    <rdf:Alt>",
                "      <rdf:li xml:lang=\"x-default\">all</rdf:li>",
                "      <rdf:li>some</rdf:li>",
                "    </rdf:Alt>",
                "  </dc:rights>",
                "</rdf:Description>",
            ]
        )
    );
}

#[test]
fn other_qualifiers_are_not_written() {
    let root = structure(vec![
        (dc("title"), qualified("one", ns::XML, "space", "preserve")),
        (dc("format"), qualified("two", ns::DC, "lang", "en")),
    ]);
    assert_eq!(
        rdf(&root),
        document("", &["<rdf:Description rdf:about=\"\" dc:title=\"one\" dc:format=\"two\"/>"])
    );
}

#[test]
fn several_languages_are_several_attributes() {
    let language = |value: &str| Qualifier {
        namespace: ns::XML.to_string(),
        name: "lang".to_string(),
        value: value.to_string(),
    };
    let node = Node::Simple(SimpleNode {
        value: "v".to_string(),
        qualifiers: vec![language("en"), language("de")],
    });
    let root = structure(vec![(dc("title"), node)]);
    assert!(rdf(&root).contains("<dc:title xml:lang=\"en\" xml:lang=\"de\">v</dc:title>"));
}

#[test]
fn structures_nest() {
    let inner = structure(vec![(exif("Fired"), Node::simple("True"))]);
    let outer = structure(vec![
        (exif("Mode"), Node::simple("2")),
        (exif("Flash"), Node::Structure(inner)),
        (exif("Last"), Node::simple("3")),
    ]);
    let root = structure(vec![(exif("Device"), Node::Structure(outer))]);
    assert_eq!(
        rdf(&root),
        document(
            "",
            &[
                "<rdf:Description rdf:about=\"\">",
                "  <exif:Device exif:Mode=\"2\" exif:Last=\"3\">",
                "    <exif:Flash exif:Fired=\"True\"/>",
                "  </exif:Device>",
                "</rdf:Description>",
            ]
        )
    );
}

#[test]
fn structures_are_items() {
    let flat = structure(vec![(exif("A"), Node::simple("1"))]);
    let deep = structure(vec![
        (exif("A"), Node::simple("2")),
        (dc("list"), Node::array(ArrayType::Ordered)),
    ]);
    let root = structure(vec![(
        dc("items"),
        array(ArrayType::Ordered, vec![Node::Structure(flat), Node::Structure(deep)]),
    )]);
    assert_eq!(
        rdf(&root),
        document(
            "",
            &[
                "<rdf:Description rdf:about=\"\">",
                "  <dc:items>",
                "    <rdf:Seq>",
                "      <rdf:li exif:A=\"1\"/>",
                "      <rdf:li>",
                "        <rdf:Description exif:A=\"2\">",
                "          <dc:list>",
                "            <rdf:Seq/>",
                "          </dc:list>",
                "        </rdf:Description>",
                "      </rdf:li>",
                "    </rdf:Seq>",
                "  </dc:items>",
                "</rdf:Description>",
            ]
        )
    );
}

#[test]
fn deep_nesting_is_indented_throughout() {
    let mut node = Node::array(ArrayType::Ordered);
    for _ in 0..100 {
        node = Node::Structure(structure(vec![(dc("n"), node)]));
    }
    let text = rdf(&structure(vec![(dc("n"), node)]));
    let line = text.lines().find(|line| line.ends_with("<rdf:Seq/>")).unwrap();
    assert_eq!(line.len() - "<rdf:Seq/>".len(), 2 * (2 + 1 + 101));
}

#[test]
fn characters_are_escaped() {
    let value = "<>&'\"\r\n\t\u{e9}\u{1f600}";
    let root = structure(vec![
        (dc("format"), Node::simple(value)),
        (dc("title"), qualified(value, ns::XML, "lang", value)),
    ]);
    let attribute = "&lt;&gt;&amp;&apos;&quot;&#13;&#10;&#9;\u{e9}\u{1f600}";
    let text = "&lt;&gt;&amp;&apos;&quot;&#13;\n\t\u{e9}\u{1f600}";
    assert_eq!(
        rdf(&root),
        document(
            "",
            &[
                &format!("<rdf:Description rdf:about=\"\" dc:format=\"{}\">", attribute),
                &format!("  <dc:title xml:lang=\"{}\">{}</dc:title>", attribute, text),
                "</rdf:Description>",
            ]
        )
    );
}

#[test]
fn used_namespaces_are_declared_in_order_and_once() {
    let mut namespaces = NamespaceMap::new();
    namespaces.register("http://b.example/", "b");
    namespaces.register("urn:a", "a");
    let inner = structure(vec![
        ("urn:a:x".to_string(), Node::simple("1")),
        ("http://b.example/:y".to_string(), Node::simple("2")),
    ]);
    let root = structure(vec![
        (dc("s"), array(ArrayType::Ordered, vec![Node::Structure(inner)])),
        ("http://b.example/:z".to_string(), Node::simple("3")),
    ]);
    let text = XmpSerializer::with_namespaces(namespaces).serialize_rdf(&root).unwrap();
    assert_eq!(
        text,
        document(
            " xmlns:a=\"urn:a\" xmlns:b=\"http://b.example/\"",
            &[
                "<rdf:Description rdf:about=\"\" b:z=\"3\">",
                "  <dc:s>",
                "    <rdf:Seq>",
                "      <rdf:li a:x=\"1\" b:y=\"2\"/>",
                "    </rdf:Seq>",
                "  </dc:s>",
                "</rdf:Description>",
            ]
        )
    );
}

#[test]
fn own_namespaces_come_before_the_registry() {
    let mut registry = NamespaceMap::standard();
    registry.register("urn:a", "theirs");
    registry.register("urn:b", "b");
    let mut namespaces = NamespaceMap::new();
    namespaces.register("urn:a", "mine");
    let root = structure(vec![
        ("urn:a:x".to_string(), Node::simple("1")),
        ("urn:b:x".to_string(), Node::simple("2")),
    ]);
    let text = XmpSerializer::with_registry(namespaces, registry).serialize_rdf(&root).unwrap();
    assert_eq!(
        text,
        document(
            " xmlns:mine=\"urn:a\" xmlns:b=\"urn:b\"",
            &["<rdf:Description rdf:about=\"\" mine:x=\"1\" b:x=\"2\"/>"]
        )
    );
}

#[test]
fn standard_namespaces_are_declared_with_their_own_prefix() {
    let mut namespaces = NamespaceMap::new();
    namespaces.register(ns::DC, "dcx");
    let root = structure(vec![(dc("x"), Node::simple("1"))]);
    let text = XmpSerializer::with_namespaces(namespaces).serialize_rdf(&root).unwrap();
    assert_eq!(text, document("", &["<rdf:Description rdf:about=\"\" dcx:x=\"1\"/>"]));
}

#[test]
fn texts_without_a_registered_namespace_are_left_out() {
    let root = structure(vec![
        ("urn:a:x".to_string(), Node::simple("1")),
        (dc("format"), Node::simple("2")),
        ("no colon".to_string(), Node::simple("3")),
    ]);
    let less = structure(vec![(dc("format"), Node::simple("2"))]);
    assert_eq!(rdf(&root), rdf(&less));
    assert_eq!(
        rdf(&less),
        document("", &["<rdf:Description rdf:about=\"\" dc:format=\"2\"/>"])
    );
}

#[test]
fn the_last_colon_ends_the_uri() {
    let mut namespaces = NamespaceMap::new();
    namespaces.register("a:b", "p");
    let root = structure(vec![
        ("a:b:c".to_string(), Node::simple("1")),
        ("a:b:".to_string(), Node::simple("2")),
        ("a:b".to_string(), Node::simple("3")),
    ]);
    let text = XmpSerializer::with_namespaces(namespaces).serialize_rdf(&root).unwrap();
    assert_eq!(
        text,
        document(" xmlns:p=\"a:b\"", &["<rdf:Description rdf:about=\"\" p:c=\"1\" p:=\"2\"/>"])
    );
}

#[test]
fn setting_a_field_again_keeps_its_place() {
    let mut root = StructureNode::new();
    root.set_field(dc("a"), Node::simple("1"));
    root.set_field(dc("b"), Node::simple("2"));
    root.set_field(dc("a"), Node::simple("3"));
    assert_eq!(root.fields.len(), 2);
    assert_eq!(root.fields[0], (dc("a"), Node::simple("3")));
    assert_eq!(root.fields[1], (dc("b"), Node::simple("2")));
}

#[test]
fn namespaces_keep_the_last_prefix() {
    let mut map = NamespaceMap::new();
    assert_eq!(map.get_prefix("urn:a"), None);
    map.register("urn:a", "a");
    map.register("urn:b", "b");
    map.register("urn:a", "c");
    let copy = map.clone();
    map.register("urn:b", "d");
    assert_eq!(map.get_prefix("urn:a"), Some("c"));
    assert_eq!(map.get_prefix("urn:b"), Some("d"));
    assert_eq!(copy.get_prefix("urn:b"), Some("b"));
    assert_eq!(NamespaceMap::default().get_prefix(ns::RDF), None);
    assert_eq!(NamespaceMap::standard().get_prefix(ns::RDF), Some("rdf"));
    assert_eq!(NamespaceMap::standard().get_prefix(ns::XML), Some("xml"));
}

#[test]
fn the_same_namespaces_again_change_no_declaration() {
    let mut namespaces = NamespaceMap::new();
    namespaces.register("urn:a", "a");
    namespaces.register("urn:b", "b");
    let serializer = XmpSerializer::with_namespaces(namespaces);
    let inner = || {
        Node::Structure(structure(vec![
            ("urn:b:x".to_string(), Node::simple("1")),
            ("urn:a:x".to_string(), Node::array(ArrayType::Ordered)),
        ]))
    };
    let declarations = |root: &StructureNode| {
        let text = serializer.serialize_rdf(root).unwrap();
        text.lines().nth(1).unwrap().to_string()
    };
    let once = structure(vec![(dc("one"), inner())]);
    let twice = structure(vec![(dc("one"), inner()), (dc("two"), inner())]);
    assert_eq!(
        declarations(&once),
        format!("  <rdf:RDF {} xmlns:b=\"urn:b\" xmlns:a=\"urn:a\">", FIXED)
    );
    assert_eq!(declarations(&twice), declarations(&once));
}

#[test]
fn qualifiers_use_no_namespace() {
    let mut namespaces = NamespaceMap::new();
    namespaces.register("urn:a", "a");
    let root = structure(vec![(dc("title"), qualified("t", "urn:a", "lang", "en"))]);
    let text = XmpSerializer::with_namespaces(namespaces).serialize_rdf(&root).unwrap();
    assert_eq!(text, document("", &["<rdf:Description rdf:about=\"\" dc:title=\"t\"/>"]));
}

#[test]
fn a_registry_is_known_as_it_is_when_handed_in() {
    let root = structure(vec![("urn:a:x".to_string(), Node::simple("1"))]);
    let mut registry = NamespaceMap::standard();
    let early = XmpSerializer::with_registry(NamespaceMap::new(), registry.clone());
    registry.register("urn:a", "a");
    let late = XmpSerializer::with_registry(NamespaceMap::new(), registry);
    assert_eq!(
        early.serialize_rdf(&root).unwrap(),
        document("", &["<rdf:Description rdf:about=\"\"/>"])
    );
    assert_eq!(
        late.serialize_rdf(&root).unwrap(),
        document(" xmlns:a=\"urn:a\"", &["<rdf:Description rdf:about=\"\" a:x=\"1\"/>"])
    );
}
