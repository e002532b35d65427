use xmpkit::node::{ArrayType, Node, StructureNode};
use xmpkit::serializer::XmpSerializer;

#[test]
fn test_serialize_rdf() {
    let serializer = XmpSerializer::new();
    let root = StructureNode::new();
    let result = serializer.serialize_rdf(&root);
    assert!(result.is_ok());
}

#[test]
fn test_serialize_packet() {
    let serializer = XmpSerializer::new();
    let mut root = StructureNode::new();
    root.set_field(
        "http://ns.adobe.com/xap/1.0/:CreatorTool".to_string(),
        Node::simple("TestApp".to_string()),
    );
    let result = serializer.serialize_packet(&root);
    assert!(result.is_ok());
    let packet = result.unwrap();
    println!("Serialized packet:\n{}", packet);
    assert!(packet.contains("<?xpacket"));
    assert!(packet.contains("rdf:RDF"));
    assert!(packet.contains("xmp:CreatorTool"));
}

#[test]
fn test_serialize_packet_with_padding() {
    let serializer = XmpSerializer::new();
    let mut root = StructureNode::new();
    root.set_field(
        "http://ns.adobe.com/xap/1.0/:CreatorTool".to_string(),
        Node::simple("TestApp".to_string()),
    );

    // First get the minimum packet size
    let min_packet = serializer.serialize_packet(&root).unwrap();
    let min_len = min_packet.len();

    // Test with target length equal to minimum (no padding needed)
    let result = serializer.serialize_packet_with_padding(&root, min_len);
    assert!(result.is_ok());
    let packet = result.unwrap();
    assert_eq!(packet.len(), min_len);
    assert!(packet.contains("<?xpacket"));
    assert!(packet.ends_with("<?xpacket end=\"w\"?>"));

    // Test with target length larger than minimum (padding added)
    let target_len = min_len + 100;
    let result = serializer.serialize_packet_with_padding(&root, target_len);
    assert!(result.is_ok());
    let packet = result.unwrap();
    assert_eq!(packet.len(), target_len);
    assert!(packet.contains("<?xpacket"));
    assert!(packet.ends_with("<?xpacket end=\"w\"?>"));
}

#[test]
fn test_serialize_packet_with_padding_too_small() {
    let serializer = XmpSerializer::new();
    let mut root = StructureNode::new();
    root.set_field(
        "http://ns.adobe.com/xap/1.0/:CreatorTool".to_string(),
        Node::simple("TestApp".to_string()),
    );

    // Test with target length too small - should fail
    let result = serializer.serialize_packet_with_padding(&root, 10);
    assert!(result.is_err());

    // Verify error message
    let err = result.unwrap_err();
    let err_msg = err.to_string();
    assert!(err_msg.contains("exceeds target length"));
}

#[test]
fn test_serialize_rdf_preserves_insertion_order() {
    let serializer = XmpSerializer::new();
    let mut nested = StructureNode::new();
    nested.set_field("http://ns.adobe.com/exif/1.0/:Zeta", Node::simple("z"));
    nested.set_field("http://purl.org/dc/elements/1.1/:Alpha", Node::simple("a"));

    let mut second_nested = StructureNode::new();
    second_nested.set_field("http://ns.adobe.com/exif/1.0/:Beta", Node::simple("b"));

    let mut root = StructureNode::new();
    root.set_field("http://ns.adobe.com/exif/1.0/:Zeta", Node::simple("z"));
    root.set_field("http://purl.org/dc/elements/1.1/:Alpha", Node::simple("a"));
    root.set_field(
        "http://ns.adobe.com/exif/1.0/:Nested",
        Node::Structure(nested),
    );
    root.set_field(
        "http://purl.org/dc/elements/1.1/:SecondNested",
        Node::Structure(second_nested),
    );
    root.set_field(
        "http://ns.adobe.com/exif/1.0/:Zeta",
        Node::simple("updated"),
    );

    let rdf = serializer.serialize_rdf(&root).unwrap();
    assert!(
        rdf.starts_with("<x:xmpmeta xmlns:x=\"adobe:ns:meta/\" x:xmptk=\"xmpkit\">"),
        "Missing xmpmeta element"
    );

    assert!(
        rdf.find("exif:Zeta=\"updated\"").unwrap() < rdf.find("dc:Alpha=\"a\"").unwrap(),
        "root attributes should preserve first insertion order: {}",
        rdf
    );
    let nested_pos = rdf.find("<exif:Nested ").unwrap();
    assert!(
        nested_pos < rdf.find("<dc:SecondNested ").unwrap(),
        "complex nodes should preserve insertion order: {}",
        rdf
    );
    let rdf = &rdf[nested_pos..];
    assert!(
        rdf.find("exif:Zeta=\"z\"").unwrap() < rdf.find("dc:Alpha=\"a\"").unwrap(),
        "nested structure fields should preserve insertion order: {}",
        rdf
    );
}

#[test]
/// Test that serializing an empty array generates an empty
/// element tag.
fn test_serialize_empty_array() {
    let serializer = XmpSerializer::new();
    let mut root = StructureNode::new();
    root.set_field(
        "http://purl.org/dc/elements/1.1/:creator".to_string(),
        Node::array(ArrayType::Ordered),
    );
    let result = serializer.serialize_packet(&root);
    assert!(result.is_ok());
    let packet = result.unwrap();
    println!("Serialized packet:\n{}", packet);
    assert!(packet.contains("<rdf:Seq/>"));
    assert!(packet.contains("dc:creator"));
}
