use xmpkit::node::{ArrayType, Node, StructureNode};
use xmpkit::serializer::XmpSerializer;

const HEADER: &str = "<?xpacket begin=\"\" id=\"W5M0MpCehiHzreSzNTczkc9d\"?>";
const TRAILER: &str = "<?xpacket end=\"w\"?>";

fn with_text(value: &str) -> StructureNode {
    let mut root = StructureNode::new();
    root.set_field("http://purl.org/dc/elements/1.1/:format", Node::simple(value));
    root
}

#[test]
fn a_packet_frames_the_document() {
    let serializer = XmpSerializer::new();
    let root = with_text("a");
    let rdf = serializer.serialize_rdf(&root).unwrap();
    assert!(rdf.starts_with("<x:xmpmeta xmlns:x=\"adobe:ns:meta/\" x:xmptk=\"xmpkit\">"));
    assert!(rdf.ends_with("</x:xmpmeta>"));
    let packet = serializer.serialize_packet(&root).unwrap();
    assert_eq!(packet, format!("{}\n{}\n{}", HEADER, rdf, TRAILER));
}

#[test]
fn padding_is_blanks_before_the_trailer() {
    let serializer = XmpSerializer::new();
    let root = with_text("a");
    let packet = serializer.serialize_packet(&root).unwrap();
    let body = packet.strip_suffix(TRAILER).unwrap();
    for padding in [0, 1, 7, 2048] {
        let padded =
            serializer.serialize_packet_with_padding(&root, packet.len() + padding).unwrap();
        assert_eq!(padded, format!("{}{}{}", body, " ".repeat(padding), TRAILER));
        assert_eq!(padded.len(), packet.len() + padding);
    }
}

#[test]
fn the_size_counts_bytes() {
    let serializer = XmpSerializer::new();
    let ascii = serializer.serialize_packet(&with_text("")).unwrap().len();
    let root = with_text("\u{e9}\u{20ac}\u{1f600}");
    assert_eq!(serializer.serialize_packet(&root).unwrap().len(), ascii + 2 + 3 + 4);
    let padded = serializer.serialize_packet_with_padding(&root, ascii + 20).unwrap();
    assert_eq!(padded.len(), ascii + 20);
    assert!(padded.ends_with(&format!("\n{}{}", " ".repeat(11), TRAILER)));
    assert!(serializer.serialize_packet_with_padding(&root, ascii + 8).is_err());
}

#[test]
fn the_empty_packet_has_a_known_size() {
    let serializer = XmpSerializer::new();
    let root = StructureNode::new();
    assert_eq!(serializer.serialize_packet(&root).unwrap().len(), 431);
    assert_eq!(
        serializer.serialize_packet_with_padding(&root, 431),
        serializer.serialize_packet(&root)
    );
}

#[test]
fn document_errors_come_before_the_size() {
    let serializer = XmpSerializer::new();
    let mut root = StructureNode::new();
    root.set_field("urn:a:list", Node::array(ArrayType::Ordered));
    let error = serializer.serialize_rdf(&root).unwrap_err();
    assert_eq!(serializer.serialize_packet(&root).unwrap_err(), error);
    for target in [0, 10, 100000, usize::MAX] {
        let padded = serializer.serialize_packet_with_padding(&root, target);
        assert_eq!(padded.unwrap_err(), error);
    }
}
