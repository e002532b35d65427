//! What a tree of XMP data becomes: the tags and texts of an RDF document.
use crate::error::{ErrorKind, Failure, XmpResult};
use crate::markup::{document_text, Markup, Tag};
use crate::node::{ArrayType, NodeView, QualifierView};
use crate::ns;
use crate::ordered::put;
use crate::path::{resolve, Names};
use crate::text::{blanks, byte_len, decimal, lemma_encode_concat};
use vstd::prelude::*;
use vstd::utf8::*;

verus! {

/// What writing a part of a tree comes to: the pieces written, and the error that ended
/// it, if any.
pub struct Outcome {
    pub pieces: Seq<Markup>,
    pub failure: Option<Failure>,
}

impl Outcome {
    /// Success.
    pub open spec fn wrote(pieces: Seq<Markup>) -> Outcome {
        Outcome { pieces, failure: None }
    }

    /// An error before anything is written.
    pub open spec fn failed(kind: ErrorKind, message: Seq<char>) -> Outcome {
        Outcome { pieces: Seq::empty(), failure: Some(Failure { kind, message }) }
    }

    /// This part, and where it succeeds, the next.
    pub open spec fn then_write(self, next: Outcome) -> Outcome {
        match self.failure {
            Some(_) => self,
            None => Outcome { pieces: self.pieces + next.pieces, failure: next.failure },
        }
    }

    /// This part inside an element, which reports an error as its own.
    pub open spec fn enclosed(self) -> Outcome {
        Outcome {
            pieces: self.pieces,
            failure: match self.failure {
                Some(f) => Some(f.enclosed()),
                None => None,
            },
        }
    }
}

/// A tag with attributes that opens an element.
pub open spec fn start(name: Seq<char>, attributes: Seq<(Seq<char>, Seq<char>)>) -> Markup {
    Markup::Start(Tag { name, attributes })
}

/// A tag with attributes for an element that holds nothing.
pub open spec fn empty(name: Seq<char>, attributes: Seq<(Seq<char>, Seq<char>)>) -> Markup {
    Markup::Empty(Tag { name, attributes })
}

/// Whether a qualifier says which language a text is in.
pub open spec fn is_language(q: QualifierView) -> bool {
    q.namespace == ns::XML@ && q.name == "lang"@
}

/// Whether some qualifier says which language a text is in.
pub open spec fn has_language(qualifiers: Seq<QualifierView>) -> bool {
    exists|i: int| 0 <= i < qualifiers.len() && is_language(#[trigger] qualifiers[i])
}

/// The attributes for the languages that `qualifiers` name, in order.
pub open spec fn language_attributes(qualifiers: Seq<QualifierView>) -> Seq<
    (Seq<char>, Seq<char>),
>
    decreases qualifiers.len(),
{
    if qualifiers.len() == 0 {
        Seq::empty()
    } else {
        let before = language_attributes(qualifiers.drop_last());
        if is_language(qualifiers.last()) {
            before.push(("xml:lang"@, qualifiers.last().value))
        } else {
            before
        }
    }
}

/// Whether a field with this node is an element; if not, it is an attribute. Arrays,
/// structures, and texts in a given language are elements.
pub open spec fn is_element(node: NodeView) -> bool {
    match node {
        NodeView::Simple(simple) => has_language(simple.qualifiers),
        _ => true,
    }
}

/// The fields that are elements, in order.
pub open spec fn elements(fields: Seq<(Seq<char>, NodeView)>) -> Seq<(Seq<char>, NodeView)>
    decreases fields.len(),
{
    if fields.len() == 0 {
        Seq::empty()
    } else if is_element(fields.last().1) {
        elements(fields.drop_last()).push(fields.last())
    } else {
        elements(fields.drop_last())
    }
}

/// The attributes for the fields that are not elements, in order. A field whose path
/// names no property has none.
pub open spec fn attributes(names: Names, fields: Seq<(Seq<char>, NodeView)>) -> Seq<
    (Seq<char>, Seq<char>),
>
    decreases fields.len(),
{
    if fields.len() == 0 {
        Seq::empty()
    } else {
        let before = attributes(names, fields.drop_last());
        match (resolve(names, fields.last().0), fields.last().1) {
            (Some(property), NodeView::Simple(simple)) if !has_language(simple.qualifiers) => {
                before.push((property.qualified(), simple.value))
            },
            _ => before,
        }
    }
}

/// The element that holds an array's items.
pub open spec fn container(array_type: ArrayType) -> Seq<char> {
    match array_type {
        ArrayType::Ordered => "rdf:Seq"@,
        ArrayType::Unordered => "rdf:Bag"@,
        ArrayType::Alternative => "rdf:Alt"@,
    }
}

/// A field as an element.
pub open spec fn node_outcome(names: Names, path: Seq<char>, node: NodeView) -> Outcome
    decreases node,
{
    match resolve(names, path) {
        None => Outcome::failed(ErrorKind::BadXPath, "Invalid path format: "@ + path),
        Some(property) => {
            let name = property.qualified();
            match node {
                NodeView::Simple(simple) => Outcome::wrote(
                    seq![
                        start(name, language_attributes(simple.qualifiers)),
                        Markup::Text(simple.value),
                        Markup::End(name),
                    ],
                ),
                NodeView::Array(array_type, items) => {
                    let list = container(array_type);
                    if items.len() == 0 {
                        Outcome::wrote(
                            seq![
                                start(name, Seq::empty()),
                                empty(list, Seq::empty()),
                                Markup::End(name),
                            ],
                        )
                    } else {
                        Outcome::wrote(
                            seq![start(name, Seq::empty()), start(list, Seq::empty())],
                        ).then_write(items_outcome(names, items)).then_write(
                            Outcome::wrote(seq![Markup::End(list), Markup::End(name)]),
                        )
                    }
                },
                NodeView::Structure(fields) => {
                    if elements(fields).len() == 0 {
                        Outcome::wrote(seq![empty(name, attributes(names, fields))])
                    } else {
                        Outcome::wrote(seq![start(name, attributes(names, fields))]).then_write(
                            elements_outcome(names, fields).enclosed(),
                        ).then_write(Outcome::wrote(seq![Markup::End(name)]))
                    }
                },
            }
        },
    }
}

/// The fields that are elements, one after the other.
pub open spec fn elements_outcome(names: Names, fields: Seq<(Seq<char>, NodeView)>) -> Outcome
    decreases fields,
{
    if fields.len() == 0 {
        Outcome::wrote(Seq::empty())
    } else if is_element(fields.last().1) {
        elements_outcome(names, fields.drop_last()).then_write(
            node_outcome(names, fields.last().0, fields.last().1),
        )
    } else {
        elements_outcome(names, fields.drop_last())
    }
}

/// The items of an array, one after the other.
pub open spec fn items_outcome(names: Names, items: Seq<NodeView>) -> Outcome
    decreases items,
{
    if items.len() == 0 {
        Outcome::wrote(Seq::empty())
    } else {
        items_outcome(names, items.drop_last()).then_write(item_outcome(names, items.last()))
    }
}

/// An item of an array. An array cannot be one.
pub open spec fn item_outcome(names: Names, item: NodeView) -> Outcome
    decreases item,
{
    match item {
        NodeView::Simple(simple) => Outcome::wrote(
            seq![
                start("rdf:li"@, language_attributes(simple.qualifiers)),
                Markup::Text(simple.value),
                Markup::End("rdf:li"@),
            ],
        ),
        NodeView::Structure(fields) => {
            if elements(fields).len() == 0 {
                Outcome::wrote(seq![empty("rdf:li"@, attributes(names, fields))])
            } else {
                Outcome::wrote(
                    seq![
                        start("rdf:li"@, Seq::empty()),
                        start("rdf:Description"@, attributes(names, fields)),
                    ],
                ).then_write(elements_outcome(names, fields).enclosed()).then_write(
                    Outcome::wrote(
                        seq![Markup::End("rdf:Description"@), Markup::End("rdf:li"@)],
                    ),
                )
            }
        },
        NodeView::Array(_, _) => Outcome::failed(
            ErrorKind::NotSupported,
            "Nested arrays not yet supported"@,
        ),
    }
}

/// `used` with the namespaces of the fields, and of what is in them, put in.
pub open spec fn fields_namespaces(
    names: Names,
    fields: Seq<(Seq<char>, NodeView)>,
    used: Seq<(Seq<char>, Seq<char>)>,
) -> Seq<(Seq<char>, Seq<char>)>
    decreases fields,
{
    if fields.len() == 0 {
        used
    } else {
        let before = fields_namespaces(names, fields.drop_last(), used);
        let own = match resolve(names, fields.last().0) {
            Some(property) => put(before, property.uri, property.prefix),
            None => before,
        };
        node_namespaces(names, fields.last().1, own)
    }
}

/// `used` with the namespaces of what is in a list of nodes put in.
pub open spec fn items_namespaces(
    names: Names,
    items: Seq<NodeView>,
    used: Seq<(Seq<char>, Seq<char>)>,
) -> Seq<(Seq<char>, Seq<char>)>
    decreases items,
{
    if items.len() == 0 {
        used
    } else {
        node_namespaces(names, items.last(), items_namespaces(names, items.drop_last(), used))
    }
}

/// `used` with the namespaces of what is in a node put in.
pub open spec fn node_namespaces(
    names: Names,
    node: NodeView,
    used: Seq<(Seq<char>, Seq<char>)>,
) -> Seq<(Seq<char>, Seq<char>)>
    decreases node,
{
    match node {
        NodeView::Simple(_) => used,
        NodeView::Array(_, items) => items_namespaces(names, items, used),
        NodeView::Structure(fields) => fields_namespaces(names, fields, used),
    }
}

/// The namespaces that a document with these fields uses, in the order in which they
/// first come up.
pub open spec fn used_namespaces(names: Names, fields: Seq<(Seq<char>, NodeView)>) -> Seq<
    (Seq<char>, Seq<char>),
> {
    fields_namespaces(names, fields, Seq::empty())
}

/// The declarations that every document has.
pub open spec fn fixed_declarations() -> Seq<(Seq<char>, Seq<char>)> {
    seq![
        ("xmlns:rdf"@, ns::RDF@),
        ("xmlns:xmp"@, ns::XMP@),
        ("xmlns:dc"@, ns::DC@),
        ("xmlns:exif"@, ns::EXIF@),
        ("xmlns:xml"@, ns::XML@),
    ]
}

/// Whether every document declares the namespace.
pub open spec fn always_declared(uri: Seq<char>) -> bool {
    uri == ns::RDF@ || uri == ns::XMP@ || uri == ns::DC@ || uri == ns::EXIF@ || uri == ns::XML@
}

/// The declarations for the namespaces in use that not every document has.
pub open spec fn more_declarations(used: Seq<(Seq<char>, Seq<char>)>) -> Seq<
    (Seq<char>, Seq<char>),
>
    decreases used.len(),
{
    if used.len() == 0 {
        Seq::empty()
    } else {
        let before = more_declarations(used.drop_last());
        let (uri, prefix) = used.last();
        if always_declared(uri) {
            before
        } else {
            before.push(("xmlns:"@ + prefix, uri))
        }
    }
}

/// The attributes of the outermost element.
pub open spec fn meta_attributes() -> Seq<(Seq<char>, Seq<char>)> {
    seq![("xmlns:x"@, "adobe:ns:meta/"@), ("x:xmptk"@, "xmpkit"@)]
}

/// The attributes of the element that holds the RDF: all declarations.
pub open spec fn declarations(names: Names, fields: Seq<(Seq<char>, NodeView)>) -> Seq<
    (Seq<char>, Seq<char>),
> {
    fixed_declarations() + more_declarations(used_namespaces(names, fields))
}

/// The attributes of the element that describes the resource.
pub open spec fn description_attributes(names: Names, fields: Seq<(Seq<char>, NodeView)>) -> Seq<
    (Seq<char>, Seq<char>),
> {
    seq![("rdf:about"@, ""@)] + attributes(names, fields)
}

/// The element that describes the resource.
pub open spec fn description_outcome(names: Names, fields: Seq<(Seq<char>, NodeView)>) -> Outcome {
    let all = description_attributes(names, fields);
    if elements(fields).len() == 0 {
        Outcome::wrote(seq![empty("rdf:Description"@, all)])
    } else {
        Outcome::wrote(seq![start("rdf:Description"@, all)]).then_write(
            elements_outcome(names, fields).enclosed(),
        ).then_write(Outcome::wrote(seq![Markup::End("rdf:Description"@)]))
    }
}

/// The document for a structure with these fields.
pub open spec fn document_outcome(names: Names, fields: Seq<(Seq<char>, NodeView)>) -> Outcome {
    Outcome::wrote(
        seq![
            start("x:xmpmeta"@, meta_attributes()),
            start("rdf:RDF"@, declarations(names, fields)),
        ],
    ).then_write(description_outcome(names, fields)).then_write(
        Outcome::wrote(seq![Markup::End("rdf:RDF"@), Markup::End("x:xmpmeta"@)]),
    )
}

/// The RDF/XML for a structure with these fields, or the error that comes up.
pub open spec fn rdf_result(names: Names, fields: Seq<(Seq<char>, NodeView)>) -> Result<
    Seq<char>,
    Failure,
> {
    let outcome = document_outcome(names, fields);
    match outcome.failure {
        Some(f) => Err(f),
        None => Ok(document_text(outcome.pieces)),
    }
}

/// What a packet starts with.
pub open spec fn packet_header() -> Seq<char> {
    "<?xpacket begin=\"\" id=\"W5M0MpCehiHzreSzNTczkc9d\"?>"@
}

/// What a packet ends with.
pub open spec fn packet_trailer() -> Seq<char> {
    "<?xpacket end=\"w\"?>"@
}

/// A packet around `rdf`, with `padding` blanks before its end.
pub open spec fn packet_text(rdf: Seq<char>, padding: nat) -> Seq<char> {
    packet_header() + "\n"@ + rdf + "\n"@ + blanks(padding) + packet_trailer()
}

/// The size of the packet around `rdf` without padding.
pub open spec fn packet_size(rdf: Seq<char>) -> nat {
    byte_len(packet_text(rdf, 0))
}

/// What is said of a packet that does not fit.
pub open spec fn too_long_message(size: nat, target: nat) -> Seq<char> {
    "XMP packet minimum size ("@ + decimal(size) + ") exceeds target length ("@
        + decimal(target) + ")"@
}

/// The packet for a structure with these fields, or the error that comes up.
pub open spec fn packet_result(names: Names, fields: Seq<(Seq<char>, NodeView)>) -> Result<
    Seq<char>,
    Failure,
> {
    match rdf_result(names, fields) {
        Ok(rdf) => Ok(packet_text(rdf, 0)),
        Err(f) => Err(f),
    }
}

/// The packet of `target` bytes for a structure with these fields, or the error that
/// comes up: among them, that the packet is longer even without padding.
pub open spec fn padded_result(
    names: Names,
    fields: Seq<(Seq<char>, NodeView)>,
    target: nat,
) -> Result<Seq<char>, Failure> {
    match rdf_result(names, fields) {
        Ok(rdf) => {
            if packet_size(rdf) > target {
                Err(
                    Failure {
                        kind: ErrorKind::BadValue,
                        message: too_long_message(packet_size(rdf), target),
                    },
                )
            } else {
                Ok(packet_text(rdf, (target - packet_size(rdf)) as nat))
            }
        },
        Err(f) => Err(f),
    }
}

/// A text or an error as characters.
pub open spec fn result_view(r: XmpResult<String>) -> Result<Seq<char>, Failure> {
    match r {
        Ok(s) => Ok(s@),
        Err(e) => Err(e@),
    }
}

/// The size of a packet: that of its parts.
pub proof fn lemma_packet_size(rdf: Seq<char>, padding: nat)
    ensures
        byte_len(packet_text(rdf, padding)) == byte_len(packet_header()) + 1 + byte_len(rdf) + 1
            + padding + byte_len(packet_trailer()),
{
    let blanks = blanks(padding);
    let a = packet_header() + "\n"@;
    let b = a + rdf;
    let c = b + "\n"@;
    let d = c + blanks;
    lemma_encode_concat(packet_header(), "\n"@);
    lemma_encode_concat(a, rdf);
    lemma_encode_concat(b, "\n"@);
    lemma_encode_concat(c, blanks);
    lemma_encode_concat(d, packet_trailer());
    reveal_strlit("\n");
    is_ascii_chars_encode_utf8("\n"@);
    is_ascii_chars_encode_utf8(blanks);
}

} // verus!
