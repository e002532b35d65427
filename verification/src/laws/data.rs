//! The model of a tree leaves nothing out.
use crate::error::{ErrorKind, XmpError};
use crate::namespace::standard_namespaces;
use crate::node::{ArrayNode, Node, NodeView, Qualifier, SimpleNode, StructureNode};
use crate::rdf::result_view;
use crate::text::IntoText;
use vstd::prelude::*;

verus! {

/// A text is modelled with its whole value and all its qualifiers, in their order.
pub proof fn law_texts_are_whole(simple: SimpleNode)
    ensures
        Node::Simple(simple)@ == NodeView::Simple(simple@),
        simple@.value == simple.value@,
        simple@.qualifiers.len() == simple.qualifiers@.len(),
        forall|i: int|
            0 <= i < simple.qualifiers@.len() ==> (#[trigger] simple@.qualifiers[i])
                == simple.qualifiers@[i]@,
{
}

/// A qualifier is modelled with its namespace, its name and its value.
pub proof fn law_qualifiers_are_whole(qualifier: Qualifier)
    ensures
        qualifier@.namespace == qualifier.namespace@,
        qualifier@.name == qualifier.name@,
        qualifier@.value == qualifier.value@,
{
}

/// An array is modelled with its kind and all its items, in their order.
pub proof fn law_arrays_are_whole(array: ArrayNode)
    ensures
        Node::Array(array)@ == NodeView::Array(array.array_type, array@),
        array@.len() == array.items@.len(),
        forall|i: int| 0 <= i < array.items@.len() ==> (#[trigger] array@[i]) == array.items@[i]@,
{
}

/// A structure is modelled with all its fields, in their order.
pub proof fn law_structures_are_whole(structure: StructureNode)
    ensures
        Node::Structure(structure)@ == NodeView::Structure(structure@),
        structure@.len() == structure.fields@.len(),
        forall|i: int|
            0 <= i < structure.fields@.len() ==> (#[trigger] structure@[i]) == (
                structure.fields@[i].0@,
                structure.fields@[i].1@,
            ),
{
}

/// A text that is handed over is taken as it is, owned or borrowed.
pub proof fn law_handed_over_as_it_is(owned: String, borrowed: &str)
    ensures
        owned.text() == owned@,
        borrowed.text() == borrowed@,
{
}

/// A result is modelled with its whole text, or with its error.
pub proof fn law_results_are_whole(text: String, error: XmpError)
    ensures
        result_view(Ok(text)) matches Ok(s) && s == text@,
        result_view(Err(error)) matches Err(f) && f == error@,
{
}

/// An error is modelled with its kind and its whole message, and in words it is a label
/// for its kind and the message.
pub proof fn law_errors_are_whole(m: String)
    ensures
        XmpError::IoError(m)@.kind == ErrorKind::IoError && XmpError::IoError(m)@.message == m@,
        XmpError::BadXPath(m)@.kind == ErrorKind::BadXPath && XmpError::BadXPath(m)@.message == m@,
        XmpError::BadValue(m)@.kind == ErrorKind::BadValue && XmpError::BadValue(m)@.message == m@,
        XmpError::NotSupported(m)@.kind == ErrorKind::NotSupported && XmpError::NotSupported(
            m,
        )@.message == m@,
        XmpError::SerializationError(m)@.kind == ErrorKind::SerializationError
            && XmpError::SerializationError(m)@.message == m@,
        XmpError::IoError(m)@.words() == "IO error: "@ + m@,
        XmpError::BadXPath(m)@.words() == "Bad XPath: "@ + m@,
        XmpError::BadValue(m)@.words() == "Bad value: "@ + m@,
        XmpError::NotSupported(m)@.words() == "Not supported: "@ + m@,
        XmpError::SerializationError(m)@.words() == "Serialization error: "@ + m@,
{
}

/// The standard registry knows five namespaces and no other.
pub proof fn law_standard_registry(uri: Seq<char>)
    ensures
        standard_namespaces().contains_key(uri) <==> (uri
            == "http://www.w3.org/1999/02/22-rdf-syntax-ns#"@ || uri
            == "http://ns.adobe.com/xap/1.0/"@ || uri == "http://purl.org/dc/elements/1.1/"@ || uri
            == "http://ns.adobe.com/exif/1.0/"@ || uri
            == "http://www.w3.org/XML/1998/namespace"@),
        uri == "http://www.w3.org/1999/02/22-rdf-syntax-ns#"@ ==> standard_namespaces()[uri]
            == "rdf"@,
        uri == "http://ns.adobe.com/xap/1.0/"@ ==> standard_namespaces()[uri] == "xmp"@,
        uri == "http://purl.org/dc/elements/1.1/"@ ==> standard_namespaces()[uri] == "dc"@,
        uri == "http://ns.adobe.com/exif/1.0/"@ ==> standard_namespaces()[uri] == "exif"@,
        uri == "http://www.w3.org/XML/1998/namespace"@ ==> standard_namespaces()[uri] == "xml"@,
{
    reveal_strlit("http://www.w3.org/XML/1998/namespace");
    reveal_strlit("http://www.w3.org/1999/02/22-rdf-syntax-ns#");
    reveal_strlit("http://ns.adobe.com/xap/1.0/");
    reveal_strlit("http://purl.org/dc/elements/1.1/");
    reveal_strlit("http://ns.adobe.com/exif/1.0/");
    assert("http://www.w3.org/XML/1998/namespace"@.len() == 36);
    assert("http://www.w3.org/1999/02/22-rdf-syntax-ns#"@.len() == 43);
    assert("http://ns.adobe.com/xap/1.0/"@.len() == 28);
    assert("http://purl.org/dc/elements/1.1/"@.len() == 32);
    assert("http://ns.adobe.com/exif/1.0/"@.len() == 29);
}

} // verus!
