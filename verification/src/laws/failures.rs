//! Which error comes up, and how it is told.
use crate::error::{ErrorKind, Failure};
use crate::laws::contents::{lemma_element, stands_alone};
use crate::node::{ArrayType, NodeView};
use crate::path::{resolve, Names};
use crate::rdf::{elements, elements_outcome, is_element, item_outcome, items_outcome};
use crate::rdf::{node_outcome, rdf_result};
use vstd::prelude::*;

verus! {

/// An element whose path names no property is an error that quotes the whole path.
pub proof fn law_unknown_path_is_quoted(names: Names, path: Seq<char>, node: NodeView)
    requires
        resolve(names, path) is None,
    ensures
        node_outcome(names, path, node).failure == Some(
            Failure { kind: ErrorKind::BadXPath, message: "Invalid path format: "@ + path },
        ),
{
}

/// An array is an error as an item of an array, whatever it holds.
pub proof fn law_array_is_no_item(names: Names, array_type: ArrayType, items: Seq<NodeView>)
    ensures
        item_outcome(names, NodeView::Array(array_type, items)).failure == Some(
            Failure { kind: ErrorKind::NotSupported, message: "Nested arrays not yet supported"@ },
        ),
{
}

/// The error of an array is that of its first item that cannot be written, as it is.
pub proof fn law_first_item_error_counts(
    names: Names,
    path: Seq<char>,
    array_type: ArrayType,
    items: Seq<NodeView>,
    k: int,
)
    requires
        resolve(names, path) is Some,
        0 <= k < items.len(),
        item_outcome(names, items[k]).failure is Some,
        forall|i: int| 0 <= i < k ==> item_outcome(names, #[trigger] items[i]).failure is None,
    ensures
        node_outcome(names, path, NodeView::Array(array_type, items)).failure == item_outcome(
            names,
            items[k],
        ).failure,
{
    lemma_items_failure(names, items, k);
}

proof fn lemma_items_failure(names: Names, items: Seq<NodeView>, k: int)
    requires
        0 <= k <= items.len(),
        k < items.len() ==> item_outcome(names, items[k]).failure is Some,
        forall|i: int| 0 <= i < k ==> item_outcome(names, #[trigger] items[i]).failure is None,
    ensures
        items_outcome(names, items).failure == if k < items.len() {
            item_outcome(names, items[k]).failure
        } else {
            None
        },
    decreases items.len(),
{
    if items.len() > 0 {
        let rest = items.drop_last();
        assert forall|i: int| 0 <= i < k && i < rest.len() implies item_outcome(
            names,
            #[trigger] rest[i],
        ).failure is None by {
            assert(rest[i] == items[i]);
        }
        assert(items.last() == items[items.len() - 1]);
        if k < rest.len() {
            assert(rest[k] == items[k]);
            lemma_items_failure(names, rest, k);
        } else {
            lemma_items_failure(names, rest, rest.len() as int);
        }
    }
}

/// The error of the fields that are elements is that of the first one that cannot be
/// written.
pub proof fn law_first_element_error_counts(
    names: Names,
    fields: Seq<(Seq<char>, NodeView)>,
    k: int,
)
    requires
        0 <= k < fields.len(),
        stands_alone(fields[k].1),
        node_outcome(names, fields[k].0, fields[k].1).failure is Some,
        forall|i: int|
            0 <= i < k && stands_alone((#[trigger] fields[i]).1) ==> node_outcome(
                names,
                fields[i].0,
                fields[i].1,
            ).failure is None,
    ensures
        elements_outcome(names, fields).failure == node_outcome(
            names,
            fields[k].0,
            fields[k].1,
        ).failure,
{
    lemma_elements_failure(names, fields, k);
}

proof fn lemma_elements_failure(names: Names, fields: Seq<(Seq<char>, NodeView)>, k: int)
    requires
        0 <= k <= fields.len(),
        k < fields.len() ==> stands_alone(fields[k].1) && node_outcome(
            names,
            fields[k].0,
            fields[k].1,
        ).failure is Some,
        forall|i: int|
            0 <= i < k && stands_alone((#[trigger] fields[i]).1) ==> node_outcome(
                names,
                fields[i].0,
                fields[i].1,
            ).failure is None,
    ensures
        elements_outcome(names, fields).failure == if k < fields.len() {
            node_outcome(names, fields[k].0, fields[k].1).failure
        } else {
            None
        },
    decreases fields.len(),
{
    if fields.len() > 0 {
        let rest = fields.drop_last();
        assert forall|i: int|
            0 <= i < k && i < rest.len() && stands_alone(
                (#[trigger] rest[i]).1,
            ) implies node_outcome(names, rest[i].0, rest[i].1).failure is None by {
            assert(rest[i] == fields[i]);
        }
        assert(fields.last() == fields[fields.len() - 1]);
        lemma_element(fields.last().1);
        if k < rest.len() {
            assert(rest[k] == fields[k]);
            lemma_elements_failure(names, rest, k);
        } else {
            lemma_elements_failure(names, rest, rest.len() as int);
        }
    }
}

/// An error in a structure is told by the structure, be it an element, an item or the whole
/// document, as an output error that quotes it in words.
pub proof fn law_structures_quote_errors(
    names: Names,
    path: Seq<char>,
    fields: Seq<(Seq<char>, NodeView)>,
)
    requires
        resolve(names, path) is Some,
        elements_outcome(names, fields).failure is Some,
    ensures
        ({
            let inner = elements_outcome(names, fields).failure->0;
            let told = Failure {
                kind: ErrorKind::IoError,
                message: match inner.kind {
                    ErrorKind::IoError => "IO error: "@,
                    ErrorKind::BadXPath => "Bad XPath: "@,
                    ErrorKind::BadValue => "Bad value: "@,
                    ErrorKind::NotSupported => "Not supported: "@,
                    ErrorKind::SerializationError => "Serialization error: "@,
                } + inner.message,
            };
            &&& node_outcome(names, path, NodeView::Structure(fields)).failure == Some(told)
            &&& item_outcome(names, NodeView::Structure(fields)).failure == Some(told)
            &&& rdf_result(names, fields) matches Err(f) && f == told
        }),
{
    lemma_some_element(names, fields);
}

proof fn lemma_some_element(names: Names, fields: Seq<(Seq<char>, NodeView)>)
    requires
        elements_outcome(names, fields).failure is Some,
    ensures
        elements(fields).len() > 0,
    decreases fields.len(),
{
    if fields.len() > 0 && !is_element(fields.last().1) {
        lemma_some_element(names, fields.drop_last());
    }
}

} // verus!
