//! When serializing succeeds, and what is left out.
use crate::error::ErrorKind;
use crate::node::{NodeView, SimpleView};
use crate::path::{resolve, Names};
use crate::rdf::{attributes, elements, elements_outcome, has_language, is_element};
use crate::rdf::{item_outcome, items_outcome, node_namespaces, node_outcome, rdf_result};
use crate::rdf::used_namespaces;
use vstd::prelude::*;

verus! {

/// Whether every field that is an element can be written.
pub open spec fn writable_fields(names: Names, fields: Seq<(Seq<char>, NodeView)>) -> bool
    decreases fields,
{
    forall|i: int|
        0 <= i < fields.len() ==> (is_element((#[trigger] fields[i]).1) ==> writable(
            names,
            fields[i].0,
            fields[i].1,
        ))
}

/// Whether a field can be written as an element: its namespace has a prefix, and so on
/// for what is in it.
pub open spec fn writable(names: Names, path: Seq<char>, node: NodeView) -> bool
    decreases node,
{
    &&& resolve(names, path) is Some
    &&& match node {
        NodeView::Simple(_) => true,
        NodeView::Array(_, items) => forall|i: int|
            0 <= i < items.len() ==> writable_item(names, #[trigger] items[i]),
        NodeView::Structure(fields) => writable_fields(names, fields),
    }
}

/// Whether a node can be written as an item of an array: it is no array, and all that is
/// in it can be written.
pub open spec fn writable_item(names: Names, item: NodeView) -> bool
    decreases item,
{
    match item {
        NodeView::Simple(_) => true,
        NodeView::Array(_, _) => false,
        NodeView::Structure(fields) => writable_fields(names, fields),
    }
}

proof fn lemma_elements_none(fields: Seq<(Seq<char>, NodeView)>)
    requires
        elements(fields).len() == 0,
    ensures
        forall|i: int| 0 <= i < fields.len() ==> !is_element((#[trigger] fields[i]).1),
    decreases fields.len(),
{
    if fields.len() > 0 {
        let rest = fields.drop_last();
        lemma_elements_none(rest);
        assert forall|i: int| 0 <= i < fields.len() implies !is_element(
            (#[trigger] fields[i]).1,
        ) by {
            if i < rest.len() {
                assert(rest[i] == fields[i]);
            }
        }
    }
}

proof fn lemma_elements_succeed(names: Names, fields: Seq<(Seq<char>, NodeView)>)
    ensures
        elements_outcome(names, fields).failure is None <==> writable_fields(names, fields),
    decreases fields,
{
    if fields.len() > 0 {
        let rest = fields.drop_last();
        let (path, node) = fields.last();
        lemma_elements_succeed(names, rest);
        if is_element(node) {
            lemma_node_succeeds(names, path, node);
        }
        if writable_fields(names, fields) {
            assert forall|i: int|
                0 <= i < rest.len() && is_element((#[trigger] rest[i]).1) implies writable(
                names,
                rest[i].0,
                rest[i].1,
            ) by {
                assert(fields[i] == rest[i]);
            }
            assert(fields[fields.len() - 1] == fields.last());
        }
        if writable_fields(names, rest) && (is_element(node) ==> writable(names, path, node)) {
            assert forall|i: int|
                0 <= i < fields.len() && is_element((#[trigger] fields[i]).1) implies writable(
                names,
                fields[i].0,
                fields[i].1,
            ) by {
                if i < rest.len() {
                    assert(fields[i] == rest[i]);
                }
            }
        }
    }
}

proof fn lemma_items_succeed(names: Names, items: Seq<NodeView>)
    ensures
        items_outcome(names, items).failure is None <==> (forall|i: int|
            0 <= i < items.len() ==> writable_item(names, #[trigger] items[i])),
    decreases items,
{
    if items.len() > 0 {
        let rest = items.drop_last();
        lemma_items_succeed(names, rest);
        lemma_item_succeeds(names, items.last());
        if forall|i: int| 0 <= i < items.len() ==> writable_item(names, #[trigger] items[i]) {
            assert forall|i: int| 0 <= i < rest.len() implies writable_item(
                names,
                #[trigger] rest[i],
            ) by {
                assert(items[i] == rest[i]);
            }
            assert(items[items.len() - 1] == items.last());
        }
        if items_outcome(names, items).failure is None {
            assert forall|i: int| 0 <= i < items.len() implies writable_item(
                names,
                #[trigger] items[i],
            ) by {
                if i < rest.len() {
                    assert(items[i] == rest[i]);
                }
            }
        }
    }
}

proof fn lemma_item_succeeds(names: Names, item: NodeView)
    ensures
        item_outcome(names, item).failure is None <==> writable_item(names, item),
    decreases item,
{
    if let NodeView::Structure(fields) = item {
        if elements(fields).len() == 0 {
            lemma_elements_none(fields);
        } else {
            lemma_elements_succeed(names, fields);
        }
    }
}

proof fn lemma_node_succeeds(names: Names, path: Seq<char>, node: NodeView)
    ensures
        node_outcome(names, path, node).failure is None <==> writable(names, path, node),
    decreases node,
{
    match node {
        NodeView::Simple(_) => {},
        NodeView::Array(_, items) => {
            lemma_items_succeed(names, items);
        },
        NodeView::Structure(fields) => {
            if elements(fields).len() == 0 {
                lemma_elements_none(fields);
            } else {
                lemma_elements_succeed(names, fields);
            }
        },
    }
}

/// A structure can be serialized exactly where every field that is an element can be
/// written: each namespace that an element is in has a prefix, and no array stands
/// directly in another.
pub proof fn law_success(names: Names, fields: Seq<(Seq<char>, NodeView)>)
    ensures
        rdf_result(names, fields) is Ok <==> writable_fields(names, fields),
{
    if elements(fields).len() == 0 {
        lemma_elements_none(fields);
    } else {
        lemma_elements_succeed(names, fields);
    }
}

/// What keeps a structure from being serialized came up inside an element, and is
/// reported as an output error.
pub proof fn law_errors_are_output_errors(names: Names, fields: Seq<(Seq<char>, NodeView)>)
    requires
        rdf_result(names, fields) is Err,
    ensures
        (rdf_result(names, fields)->Err_0).kind == ErrorKind::IoError,
{
}

/// A text without a language whose path names no registered namespace is left out: the
/// document is the one without it, wherever among the fields it stands.
pub proof fn law_unregistered_text_is_left_out(
    names: Names,
    before: Seq<(Seq<char>, NodeView)>,
    path: Seq<char>,
    simple: SimpleView,
    after: Seq<(Seq<char>, NodeView)>,
)
    requires
        resolve(names, path) is None,
        !has_language(simple.qualifiers),
    ensures
        rdf_result(names, before.push((path, NodeView::Simple(simple))) + after) == rdf_result(
            names,
            before + after,
        ),
{
    lemma_left_out(names, before, path, simple, after);
}

proof fn lemma_left_out(
    names: Names,
    before: Seq<(Seq<char>, NodeView)>,
    path: Seq<char>,
    simple: SimpleView,
    after: Seq<(Seq<char>, NodeView)>,
)
    requires
        resolve(names, path) is None,
        !has_language(simple.qualifiers),
    ensures
        ({
            let more = before.push((path, NodeView::Simple(simple))) + after;
            let less = before + after;
            &&& attributes(names, more) == attributes(names, less)
            &&& elements(more) == elements(less)
            &&& elements_outcome(names, more) == elements_outcome(names, less)
            &&& used_namespaces(names, more) == used_namespaces(names, less)
        }),
    decreases after.len(),
{
    let own = before.push((path, NodeView::Simple(simple)));
    let more = own + after;
    let less = before + after;
    if after.len() == 0 {
        assert(more =~= own);
        assert(less =~= before);
        assert(own.drop_last() =~= before);
        let used = used_namespaces(names, before);
        assert(node_namespaces(names, NodeView::Simple(simple), used) == used);
    } else {
        assert(more.drop_last() =~= own + after.drop_last());
        assert(less.drop_last() =~= before + after.drop_last());
        assert(more.last() == less.last());
        lemma_left_out(names, before, path, simple, after.drop_last());
    }
}

} // verus!
