//! What comes first stays first.
use crate::markup::Markup;
use crate::node::{ArrayType, NodeView};
use crate::ordered::{has_key, lemma_position, lemma_position_found, put};
use crate::path::{resolve, Names};
use crate::rdf::{attributes, container, elements, elements_outcome, empty, is_element};
use crate::rdf::{item_outcome, items_outcome, node_outcome, start, Outcome};
use vstd::prelude::*;

verus! {

/// Setting a field that a structure has leaves every field in its place.
pub proof fn law_update_keeps_places(
    fields: Seq<(Seq<char>, NodeView)>,
    key: Seq<char>,
    node: NodeView,
)
    requires
        has_key(fields, key),
    ensures
        put(fields, key, node).len() == fields.len(),
        forall|i: int|
            0 <= i < fields.len() ==> (#[trigger] put(fields, key, node)[i]).0 == fields[i].0,
        forall|i: int|
            0 <= i < fields.len() && fields[i].0 != key ==> (#[trigger] put(
                fields,
                key,
                node,
            )[i]) == fields[i],
{
    lemma_position(fields, key);
}

/// Setting a field that a structure does not have puts it after all others, which stay
/// as they are.
pub proof fn law_new_field_comes_last(
    fields: Seq<(Seq<char>, NodeView)>,
    key: Seq<char>,
    node: NodeView,
)
    requires
        !has_key(fields, key),
    ensures
        put(fields, key, node) == fields.push((key, node)),
{
}

/// A structure has a field exactly where some field has its name, and setting the field
/// changes the first one of that name to the node that is set.
pub proof fn law_field_is_set(
    fields: Seq<(Seq<char>, NodeView)>,
    key: Seq<char>,
    node: NodeView,
    k: int,
)
    requires
        0 <= k < fields.len(),
        fields[k].0 == key,
        forall|i: int| 0 <= i < k ==> (#[trigger] fields[i]).0 != key,
    ensures
        has_key(fields, key),
        put(fields, key, node) == fields.update(k, (key, node)),
{
    lemma_position_found(fields, key, k);
}

/// A name that no field has is not in the structure, and setting it adds one field.
pub proof fn law_field_is_added(
    fields: Seq<(Seq<char>, NodeView)>,
    key: Seq<char>,
    node: NodeView,
)
    requires
        forall|i: int| 0 <= i < fields.len() ==> (#[trigger] fields[i]).0 != key,
    ensures
        !has_key(fields, key),
        put(fields, key, node) == fields + seq![(key, node)],
{
    lemma_position(fields, key);
    assert(fields.push((key, node)) =~= fields + seq![(key, node)]);
}

/// Attributes come in the order of the fields: those of earlier fields precede those of
/// later ones.
pub proof fn law_attributes_in_order(
    names: Names,
    earlier: Seq<(Seq<char>, NodeView)>,
    later: Seq<(Seq<char>, NodeView)>,
)
    ensures
        attributes(names, earlier + later) == attributes(names, earlier) + attributes(names, later),
    decreases later.len(),
{
    let all = earlier + later;
    if later.len() == 0 {
        assert(all =~= earlier);
        assert(attributes(names, earlier) + attributes(names, later) =~= attributes(
            names,
            earlier,
        ));
    } else {
        assert(all.drop_last() =~= earlier + later.drop_last());
        assert(all.last() == later.last());
        law_attributes_in_order(names, earlier, later.drop_last());
        assert(attributes(names, all) =~= attributes(names, earlier) + attributes(names, later));
    }
}

/// The fields that are elements keep their order.
pub proof fn law_elements_in_order(
    earlier: Seq<(Seq<char>, NodeView)>,
    later: Seq<(Seq<char>, NodeView)>,
)
    ensures
        elements(earlier + later) == elements(earlier) + elements(later),
    decreases later.len(),
{
    let all = earlier + later;
    if later.len() == 0 {
        assert(all =~= earlier);
        assert(elements(earlier) + elements(later) =~= elements(earlier));
    } else {
        assert(all.drop_last() =~= earlier + later.drop_last());
        assert(all.last() == later.last());
        law_elements_in_order(earlier, later.drop_last());
        assert(elements(all) =~= elements(earlier) + elements(later));
    }
}

/// Elements are written in the order of the fields.
pub proof fn law_elements_written_in_order(
    names: Names,
    earlier: Seq<(Seq<char>, NodeView)>,
    later: Seq<(Seq<char>, NodeView)>,
)
    ensures
        elements_outcome(names, earlier + later) == elements_outcome(names, earlier).then_write(
            elements_outcome(names, later),
        ),
    decreases later.len(),
{
    let all = earlier + later;
    let first = elements_outcome(names, earlier);
    if later.len() == 0 {
        assert(all =~= earlier);
        assert(first.pieces + Seq::<Markup>::empty() =~= first.pieces);
    } else {
        assert(all.drop_last() =~= earlier + later.drop_last());
        assert(all.last() == later.last());
        law_elements_written_in_order(names, earlier, later.drop_last());
        if is_element(later.last().1) {
            lemma_then_write_associates(
                first,
                elements_outcome(names, later.drop_last()),
                node_outcome(names, later.last().0, later.last().1),
            );
        }
    }
}

/// The items of an array are written in order.
pub proof fn law_items_written_in_order(
    names: Names,
    earlier: Seq<NodeView>,
    later: Seq<NodeView>,
)
    ensures
        items_outcome(names, earlier + later) == items_outcome(names, earlier).then_write(
            items_outcome(names, later),
        ),
    decreases later.len(),
{
    let all = earlier + later;
    let first = items_outcome(names, earlier);
    if later.len() == 0 {
        assert(all =~= earlier);
        assert(first.pieces + Seq::<Markup>::empty() =~= first.pieces);
    } else {
        assert(all.drop_last() =~= earlier + later.drop_last());
        assert(all.last() == later.last());
        law_items_written_in_order(names, earlier, later.drop_last());
        lemma_then_write_associates(
            first,
            items_outcome(names, later.drop_last()),
            item_outcome(names, later.last()),
        );
    }
}

/// It does not matter how a sequence of parts is grouped.
proof fn lemma_then_write_associates(a: Outcome, b: Outcome, c: Outcome)
    ensures
        a.then_write(b).then_write(c) == a.then_write(b.then_write(c)),
{
    assert(a.pieces + b.pieces + c.pieces =~= a.pieces + (b.pieces + c.pieces));
}

/// An array without items is an element that holds an empty container.
pub proof fn law_empty_array(names: Names, path: Seq<char>, array_type: ArrayType)
    requires
        resolve(names, path) is Some,
    ensures
        node_outcome(names, path, NodeView::Array(array_type, Seq::empty())) == Outcome::wrote(
            seq![
                start(resolve(names, path)->0.qualified(), Seq::empty()),
                empty(container(array_type), Seq::empty()),
                Markup::End(resolve(names, path)->0.qualified()),
            ],
        ),
{
}

} // verus!
