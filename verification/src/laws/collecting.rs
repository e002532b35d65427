//! Collecting the namespaces in use.
use crate::node::{ArrayType, NodeView, SimpleView};
use crate::ordered::{has_key, lemma_position, lemma_position_found, lemma_put_lookup};
use crate::ordered::{position, put};
use crate::path::{resolve, Names};
use crate::rdf::{declarations, fields_namespaces, items_namespaces, more_declarations};
use crate::rdf::node_namespaces;
use vstd::prelude::*;

verus! {

/// Whether a list gives a namespace the prefix that it has.
spec fn knows(names: Names, used: Seq<(Seq<char>, Seq<char>)>, uri: Seq<char>) -> bool {
    has_key(used, uri) && names.prefix(uri) == Some(used[position(used, uri)].1)
}

/// Whether a list gives all that another gives the prefixes that they have.
spec fn knows_more(
    names: Names,
    before: Seq<(Seq<char>, Seq<char>)>,
    after: Seq<(Seq<char>, Seq<char>)>,
) -> bool {
    forall|uri: Seq<char>| #[trigger] knows(names, before, uri) ==> knows(names, after, uri)
}

/// Whether a list gives the namespaces of some fields, and of what is in them, the
/// prefixes that they have.
spec fn knows_fields(
    names: Names,
    used: Seq<(Seq<char>, Seq<char>)>,
    fields: Seq<(Seq<char>, NodeView)>,
) -> bool
    decreases fields,
{
    forall|i: int|
        0 <= i < fields.len() ==> (resolve(names, (#[trigger] fields[i]).0) matches Some(property)
            ==> knows(names, used, property.uri)) && knows_node(names, used, fields[i].1)
}

/// Whether a list gives the namespaces of what is in a node the prefixes that they have.
spec fn knows_node(names: Names, used: Seq<(Seq<char>, Seq<char>)>, node: NodeView) -> bool
    decreases node,
{
    match node {
        NodeView::Simple(_) => true,
        NodeView::Array(_, items) => forall|i: int|
            0 <= i < items.len() ==> knows_node(names, used, #[trigger] items[i]),
        NodeView::Structure(fields) => knows_fields(names, used, fields),
    }
}

proof fn lemma_put_knows(
    names: Names,
    used: Seq<(Seq<char>, Seq<char>)>,
    uri: Seq<char>,
    prefix: Seq<char>,
)
    requires
        names.prefix(uri) == Some(prefix),
    ensures
        knows(names, put(used, uri, prefix), uri),
        knows_more(names, used, put(used, uri, prefix)),
        knows(names, used, uri) ==> put(used, uri, prefix) == used,
{
    let after = put(used, uri, prefix);
    lemma_put_lookup(used, uri, prefix, uri);
    assert forall|other: Seq<char>| #[trigger] knows(names, used, other) implies knows(
        names,
        after,
        other,
    ) by {
        lemma_put_lookup(used, uri, prefix, other);
    }
    if knows(names, used, uri) {
        lemma_position(used, uri);
        assert(used[position(used, uri)] == (uri, prefix));
        assert(after =~= used);
    }
}

proof fn lemma_fields_stay_known(
    names: Names,
    before: Seq<(Seq<char>, Seq<char>)>,
    after: Seq<(Seq<char>, Seq<char>)>,
    fields: Seq<(Seq<char>, NodeView)>,
)
    requires
        knows_more(names, before, after),
        knows_fields(names, before, fields),
    ensures
        knows_fields(names, after, fields),
    decreases fields,
{
    assert forall|i: int| 0 <= i < fields.len() implies (resolve(
        names,
        (#[trigger] fields[i]).0,
    ) matches Some(property) ==> knows(names, after, property.uri)) && knows_node(
        names,
        after,
        fields[i].1,
    ) by {
        lemma_node_stays_known(names, before, after, fields[i].1);
    }
}

proof fn lemma_node_stays_known(
    names: Names,
    before: Seq<(Seq<char>, Seq<char>)>,
    after: Seq<(Seq<char>, Seq<char>)>,
    node: NodeView,
)
    requires
        knows_more(names, before, after),
        knows_node(names, before, node),
    ensures
        knows_node(names, after, node),
    decreases node,
{
    match node {
        NodeView::Simple(_) => {},
        NodeView::Array(_, items) => {
            assert forall|i: int| 0 <= i < items.len() implies knows_node(
                names,
                after,
                #[trigger] items[i],
            ) by {
                lemma_node_stays_known(names, before, after, items[i]);
            }
        },
        NodeView::Structure(fields) => {
            lemma_fields_stay_known(names, before, after, fields);
        },
    }
}

proof fn lemma_fields_known(
    names: Names,
    fields: Seq<(Seq<char>, NodeView)>,
    used: Seq<(Seq<char>, Seq<char>)>,
)
    ensures
        knows_more(names, used, fields_namespaces(names, fields, used)),
        knows_fields(names, fields_namespaces(names, fields, used), fields),
    decreases fields,
{
    if fields.len() > 0 {
        let rest = fields.drop_last();
        let (path, node) = fields.last();
        let before = fields_namespaces(names, rest, used);
        let own = match resolve(names, path) {
            Some(property) => put(before, property.uri, property.prefix),
            None => before,
        };
        let after = fields_namespaces(names, fields, used);
        lemma_fields_known(names, rest, used);
        if let Some(property) = resolve(names, path) {
            lemma_put_knows(names, before, property.uri, property.prefix);
        }
        lemma_node_known(names, node, own);
        assert(knows_more(names, before, after));
        lemma_fields_stay_known(names, before, after, rest);
        assert forall|i: int| 0 <= i < fields.len() implies (resolve(
            names,
            (#[trigger] fields[i]).0,
        ) matches Some(property) ==> knows(names, after, property.uri)) && knows_node(
            names,
            after,
            fields[i].1,
        ) by {
            if i < rest.len() {
                assert(rest[i] == fields[i]);
            }
        }
    }
}

proof fn lemma_items_known(
    names: Names,
    items: Seq<NodeView>,
    used: Seq<(Seq<char>, Seq<char>)>,
)
    ensures
        knows_more(names, used, items_namespaces(names, items, used)),
        forall|i: int|
            0 <= i < items.len() ==> knows_node(
                names,
                items_namespaces(names, items, used),
                #[trigger] items[i],
            ),
    decreases items,
{
    if items.len() > 0 {
        let rest = items.drop_last();
        let before = items_namespaces(names, rest, used);
        let after = items_namespaces(names, items, used);
        lemma_items_known(names, rest, used);
        lemma_node_known(names, items.last(), before);
        assert forall|i: int| 0 <= i < items.len() implies knows_node(
            names,
            after,
            #[trigger] items[i],
        ) by {
            if i < rest.len() {
                assert(rest[i] == items[i]);
                lemma_node_stays_known(names, before, after, rest[i]);
            }
        }
    }
}

proof fn lemma_node_known(names: Names, node: NodeView, used: Seq<(Seq<char>, Seq<char>)>)
    ensures
        knows_more(names, used, node_namespaces(names, node, used)),
        knows_node(names, node_namespaces(names, node, used), node),
    decreases node,
{
    match node {
        NodeView::Simple(_) => {},
        NodeView::Array(_, items) => {
            lemma_items_known(names, items, used);
        },
        NodeView::Structure(fields) => {
            lemma_fields_known(names, fields, used);
        },
    }
}

proof fn lemma_fields_unchanged(
    names: Names,
    fields: Seq<(Seq<char>, NodeView)>,
    used: Seq<(Seq<char>, Seq<char>)>,
)
    requires
        knows_fields(names, used, fields),
    ensures
        fields_namespaces(names, fields, used) == used,
    decreases fields,
{
    if fields.len() > 0 {
        let rest = fields.drop_last();
        let (path, node) = fields.last();
        assert(fields[fields.len() - 1] == fields.last());
        assert forall|i: int| 0 <= i < rest.len() implies (resolve(
            names,
            (#[trigger] rest[i]).0,
        ) matches Some(property) ==> knows(names, used, property.uri)) && knows_node(
            names,
            used,
            rest[i].1,
        ) by {
            assert(rest[i] == fields[i]);
        }
        lemma_fields_unchanged(names, rest, used);
        if let Some(property) = resolve(names, path) {
            lemma_put_knows(names, used, property.uri, property.prefix);
        }
        lemma_node_unchanged(names, node, used);
    }
}

proof fn lemma_items_unchanged(
    names: Names,
    items: Seq<NodeView>,
    used: Seq<(Seq<char>, Seq<char>)>,
)
    requires
        forall|i: int| 0 <= i < items.len() ==> knows_node(names, used, #[trigger] items[i]),
    ensures
        items_namespaces(names, items, used) == used,
    decreases items,
{
    if items.len() > 0 {
        let rest = items.drop_last();
        assert(items[items.len() - 1] == items.last());
        assert forall|i: int| 0 <= i < rest.len() implies knows_node(
            names,
            used,
            #[trigger] rest[i],
        ) by {
            assert(rest[i] == items[i]);
        }
        lemma_items_unchanged(names, rest, used);
        lemma_node_unchanged(names, items.last(), used);
    }
}

proof fn lemma_node_unchanged(names: Names, node: NodeView, used: Seq<(Seq<char>, Seq<char>)>)
    requires
        knows_node(names, used, node),
    ensures
        node_namespaces(names, node, used) == used,
    decreases node,
{
    match node {
        NodeView::Simple(_) => {},
        NodeView::Array(_, items) => {
            lemma_items_unchanged(names, items, used);
        },
        NodeView::Structure(fields) => {
            lemma_fields_unchanged(names, fields, used);
        },
    }
}

/// Collecting the namespaces of a node a second time changes nothing, not even their
/// order.
pub proof fn law_collecting_again_changes_nothing(
    names: Names,
    node: NodeView,
    used: Seq<(Seq<char>, Seq<char>)>,
)
    ensures
        node_namespaces(names, node, node_namespaces(names, node, used)) == node_namespaces(
            names,
            node,
            used,
        ),
{
    lemma_node_known(names, node, used);
    lemma_node_unchanged(names, node, node_namespaces(names, node, used));
}

/// A text uses no namespace, whatever its qualifiers.
pub proof fn law_texts_use_no_namespace(
    names: Names,
    simple: SimpleView,
    used: Seq<(Seq<char>, Seq<char>)>,
)
    ensures
        node_namespaces(names, NodeView::Simple(simple), used) == used,
{
}

/// The namespaces of fields are collected in the order of the fields.
pub proof fn law_fields_collected_in_order(
    names: Names,
    earlier: Seq<(Seq<char>, NodeView)>,
    later: Seq<(Seq<char>, NodeView)>,
    used: Seq<(Seq<char>, Seq<char>)>,
)
    ensures
        fields_namespaces(names, earlier + later, used) == fields_namespaces(
            names,
            later,
            fields_namespaces(names, earlier, used),
        ),
    decreases later.len(),
{
    let all = earlier + later;
    if later.len() == 0 {
        assert(all =~= earlier);
    } else {
        assert(all.drop_last() =~= earlier + later.drop_last());
        assert(all.last() == later.last());
        law_fields_collected_in_order(names, earlier, later.drop_last(), used);
    }
}

/// A field adds its own namespace with its prefix, where it has one, and then those of what
/// is in it: at the end where the namespace is new, else in the place where it stands.
pub proof fn law_field_adds_its_namespace(
    names: Names,
    path: Seq<char>,
    node: NodeView,
    used: Seq<(Seq<char>, Seq<char>)>,
)
    ensures
        ({
            let after = fields_namespaces(names, seq![(path, node)], used);
            &&& resolve(names, path) is None ==> after == node_namespaces(names, node, used)
            &&& resolve(names, path) matches Some(property) ==> {
                &&& (forall|i: int| 0 <= i < used.len() ==> (#[trigger] used[i]).0 != property.uri)
                    ==> after == node_namespaces(
                    names,
                    node,
                    used + seq![(property.uri, property.prefix)],
                )
                &&& forall|k: int|
                    0 <= k < used.len() && (#[trigger] used[k]).0 == property.uri && (forall|i: int|
                        0 <= i < k ==> (#[trigger] used[i]).0 != property.uri) ==> after
                        == node_namespaces(
                        names,
                        node,
                        used.update(k, (property.uri, property.prefix)),
                    )
            }
        }),
{
    let fields = seq![(path, node)];
    assert(fields.drop_last() =~= Seq::<(Seq<char>, NodeView)>::empty());
    assert(fields.last() == (path, node));
    assert(fields_namespaces(names, fields.drop_last(), used) == used);
    if let Some(property) = resolve(names, path) {
        let uri = property.uri;
        lemma_position(used, uri);
        assert(used.push((uri, property.prefix)) =~= used + seq![(uri, property.prefix)]);
        assert forall|k: int|
            0 <= k < used.len() && (#[trigger] used[k]).0 == uri && (forall|i: int|
                0 <= i < k ==> (#[trigger] used[i]).0 != uri) implies put(
            used,
            uri,
            property.prefix,
        ) == used.update(k, (uri, property.prefix)) by {
            lemma_position_found(used, uri, k);
        }
    }
}

/// The namespaces of an array are those of its items, in their order.
pub proof fn law_items_collected_in_order(
    names: Names,
    array_type: ArrayType,
    items: Seq<NodeView>,
    item: NodeView,
    used: Seq<(Seq<char>, Seq<char>)>,
)
    ensures
        node_namespaces(names, NodeView::Array(array_type, Seq::empty()), used) == used,
        node_namespaces(names, NodeView::Array(array_type, items.push(item)), used)
            == node_namespaces(
            names,
            item,
            node_namespaces(names, NodeView::Array(array_type, items), used),
        ),
{
    assert(items.push(item).drop_last() =~= items);
    assert(items_namespaces(names, Seq::<NodeView>::empty(), used) == used);
}

/// The namespaces of a structure are those of its fields.
pub proof fn law_structure_collects_its_fields(
    names: Names,
    fields: Seq<(Seq<char>, NodeView)>,
    used: Seq<(Seq<char>, Seq<char>)>,
)
    ensures
        node_namespaces(names, NodeView::Structure(fields), used) == fields_namespaces(
            names,
            fields,
            used,
        ),
        fields_namespaces(names, Seq::empty(), used) == used,
{
}

/// A document declares five namespaces, and then those that are collected from the tree and
/// are not among the five, in their order, each with its prefix.
pub proof fn law_declarations(names: Names, fields: Seq<(Seq<char>, NodeView)>)
    ensures
        declarations(names, fields) == seq![
            ("xmlns:rdf"@, "http://www.w3.org/1999/02/22-rdf-syntax-ns#"@),
            ("xmlns:xmp"@, "http://ns.adobe.com/xap/1.0/"@),
            ("xmlns:dc"@, "http://purl.org/dc/elements/1.1/"@),
            ("xmlns:exif"@, "http://ns.adobe.com/exif/1.0/"@),
            ("xmlns:xml"@, "http://www.w3.org/XML/1998/namespace"@),
        ] + fields_namespaces(names, fields, Seq::empty()).filter(
            |e: (Seq<char>, Seq<char>)|
                e.0 != "http://www.w3.org/1999/02/22-rdf-syntax-ns#"@ && e.0
                    != "http://ns.adobe.com/xap/1.0/"@ && e.0
                    != "http://purl.org/dc/elements/1.1/"@ && e.0
                    != "http://ns.adobe.com/exif/1.0/"@ && e.0
                    != "http://www.w3.org/XML/1998/namespace"@,
        ).map_values(|e: (Seq<char>, Seq<char>)| ("xmlns:"@ + e.1, e.0)),
{
    lemma_more_declarations(fields_namespaces(names, fields, Seq::empty()));
}

proof fn lemma_more_declarations(used: Seq<(Seq<char>, Seq<char>)>)
    ensures
        more_declarations(used) == used.filter(
            |e: (Seq<char>, Seq<char>)|
                e.0 != "http://www.w3.org/1999/02/22-rdf-syntax-ns#"@ && e.0
                    != "http://ns.adobe.com/xap/1.0/"@ && e.0
                    != "http://purl.org/dc/elements/1.1/"@ && e.0
                    != "http://ns.adobe.com/exif/1.0/"@ && e.0
                    != "http://www.w3.org/XML/1998/namespace"@,
        ).map_values(|e: (Seq<char>, Seq<char>)| ("xmlns:"@ + e.1, e.0)),
    decreases used.len(),
{
    reveal(Seq::filter);
    if used.len() > 0 {
        lemma_more_declarations(used.drop_last());
    }
    let more = |e: (Seq<char>, Seq<char>)|
        e.0 != "http://www.w3.org/1999/02/22-rdf-syntax-ns#"@ && e.0
            != "http://ns.adobe.com/xap/1.0/"@ && e.0 != "http://purl.org/dc/elements/1.1/"@ && e.0
            != "http://ns.adobe.com/exif/1.0/"@ && e.0 != "http://www.w3.org/XML/1998/namespace"@;
    let written = |e: (Seq<char>, Seq<char>)| ("xmlns:"@ + e.1, e.0);
    assert(more_declarations(used) =~= used.filter(more).map_values(written));
}

} // verus!
