//! Names stand in declared namespaces, where the standard prefixes are kept.
use crate::markup::Markup;
use crate::namespace::standard_namespaces;
use crate::node::{NodeView, QualifierView};
use crate::ns;
use crate::ordered::{distinct_keys, has_key, lemma_position, lemma_put_distinct, position, put};
use crate::path::{resolve, Names, Property};
use crate::rdf::{always_declared, attributes, container, declarations, description_attributes};
use crate::rdf::{description_outcome, elements_outcome, fields_namespaces};
use crate::rdf::{fixed_declarations, is_element, item_outcome, items_namespaces, items_outcome};
use crate::rdf::{language_attributes, more_declarations, node_namespaces, node_outcome};
use crate::rdf::{used_namespaces, Outcome};
use vstd::prelude::*;

verus! {

/// Whether some declarations bind a property's prefix to its namespace.
pub open spec fn declares(decls: Seq<(Seq<char>, Seq<char>)>, property: Property) -> bool {
    decls.contains(("xmlns:"@ + property.prefix, property.uri))
}

/// Whether some declarations bind the prefixes of all properties among some fields and in
/// them.
pub open spec fn declares_fields(
    decls: Seq<(Seq<char>, Seq<char>)>,
    names: Names,
    fields: Seq<(Seq<char>, NodeView)>,
) -> bool
    decreases fields,
{
    forall|i: int|
        0 <= i < fields.len() ==> (resolve(names, (#[trigger] fields[i]).0) matches Some(property)
            ==> declares(decls, property)) && declares_node(decls, names, fields[i].1)
}

/// Whether some declarations bind the prefixes of all properties in a node.
pub open spec fn declares_node(
    decls: Seq<(Seq<char>, Seq<char>)>,
    names: Names,
    node: NodeView,
) -> bool
    decreases node,
{
    match node {
        NodeView::Simple(_) => true,
        NodeView::Array(_, items) => forall|i: int|
            0 <= i < items.len() ==> declares_node(decls, names, #[trigger] items[i]),
        NodeView::Structure(fields) => declares_fields(decls, names, fields),
    }
}

/// Whether the namespaces in use that every document declares have the prefixes that they
/// are declared with.
pub open spec fn keeps_standard_prefixes(
    names: Names,
    fields: Seq<(Seq<char>, NodeView)>,
) -> bool {
    forall|i: int|
        0 <= i < used_namespaces(names, fields).len() && always_declared(
            (#[trigger] used_namespaces(names, fields)[i]).0,
        ) ==> fixed_declarations().contains(
            (
                "xmlns:"@ + used_namespaces(names, fields)[i].1,
                used_namespaces(names, fields)[i].0,
            ),
        )
}

/// Whether the namespaces in a list have the prefixes that the list gives them.
spec fn agrees(names: Names, used: Seq<(Seq<char>, Seq<char>)>) -> bool {
    forall|i: int|
        0 <= i < used.len() ==> names.prefix((#[trigger] used[i]).0) == Some(used[i].1)
}

/// Whether all that is in one list is in another.
spec fn within(a: Seq<(Seq<char>, Seq<char>)>, b: Seq<(Seq<char>, Seq<char>)>) -> bool {
    forall|i: int| 0 <= i < a.len() ==> b.contains(#[trigger] a[i])
}

/// Whether every namespace in a list is declared.
spec fn declared(
    decls: Seq<(Seq<char>, Seq<char>)>,
    used: Seq<(Seq<char>, Seq<char>)>,
) -> bool {
    forall|i: int|
        0 <= i < used.len() ==> decls.contains(("xmlns:"@ + (#[trigger] used[i]).1, used[i].0))
}

proof fn lemma_within(
    a: Seq<(Seq<char>, Seq<char>)>,
    b: Seq<(Seq<char>, Seq<char>)>,
    c: Seq<(Seq<char>, Seq<char>)>,
)
    requires
        within(a, b),
        within(b, c),
    ensures
        within(a, c),
{
    assert forall|i: int| 0 <= i < a.len() implies c.contains(#[trigger] a[i]) by {
        let j = choose|j: int| 0 <= j < b.len() && b[j] == a[i];
        assert(c.contains(b[j]));
    }
}

proof fn lemma_declared_within(
    decls: Seq<(Seq<char>, Seq<char>)>,
    a: Seq<(Seq<char>, Seq<char>)>,
    b: Seq<(Seq<char>, Seq<char>)>,
)
    requires
        within(a, b),
        declared(decls, b),
    ensures
        declared(decls, a),
{
    assert forall|i: int| 0 <= i < a.len() implies decls.contains(
        ("xmlns:"@ + (#[trigger] a[i]).1, a[i].0),
    ) by {
        let j = choose|j: int| 0 <= j < b.len() && b[j] == a[i];
        assert(decls.contains(("xmlns:"@ + b[j].1, b[j].0)));
    }
}

/// Putting a namespace with its prefix into a list that agrees takes nothing away.
proof fn lemma_put_agrees(names: Names, used: Seq<(Seq<char>, Seq<char>)>, uri: Seq<char>)
    requires
        agrees(names, used),
        names.prefix(uri) is Some,
    ensures
        agrees(names, put(used, uri, names.prefix(uri)->0)),
        within(used, put(used, uri, names.prefix(uri)->0)),
        put(used, uri, names.prefix(uri)->0).contains((uri, names.prefix(uri)->0)),
{
    let prefix = names.prefix(uri)->0;
    let after = put(used, uri, prefix);
    lemma_position(used, uri);
    let p = position(used, uri);
    if has_key(used, uri) {
        assert(used[p] == (uri, prefix));
        assert(after =~= used);
    } else {
        assert(after[used.len() as int] == (uri, prefix));
        assert forall|i: int| 0 <= i < used.len() implies after.contains(#[trigger] used[i]) by {
            assert(after[i] == used[i]);
        }
    }
    assert(after[p] == (uri, prefix));
}

proof fn lemma_fields_declared(
    names: Names,
    fields: Seq<(Seq<char>, NodeView)>,
    used: Seq<(Seq<char>, Seq<char>)>,
    decls: Seq<(Seq<char>, Seq<char>)>,
)
    requires
        agrees(names, used),
    ensures
        agrees(names, fields_namespaces(names, fields, used)),
        within(used, fields_namespaces(names, fields, used)),
        declared(decls, fields_namespaces(names, fields, used)) ==> declares_fields(
            decls,
            names,
            fields,
        ),
    decreases fields,
{
    let after = fields_namespaces(names, fields, used);
    if fields.len() == 0 {
        assert forall|i: int| 0 <= i < used.len() implies used.contains(#[trigger] used[i]) by {}
    } else {
        let rest = fields.drop_last();
        let (path, node) = fields.last();
        let before = fields_namespaces(names, rest, used);
        lemma_fields_declared(names, rest, used, decls);
        let own = match resolve(names, path) {
            Some(property) => put(before, property.uri, property.prefix),
            None => before,
        };
        match resolve(names, path) {
            Some(property) => {
                lemma_put_agrees(names, before, property.uri);
            },
            None => {
                assert forall|i: int| 0 <= i < before.len() implies own.contains(
                    #[trigger] before[i],
                ) by {}
            },
        }
        lemma_node_declared(names, node, own, decls);
        lemma_within(used, before, own);
        lemma_within(used, own, after);
        if declared(decls, after) {
            lemma_declared_within(decls, own, after);
            lemma_declared_within(decls, before, own);
            if let Some(property) = resolve(names, path) {
                let j = choose|j: int|
                    0 <= j < own.len() && own[j] == (property.uri, property.prefix);
                assert(decls.contains(("xmlns:"@ + own[j].1, own[j].0)));
            }
            assert forall|i: int| 0 <= i < fields.len() implies (resolve(
                names,
                (#[trigger] fields[i]).0,
            ) matches Some(property) ==> declares(decls, property)) && declares_node(
                decls,
                names,
                fields[i].1,
            ) by {
                if i < rest.len() {
                    assert(fields[i] == rest[i]);
                }
            }
        }
    }
}

proof fn lemma_items_declared(
    names: Names,
    items: Seq<NodeView>,
    used: Seq<(Seq<char>, Seq<char>)>,
    decls: Seq<(Seq<char>, Seq<char>)>,
)
    requires
        agrees(names, used),
    ensures
        agrees(names, items_namespaces(names, items, used)),
        within(used, items_namespaces(names, items, used)),
        declared(decls, items_namespaces(names, items, used)) ==> forall|i: int|
            0 <= i < items.len() ==> declares_node(decls, names, #[trigger] items[i]),
    decreases items,
{
    let after = items_namespaces(names, items, used);
    if items.len() == 0 {
        assert forall|i: int| 0 <= i < used.len() implies used.contains(#[trigger] used[i]) by {}
    } else {
        let rest = items.drop_last();
        let before = items_namespaces(names, rest, used);
        lemma_items_declared(names, rest, used, decls);
        lemma_node_declared(names, items.last(), before, decls);
        lemma_within(used, before, after);
        if declared(decls, after) {
            lemma_declared_within(decls, before, after);
            assert forall|i: int| 0 <= i < items.len() implies declares_node(
                decls,
                names,
                #[trigger] items[i],
            ) by {
                if i < rest.len() {
                    assert(items[i] == rest[i]);
                }
            }
        }
    }
}

proof fn lemma_node_declared(
    names: Names,
    node: NodeView,
    used: Seq<(Seq<char>, Seq<char>)>,
    decls: Seq<(Seq<char>, Seq<char>)>,
)
    requires
        agrees(names, used),
    ensures
        agrees(names, node_namespaces(names, node, used)),
        within(used, node_namespaces(names, node, used)),
        declared(decls, node_namespaces(names, node, used)) ==> declares_node(decls, names, node),
    decreases node,
{
    match node {
        NodeView::Simple(_) => {
            assert forall|i: int| 0 <= i < used.len() implies used.contains(#[trigger] used[i]) by {
            }
        },
        NodeView::Array(_, items) => {
            lemma_items_declared(names, items, used, decls);
        },
        NodeView::Structure(fields) => {
            lemma_fields_declared(names, fields, used, decls);
        },
    }
}

proof fn lemma_more_declared(used: Seq<(Seq<char>, Seq<char>)>, i: int)
    requires
        0 <= i < used.len(),
        !always_declared(used[i].0),
    ensures
        more_declarations(used).contains(("xmlns:"@ + used[i].1, used[i].0)),
    decreases used.len(),
{
    let rest = used.drop_last();
    let before = more_declarations(rest);
    let after = more_declarations(used);
    let entry = ("xmlns:"@ + used[i].1, used[i].0);
    if i < rest.len() {
        assert(rest[i] == used[i]);
        lemma_more_declared(rest, i);
        let j = choose|j: int| 0 <= j < before.len() && before[j] == entry;
        assert(after[j] == entry);
    } else {
        assert(after[before.len() as int] == entry);
    }
}

/// The prefixes of the declarations that every document has.
proof fn lemma_fixed_prefixes()
    ensures
        "xmlns:rdf"@ == "xmlns:"@ + "rdf"@,
        "xmlns:xmp"@ == "xmlns:"@ + "xmp"@,
        "xmlns:dc"@ == "xmlns:"@ + "dc"@,
        "xmlns:exif"@ == "xmlns:"@ + "exif"@,
        "xmlns:xml"@ == "xmlns:"@ + "xml"@,
{
    reveal_strlit("xmlns:");
    reveal_strlit("rdf");
    reveal_strlit("xmp");
    reveal_strlit("dc");
    reveal_strlit("exif");
    reveal_strlit("xml");
    reveal_strlit("xmlns:rdf");
    reveal_strlit("xmlns:xmp");
    reveal_strlit("xmlns:dc");
    reveal_strlit("xmlns:exif");
    reveal_strlit("xmlns:xml");
    assert("xmlns:rdf"@ =~= "xmlns:"@ + "rdf"@);
    assert("xmlns:xmp"@ =~= "xmlns:"@ + "xmp"@);
    assert("xmlns:dc"@ =~= "xmlns:"@ + "dc"@);
    assert("xmlns:exif"@ =~= "xmlns:"@ + "exif"@);
    assert("xmlns:xml"@ =~= "xmlns:"@ + "xml"@);
}

/// A document that keeps the standard prefixes declares the namespace of every property in
/// it, at any depth, with the prefix that the property is written with.
pub proof fn law_namespaces_declared(names: Names, fields: Seq<(Seq<char>, NodeView)>)
    requires
        keeps_standard_prefixes(names, fields),
    ensures
        declares_fields(declarations(names, fields), names, fields),
{
    let used = used_namespaces(names, fields);
    let fixed = fixed_declarations();
    let more = more_declarations(used);
    let decls = declarations(names, fields);
    lemma_fields_declared(names, fields, Seq::empty(), decls);
    assert forall|i: int| 0 <= i < used.len() implies decls.contains(
        ("xmlns:"@ + (#[trigger] used[i]).1, used[i].0),
    ) by {
        let entry = ("xmlns:"@ + used[i].1, used[i].0);
        if always_declared(used[i].0) {
            let k = choose|k: int| 0 <= k < fixed.len() && fixed[k] == entry;
            assert(decls[k] == entry);
        } else {
            lemma_more_declared(used, i);
            let j = choose|j: int| 0 <= j < more.len() && more[j] == entry;
            assert(decls[fixed.len() + j] == entry);
        }
    }
}

/// Whether `name` is `prefix`, a colon and `local`, and the prefix is bound to `uri`.
pub open spec fn stands_for(
    decls: Seq<(Seq<char>, Seq<char>)>,
    name: Seq<char>,
    prefix: Seq<char>,
    local: Seq<char>,
    uri: Seq<char>,
) -> bool {
    name == prefix + ":"@ + local && decls.contains(("xmlns:"@ + prefix, uri))
}

/// Whether a name is in a declared namespace.
pub open spec fn in_scope(decls: Seq<(Seq<char>, Seq<char>)>, name: Seq<char>) -> bool {
    exists|prefix: Seq<char>, local: Seq<char>, uri: Seq<char>|
        stands_for(decls, name, prefix, local, uri)
}

/// Whether the names of some attributes are in declared namespaces.
pub open spec fn attributes_in_scope(
    decls: Seq<(Seq<char>, Seq<char>)>,
    attributes: Seq<(Seq<char>, Seq<char>)>,
) -> bool {
    forall|i: int| 0 <= i < attributes.len() ==> in_scope(decls, (#[trigger] attributes[i]).0)
}

/// Whether the names in a piece are in declared namespaces.
pub open spec fn piece_in_scope(decls: Seq<(Seq<char>, Seq<char>)>, piece: Markup) -> bool {
    match piece {
        Markup::Start(tag) => in_scope(decls, tag.name) && attributes_in_scope(
            decls,
            tag.attributes,
        ),
        Markup::Empty(tag) => in_scope(decls, tag.name) && attributes_in_scope(
            decls,
            tag.attributes,
        ),
        Markup::Text(_) => true,
        Markup::End(name) => in_scope(decls, name),
    }
}

/// Whether the names in some pieces are in declared namespaces.
pub open spec fn pieces_in_scope(decls: Seq<(Seq<char>, Seq<char>)>, pieces: Seq<Markup>) -> bool {
    forall|i: int| 0 <= i < pieces.len() ==> piece_in_scope(decls, #[trigger] pieces[i])
}

/// Whether the namespaces of the names that every document uses are declared.
spec fn declares_fixed(decls: Seq<(Seq<char>, Seq<char>)>) -> bool {
    decls.contains(("xmlns:rdf"@, ns::RDF@)) && decls.contains(("xmlns:xml"@, ns::XML@))
}

/// The names that every document uses are in declared namespaces.
proof fn lemma_fixed_names(decls: Seq<(Seq<char>, Seq<char>)>)
    requires
        declares_fixed(decls),
    ensures
        in_scope(decls, "rdf:li"@),
        in_scope(decls, "rdf:Description"@),
        in_scope(decls, "rdf:about"@),
        in_scope(decls, "rdf:Seq"@),
        in_scope(decls, "rdf:Bag"@),
        in_scope(decls, "rdf:Alt"@),
        in_scope(decls, "xml:lang"@),
{
    lemma_fixed_prefixes();
    reveal_strlit(":");
    reveal_strlit("rdf");
    reveal_strlit("xml");
    reveal_strlit("li");
    reveal_strlit("Description");
    reveal_strlit("about");
    reveal_strlit("Seq");
    reveal_strlit("Bag");
    reveal_strlit("Alt");
    reveal_strlit("lang");
    reveal_strlit("rdf:li");
    reveal_strlit("rdf:Description");
    reveal_strlit("rdf:about");
    reveal_strlit("rdf:Seq");
    reveal_strlit("rdf:Bag");
    reveal_strlit("rdf:Alt");
    reveal_strlit("xml:lang");
    assert("rdf:li"@ =~= "rdf"@ + ":"@ + "li"@);
    assert("rdf:Description"@ =~= "rdf"@ + ":"@ + "Description"@);
    assert("rdf:about"@ =~= "rdf"@ + ":"@ + "about"@);
    assert("rdf:Seq"@ =~= "rdf"@ + ":"@ + "Seq"@);
    assert("rdf:Bag"@ =~= "rdf"@ + ":"@ + "Bag"@);
    assert("rdf:Alt"@ =~= "rdf"@ + ":"@ + "Alt"@);
    assert("xml:lang"@ =~= "xml"@ + ":"@ + "lang"@);
    assert(stands_for(decls, "rdf:li"@, "rdf"@, "li"@, ns::RDF@));
    assert(stands_for(decls, "rdf:Description"@, "rdf"@, "Description"@, ns::RDF@));
    assert(stands_for(decls, "rdf:about"@, "rdf"@, "about"@, ns::RDF@));
    assert(stands_for(decls, "rdf:Seq"@, "rdf"@, "Seq"@, ns::RDF@));
    assert(stands_for(decls, "rdf:Bag"@, "rdf"@, "Bag"@, ns::RDF@));
    assert(stands_for(decls, "rdf:Alt"@, "rdf"@, "Alt"@, ns::RDF@));
    assert(stands_for(decls, "xml:lang"@, "xml"@, "lang"@, ns::XML@));
}

proof fn lemma_property_in_scope(decls: Seq<(Seq<char>, Seq<char>)>, property: Property)
    requires
        declares(decls, property),
    ensures
        in_scope(decls, property.qualified()),
{
    assert(stands_for(
        decls,
        property.qualified(),
        property.prefix,
        property.name,
        property.uri,
    ));
}

proof fn lemma_languages_in_scope(
    decls: Seq<(Seq<char>, Seq<char>)>,
    qualifiers: Seq<QualifierView>,
)
    requires
        declares_fixed(decls),
    ensures
        attributes_in_scope(decls, language_attributes(qualifiers)),
    decreases qualifiers.len(),
{
    if qualifiers.len() > 0 {
        lemma_languages_in_scope(decls, qualifiers.drop_last());
        lemma_fixed_names(decls);
    }
}

proof fn lemma_attributes_in_scope(
    decls: Seq<(Seq<char>, Seq<char>)>,
    names: Names,
    fields: Seq<(Seq<char>, NodeView)>,
)
    requires
        declares_fields(decls, names, fields),
    ensures
        attributes_in_scope(decls, attributes(names, fields)),
    decreases fields.len(),
{
    if fields.len() > 0 {
        lemma_rest_declared(decls, names, fields);
        lemma_attributes_in_scope(decls, names, fields.drop_last());
        if let Some(property) = resolve(names, fields.last().0) {
            lemma_property_in_scope(decls, property);
        }
    }
}

/// What is declared for all fields is declared for all but the last, and for the last.
proof fn lemma_rest_declared(
    decls: Seq<(Seq<char>, Seq<char>)>,
    names: Names,
    fields: Seq<(Seq<char>, NodeView)>,
)
    requires
        declares_fields(decls, names, fields),
        fields.len() > 0,
    ensures
        declares_fields(decls, names, fields.drop_last()),
        resolve(names, fields.last().0) matches Some(property) ==> declares(decls, property),
        declares_node(decls, names, fields.last().1),
{
    let rest = fields.drop_last();
    assert forall|i: int| 0 <= i < rest.len() implies (resolve(
        names,
        (#[trigger] rest[i]).0,
    ) matches Some(property) ==> declares(decls, property)) && declares_node(
        decls,
        names,
        rest[i].1,
    ) by {
        assert(rest[i] == fields[i]);
    }
    assert(fields[fields.len() - 1] == fields.last());
}

proof fn lemma_then_write_in_scope(decls: Seq<(Seq<char>, Seq<char>)>, a: Outcome, b: Outcome)
    requires
        pieces_in_scope(decls, a.pieces),
        pieces_in_scope(decls, b.pieces),
    ensures
        pieces_in_scope(decls, a.then_write(b).pieces),
{
}

proof fn lemma_elements_in_scope(
    decls: Seq<(Seq<char>, Seq<char>)>,
    names: Names,
    fields: Seq<(Seq<char>, NodeView)>,
)
    requires
        declares_fixed(decls),
        declares_fields(decls, names, fields),
    ensures
        pieces_in_scope(decls, elements_outcome(names, fields).pieces),
    decreases fields,
{
    if fields.len() > 0 {
        let (path, node) = fields.last();
        lemma_rest_declared(decls, names, fields);
        lemma_elements_in_scope(decls, names, fields.drop_last());
        if is_element(node) {
            lemma_node_in_scope(decls, names, path, node);
            lemma_then_write_in_scope(
                decls,
                elements_outcome(names, fields.drop_last()),
                node_outcome(names, path, node),
            );
        }
    }
}

proof fn lemma_items_in_scope(
    decls: Seq<(Seq<char>, Seq<char>)>,
    names: Names,
    items: Seq<NodeView>,
)
    requires
        declares_fixed(decls),
        forall|i: int| 0 <= i < items.len() ==> declares_node(decls, names, #[trigger] items[i]),
    ensures
        pieces_in_scope(decls, items_outcome(names, items).pieces),
    decreases items,
{
    if items.len() > 0 {
        let rest = items.drop_last();
        assert forall|i: int| 0 <= i < rest.len() implies declares_node(
            decls,
            names,
            #[trigger] rest[i],
        ) by {
            assert(rest[i] == items[i]);
        }
        assert(items[items.len() - 1] == items.last());
        lemma_items_in_scope(decls, names, rest);
        lemma_item_in_scope(decls, names, items.last());
        lemma_then_write_in_scope(
            decls,
            items_outcome(names, rest),
            item_outcome(names, items.last()),
        );
    }
}

proof fn lemma_item_in_scope(decls: Seq<(Seq<char>, Seq<char>)>, names: Names, item: NodeView)
    requires
        declares_fixed(decls),
        declares_node(decls, names, item),
    ensures
        pieces_in_scope(decls, item_outcome(names, item).pieces),
    decreases item,
{
    lemma_fixed_names(decls);
    match item {
        NodeView::Simple(simple) => {
            lemma_languages_in_scope(decls, simple.qualifiers);
        },
        NodeView::Structure(fields) => {
            lemma_attributes_in_scope(decls, names, fields);
            lemma_elements_in_scope(decls, names, fields);
        },
        NodeView::Array(_, _) => {},
    }
}

proof fn lemma_node_in_scope(
    decls: Seq<(Seq<char>, Seq<char>)>,
    names: Names,
    path: Seq<char>,
    node: NodeView,
)
    requires
        declares_fixed(decls),
        declares_node(decls, names, node),
        resolve(names, path) matches Some(property) ==> declares(decls, property),
    ensures
        pieces_in_scope(decls, node_outcome(names, path, node).pieces),
    decreases node,
{
    lemma_fixed_names(decls);
    if let Some(property) = resolve(names, path) {
        lemma_property_in_scope(decls, property);
        match node {
            NodeView::Simple(simple) => {
                lemma_languages_in_scope(decls, simple.qualifiers);
            },
            NodeView::Array(array_type, items) => {
                assert(in_scope(decls, container(array_type)));
                lemma_items_in_scope(decls, names, items);
            },
            NodeView::Structure(fields) => {
                lemma_attributes_in_scope(decls, names, fields);
                lemma_elements_in_scope(decls, names, fields);
            },
        }
    }
}

/// In what a document that keeps the standard prefixes says of the resource, every name of
/// an element or an attribute is in a namespace that the document declares.
pub proof fn law_names_in_scope(names: Names, fields: Seq<(Seq<char>, NodeView)>)
    requires
        keeps_standard_prefixes(names, fields),
    ensures
        pieces_in_scope(declarations(names, fields), description_outcome(names, fields).pieces),
{
    let decls = declarations(names, fields);
    assert(decls[0] == ("xmlns:rdf"@, ns::RDF@));
    assert(decls[4] == ("xmlns:xml"@, ns::XML@));
    law_namespaces_declared(names, fields);
    lemma_fixed_names(decls);
    lemma_attributes_in_scope(decls, names, fields);
    lemma_elements_in_scope(decls, names, fields);
    assert(attributes_in_scope(decls, description_attributes(names, fields)));
}

proof fn lemma_fields_distinct(
    names: Names,
    fields: Seq<(Seq<char>, NodeView)>,
    used: Seq<(Seq<char>, Seq<char>)>,
)
    requires
        distinct_keys(used),
    ensures
        distinct_keys(fields_namespaces(names, fields, used)),
    decreases fields,
{
    if fields.len() > 0 {
        let (path, node) = fields.last();
        let before = fields_namespaces(names, fields.drop_last(), used);
        lemma_fields_distinct(names, fields.drop_last(), used);
        match resolve(names, path) {
            Some(property) => {
                lemma_put_distinct(before, property.uri, property.prefix);
                lemma_node_distinct(names, node, put(before, property.uri, property.prefix));
            },
            None => {
                lemma_node_distinct(names, node, before);
            },
        }
    }
}

proof fn lemma_items_distinct(
    names: Names,
    items: Seq<NodeView>,
    used: Seq<(Seq<char>, Seq<char>)>,
)
    requires
        distinct_keys(used),
    ensures
        distinct_keys(items_namespaces(names, items, used)),
    decreases items,
{
    if items.len() > 0 {
        lemma_items_distinct(names, items.drop_last(), used);
        lemma_node_distinct(
            names,
            items.last(),
            items_namespaces(names, items.drop_last(), used),
        );
    }
}

proof fn lemma_node_distinct(names: Names, node: NodeView, used: Seq<(Seq<char>, Seq<char>)>)
    requires
        distinct_keys(used),
    ensures
        distinct_keys(node_namespaces(names, node, used)),
    decreases node,
{
    match node {
        NodeView::Simple(_) => {},
        NodeView::Array(_, items) => {
            lemma_items_distinct(names, items, used);
        },
        NodeView::Structure(fields) => {
            lemma_fields_distinct(names, fields, used);
        },
    }
}

/// What is declared beyond what every document declares: each namespace in use once.
proof fn lemma_more_once(used: Seq<(Seq<char>, Seq<char>)>)
    requires
        distinct_keys(used),
    ensures
        forall|i: int|
            0 <= i < more_declarations(used).len() ==> !always_declared(
                (#[trigger] more_declarations(used)[i]).1,
            ) && exists|k: int|
                0 <= k < used.len() && (#[trigger] used[k]).0 == more_declarations(used)[i].1,
        forall|i: int, j: int|
            0 <= i < j < more_declarations(used).len() ==> (#[trigger] more_declarations(used)[i]).1
                != (#[trigger] more_declarations(used)[j]).1,
    decreases used.len(),
{
    if used.len() > 0 {
        let rest = used.drop_last();
        let before = more_declarations(rest);
        let after = more_declarations(used);
        assert forall|i: int, j: int| 0 <= i < j < rest.len() implies rest[i].0 != rest[j].0 by {
            assert(rest[i] == used[i] && rest[j] == used[j]);
        }
        lemma_more_once(rest);
        let n = used.len() - 1;
        assert forall|i: int| 0 <= i < after.len() implies !always_declared(
            (#[trigger] after[i]).1,
        ) && exists|k: int| 0 <= k < used.len() && (#[trigger] used[k]).0 == after[i].1 by {
            if i < before.len() {
                assert(after[i] == before[i]);
                let k = choose|k: int|
                    0 <= k < rest.len() && (#[trigger] rest[k]).0 == before[i].1;
                assert(used[k] == rest[k]);
            } else {
                assert(used[n].0 == after[i].1);
            }
        }
        assert forall|i: int, j: int| 0 <= i < j < after.len() implies (#[trigger] after[i]).1 != (
        #[trigger] after[j]).1 by {
            assert(after[i] == before[i]);
            if j < before.len() {
                assert(after[j] == before[j]);
            } else {
                let k = choose|k: int|
                    0 <= k < rest.len() && (#[trigger] rest[k]).0 == before[i].1;
                assert(used[k] == rest[k]);
                assert(used[k].0 != used[n].0);
            }
        }
    }
}

/// The namespaces that every document declares are different ones.
proof fn lemma_fixed_once()
    ensures
        ns::RDF@ != ns::XMP@,
        ns::RDF@ != ns::DC@,
        ns::RDF@ != ns::EXIF@,
        ns::RDF@ != ns::XML@,
        ns::XMP@ != ns::DC@,
        ns::XMP@ != ns::EXIF@,
        ns::XMP@ != ns::XML@,
        ns::DC@ != ns::EXIF@,
        ns::DC@ != ns::XML@,
        ns::EXIF@ != ns::XML@,
{
    reveal_strlit("http://www.w3.org/XML/1998/namespace");
    reveal_strlit("http://www.w3.org/1999/02/22-rdf-syntax-ns#");
    reveal_strlit("http://ns.adobe.com/xap/1.0/");
    reveal_strlit("http://purl.org/dc/elements/1.1/");
    reveal_strlit("http://ns.adobe.com/exif/1.0/");
    assert(ns::XML@.len() == 36 && ns::RDF@.len() == 43 && ns::XMP@.len() == 28);
    assert(ns::DC@.len() == 32 && ns::EXIF@.len() == 29);
}

/// A document declares no namespace twice.
pub proof fn law_each_namespace_declared_once(names: Names, fields: Seq<(Seq<char>, NodeView)>)
    ensures
        forall|i: int, j: int|
            0 <= i < j < declarations(names, fields).len() ==> (#[trigger] declarations(
                names,
                fields,
            )[i]).1 != (#[trigger] declarations(names, fields)[j]).1,
{
    let used = used_namespaces(names, fields);
    let fixed = fixed_declarations();
    let more = more_declarations(used);
    let all = declarations(names, fields);
    lemma_fields_distinct(names, fields, Seq::empty());
    lemma_more_once(used);
    lemma_fixed_once();
    assert forall|i: int, j: int| 0 <= i < j < all.len() implies (#[trigger] all[i]).1 != (
    #[trigger] all[j]).1 by {
        if j < fixed.len() {
            assert(all[i] == fixed[i] && all[j] == fixed[j]);
        } else {
            assert(all[j] == more[j - fixed.len()]);
            if i < fixed.len() {
                assert(all[i] == fixed[i]);
                assert(always_declared(fixed[i].1));
            } else {
                assert(all[i] == more[i - fixed.len()]);
            }
        }
    }
}

/// With the standard registry, and no namespaces of a serializer's own that are among the
/// standard ones, every document keeps the standard prefixes.
pub proof fn law_standard_registry_keeps_prefixes(
    namespaces: Map<Seq<char>, Seq<char>>,
    fields: Seq<(Seq<char>, NodeView)>,
)
    requires
        forall|uri: Seq<char>| namespaces.contains_key(uri) ==> !#[trigger] always_declared(uri),
    ensures
        keeps_standard_prefixes(Names { namespaces, registry: standard_namespaces() }, fields),
{
    let names = Names { namespaces, registry: standard_namespaces() };
    let used = used_namespaces(names, fields);
    let fixed = fixed_declarations();
    lemma_fields_declared(names, fields, Seq::empty(), fixed);
    lemma_fixed_once();
    lemma_fixed_prefixes();
    assert forall|i: int| 0 <= i < used.len() && always_declared((#[trigger] used[i]).0) implies
        fixed.contains(("xmlns:"@ + used[i].1, used[i].0)) by {
        let uri = used[i].0;
        assert(!namespaces.contains_key(uri));
        let k: int = if uri == ns::RDF@ {
            0
        } else if uri == ns::XMP@ {
            1
        } else if uri == ns::DC@ {
            2
        } else if uri == ns::EXIF@ {
            3
        } else {
            4
        };
        assert(fixed[k] == ("xmlns:"@ + used[i].1, uri));
    }
}

} // verus!
