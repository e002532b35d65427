//! What a document says is what the tree holds: every value, every name, every kind of
//! array, each in its place.
use crate::markup::{document_text, Markup, Tag};
use crate::node::{ArrayType, NodeView, QualifierView, SimpleView};
use crate::path::{resolve, Names};
use crate::rdf::{attributes, declarations, elements, elements_outcome, has_language, is_element};
use crate::rdf::{is_language, item_outcome, items_outcome, language_attributes, node_outcome};
use crate::rdf::rdf_result;
use vstd::prelude::*;

verus! {

/// Whether some qualifier of a text is `lang` in the namespace of XML.
pub open spec fn in_a_language(simple: SimpleView) -> bool {
    exists|i: int|
        0 <= i < simple.qualifiers.len() && (#[trigger] simple.qualifiers[i]).namespace
            == "http://www.w3.org/XML/1998/namespace"@ && simple.qualifiers[i].name == "lang"@
}

/// Whether a field is a text in no language, in a namespace that has a prefix.
pub open spec fn is_plain(names: Names, field: (Seq<char>, NodeView)) -> bool {
    &&& resolve(names, field.0) is Some
    &&& field.1 matches NodeView::Simple(simple) && !in_a_language(simple)
}

/// Whether a node is an array, a structure, or a text in a language.
pub open spec fn stands_alone(node: NodeView) -> bool {
    node matches NodeView::Simple(simple) ==> in_a_language(simple)
}

proof fn lemma_language(simple: SimpleView)
    ensures
        has_language(simple.qualifiers) == in_a_language(simple),
{
    if has_language(simple.qualifiers) {
        let i = choose|i: int|
            0 <= i < simple.qualifiers.len() && is_language(#[trigger] simple.qualifiers[i]);
        assert(simple.qualifiers[i].name == "lang"@);
    }
    if in_a_language(simple) {
        let i = choose|i: int|
            0 <= i < simple.qualifiers.len() && (#[trigger] simple.qualifiers[i]).namespace
                == "http://www.w3.org/XML/1998/namespace"@ && simple.qualifiers[i].name
                == "lang"@;
        assert(is_language(simple.qualifiers[i]));
    }
}

/// What stands alone is an element.
pub(crate) proof fn lemma_element(node: NodeView)
    ensures
        is_element(node) == stands_alone(node),
{
    if let NodeView::Simple(simple) = node {
        lemma_language(simple);
    }
}

/// A single plain text is a single attribute: the prefix of its namespace, a colon and its
/// name, with its whole value.
pub proof fn law_plain_text_is_attribute(names: Names, path: Seq<char>, simple: SimpleView)
    requires
        resolve(names, path) is Some,
        forall|i: int|
            0 <= i < simple.qualifiers.len() ==> (#[trigger] simple.qualifiers[i]).namespace
                != "http://www.w3.org/XML/1998/namespace"@ || simple.qualifiers[i].name
                != "lang"@,
    ensures
        attributes(names, seq![(path, NodeView::Simple(simple))]) == seq![
            (
                (resolve(names, path)->0).prefix + ":"@ + (resolve(names, path)->0).name,
                simple.value,
            ),
        ],
{
    let fields = seq![(path, NodeView::Simple(simple))];
    lemma_language(simple);
    assert(!in_a_language(simple));
    assert(fields.drop_last() =~= Seq::<(Seq<char>, NodeView)>::empty());
    assert(attributes(names, fields.drop_last()) =~= Seq::empty());
    assert(fields.last() == (path, NodeView::Simple(simple)));
}

/// Two plain texts under the same path are written alike only where they have the same
/// value.
pub proof fn law_plain_texts_are_told_apart(
    names: Names,
    path: Seq<char>,
    one: SimpleView,
    other: SimpleView,
)
    requires
        is_plain(names, (path, NodeView::Simple(one))),
        is_plain(names, (path, NodeView::Simple(other))),
        attributes(names, seq![(path, NodeView::Simple(one))]) == attributes(
            names,
            seq![(path, NodeView::Simple(other))],
        ),
    ensures
        one.value == other.value,
{
    law_plain_text_is_attribute(names, path, one);
    law_plain_text_is_attribute(names, path, other);
    let a = attributes(names, seq![(path, NodeView::Simple(one))]);
    let b = attributes(names, seq![(path, NodeView::Simple(other))]);
    assert(a[0].1 == one.value && b[0].1 == other.value);
}

/// The attributes of a structure are its plain texts, all of them and nothing else, in
/// their order, each with its own name and value.
pub proof fn law_attributes_are_plain_texts(names: Names, fields: Seq<(Seq<char>, NodeView)>)
    ensures
        attributes(names, fields) == fields.filter(
            |field: (Seq<char>, NodeView)| is_plain(names, field),
        ).map_values(
            |field: (Seq<char>, NodeView)|
                (
                    (resolve(names, field.0)->0).prefix + ":"@ + (resolve(names, field.0)->0).name,
                    (field.1->Simple_0).value,
                ),
        ),
    decreases fields.len(),
{
    reveal(Seq::filter);
    let plain = |field: (Seq<char>, NodeView)| is_plain(names, field);
    let written = |field: (Seq<char>, NodeView)|
        (
            (resolve(names, field.0)->0).prefix + ":"@ + (resolve(names, field.0)->0).name,
            (field.1->Simple_0).value,
        );
    if fields.len() > 0 {
        law_attributes_are_plain_texts(names, fields.drop_last());
        if let NodeView::Simple(simple) = fields.last().1 {
            lemma_language(simple);
        }
        assert(attributes(names, fields) =~= fields.filter(plain).map_values(written));
    } else {
        assert(attributes(names, fields) =~= fields.filter(plain).map_values(written));
    }
}

/// Every plain text among some fields is among their attributes, and there are as many
/// attributes as plain texts.
proof fn lemma_each_text(names: Names, fields: Seq<(Seq<char>, NodeView)>)
    ensures
        attributes(names, fields).len() == fields.filter(
            |field: (Seq<char>, NodeView)| is_plain(names, field),
        ).len(),
        forall|i: int|
            0 <= i < fields.len() && is_plain(names, #[trigger] fields[i]) ==> attributes(
                names,
                fields,
            ).contains(
                (
                    (resolve(names, fields[i].0)->0).prefix + ":"@ + (resolve(
                        names,
                        fields[i].0,
                    )->0).name,
                    (fields[i].1->Simple_0).value,
                ),
            ),
{
    let plain = |field: (Seq<char>, NodeView)| is_plain(names, field);
    law_attributes_are_plain_texts(names, fields);
    let all = attributes(names, fields);
    let kept = fields.filter(plain);
    assert forall|i: int| 0 <= i < fields.len() && is_plain(names, #[trigger] fields[i]) implies
        all.contains(
        (
            (resolve(names, fields[i].0)->0).prefix + ":"@ + (resolve(names, fields[i].0)->0).name,
            (fields[i].1->Simple_0).value,
        ),
    ) by {
        assert(plain(fields[i]));
        fields.lemma_filter_contains(plain, i);
        let k = choose|k: int| 0 <= k < kept.len() && kept[k] == fields[i];
        assert(all[k] == (
            (resolve(names, kept[k].0)->0).prefix + ":"@ + (resolve(names, kept[k].0)->0).name,
            (kept[k].1->Simple_0).value,
        ));
    }
}

/// The elements in a structure are its arrays, its structures and its texts in a language,
/// all of them and nothing else, in their order.
pub proof fn law_elements_stand_alone(fields: Seq<(Seq<char>, NodeView)>)
    ensures
        elements(fields) == fields.filter(
            |field: (Seq<char>, NodeView)| stands_alone(field.1),
        ),
    decreases fields.len(),
{
    reveal(Seq::filter);
    if fields.len() > 0 {
        law_elements_stand_alone(fields.drop_last());
        lemma_element(fields.last().1);
    } else {
        assert(elements(fields) =~= fields);
    }
}

/// The languages of a text are those of its qualifiers that are `lang` in the namespace of
/// XML, all of them, in their order, each with its whole value.
pub proof fn law_languages_keep_their_values(qualifiers: Seq<QualifierView>)
    ensures
        language_attributes(qualifiers) == qualifiers.filter(
            |q: QualifierView|
                q.namespace == "http://www.w3.org/XML/1998/namespace"@ && q.name == "lang"@,
        ).map_values(|q: QualifierView| ("xml:lang"@, q.value)),
    decreases qualifiers.len(),
{
    reveal(Seq::filter);
    let kept = qualifiers.filter(
        |q: QualifierView|
            q.namespace == "http://www.w3.org/XML/1998/namespace"@ && q.name == "lang"@,
    );
    if qualifiers.len() > 0 {
        law_languages_keep_their_values(qualifiers.drop_last());
    }
    assert(language_attributes(qualifiers) =~= kept.map_values(
        |q: QualifierView| ("xml:lang"@, q.value),
    ));
}

/// Texts whose languages are written alike name the same language.
pub proof fn law_languages_are_told_apart(one: QualifierView, other: QualifierView)
    requires
        one.namespace == "http://www.w3.org/XML/1998/namespace"@ && one.name == "lang"@,
        other.namespace == "http://www.w3.org/XML/1998/namespace"@ && other.name == "lang"@,
        language_attributes(seq![one]) == language_attributes(seq![other]),
    ensures
        one.value == other.value,
{
    lemma_one_language(one);
    lemma_one_language(other);
    assert(language_attributes(seq![one])[0].1 == one.value);
    assert(language_attributes(seq![other])[0].1 == other.value);
}

proof fn lemma_one_language(q: QualifierView)
    requires
        q.namespace == "http://www.w3.org/XML/1998/namespace"@ && q.name == "lang"@,
    ensures
        language_attributes(seq![q]) == seq![("xml:lang"@, q.value)],
{
    assert(seq![q].drop_last() =~= Seq::<QualifierView>::empty());
    assert(language_attributes(seq![q].drop_last()) =~= Seq::empty());
    assert(seq![q].last() == q);
}

/// A text that is an element: a tag with its languages, its whole value, and the tag that
/// closes it.
pub proof fn law_text_element(names: Names, path: Seq<char>, simple: SimpleView)
    requires
        resolve(names, path) is Some,
    ensures
        node_outcome(names, path, NodeView::Simple(simple)).failure is None,
        node_outcome(names, path, NodeView::Simple(simple)).pieces == seq![
            Markup::Start(
                Tag {
                    name: (resolve(names, path)->0).prefix + ":"@ + (resolve(names, path)->0).name,
                    attributes: language_attributes(simple.qualifiers),
                },
            ),
            Markup::Text(simple.value),
            Markup::End((resolve(names, path)->0).prefix + ":"@ + (resolve(names, path)->0).name),
        ],
{
}

/// A text that is an item: a tag with its languages, its whole value, and the tag that
/// closes it.
pub proof fn law_text_item(names: Names, simple: SimpleView)
    ensures
        item_outcome(names, NodeView::Simple(simple)).failure is None,
        item_outcome(names, NodeView::Simple(simple)).pieces == seq![
            Markup::Start(
                Tag {
                    name: "rdf:li"@,
                    attributes: language_attributes(simple.qualifiers),
                },
            ),
            Markup::Text(simple.value),
            Markup::End("rdf:li"@),
        ],
{
}

/// An array with items is written as a `Seq`, a `Bag` or an `Alt` by its kind alone,
/// whatever the items are and however many, with all the items between the tags.
pub proof fn law_array_kind(
    names: Names,
    path: Seq<char>,
    array_type: ArrayType,
    items: Seq<NodeView>,
)
    requires
        resolve(names, path) is Some,
        items.len() > 0,
        items_outcome(names, items).failure is None,
    ensures
        ({
            let out = node_outcome(names, path, NodeView::Array(array_type, items));
            let name = (resolve(names, path)->0).prefix + ":"@ + (resolve(names, path)->0).name;
            let list = match array_type {
                ArrayType::Ordered => "rdf:Seq"@,
                ArrayType::Unordered => "rdf:Bag"@,
                ArrayType::Alternative => "rdf:Alt"@,
            };
            &&& out.failure is None
            &&& out.pieces.len() >= 4
            &&& out.pieces[0] == Markup::Start(Tag { name, attributes: Seq::empty() })
            &&& out.pieces[1] == Markup::Start(Tag { name: list, attributes: Seq::empty() })
            &&& out.pieces.subrange(2, out.pieces.len() - 2) == items_outcome(names, items).pieces
            &&& out.pieces[out.pieces.len() - 2] == Markup::End(list)
            &&& out.pieces[out.pieces.len() - 1] == Markup::End(name)
        }),
{
    let out = node_outcome(names, path, NodeView::Array(array_type, items));
    assert(out.pieces.subrange(2, out.pieces.len() - 2) =~= items_outcome(names, items).pieces);
}

/// An array without items holds an empty `Seq`, `Bag` or `Alt` by its kind alone.
pub proof fn law_empty_array_kind(names: Names, path: Seq<char>, array_type: ArrayType)
    requires
        resolve(names, path) is Some,
    ensures
        ({
            let out = node_outcome(names, path, NodeView::Array(array_type, Seq::empty()));
            let name = (resolve(names, path)->0).prefix + ":"@ + (resolve(names, path)->0).name;
            let list = match array_type {
                ArrayType::Ordered => "rdf:Seq"@,
                ArrayType::Unordered => "rdf:Bag"@,
                ArrayType::Alternative => "rdf:Alt"@,
            };
            &&& out.failure is None
            &&& out.pieces == seq![
                Markup::Start(Tag { name, attributes: Seq::empty() }),
                Markup::Empty(Tag { name: list, attributes: Seq::empty() }),
                Markup::End(name),
            ]
        }),
{
}

/// The items of an array are all written, one after the other.
pub proof fn law_items_follow_each_other(names: Names, items: Seq<NodeView>)
    requires
        forall|i: int|
            0 <= i < items.len() ==> item_outcome(names, #[trigger] items[i]).failure is None,
    ensures
        items_outcome(names, items).failure is None,
        items_outcome(names, items).pieces == items.map_values(
            |item: NodeView| item_outcome(names, item).pieces,
        ).flatten(),
    decreases items.len(),
{
    let written = |item: NodeView| item_outcome(names, item).pieces;
    let parts = items.map_values(written);
    if items.len() > 0 {
        let rest = items.drop_last();
        assert forall|i: int| 0 <= i < rest.len() implies item_outcome(
            names,
            #[trigger] rest[i],
        ).failure is None by {
            assert(rest[i] == items[i]);
        }
        law_items_follow_each_other(names, rest);
        assert(items[items.len() - 1] == items.last());
        assert(rest.map_values(written) =~= parts.drop_last());
        assert(parts.last() == written(items.last()));
        lemma_flatten_last(parts);
    } else {
        assert(items_outcome(names, items).pieces =~= parts.flatten());
    }
}

proof fn lemma_flatten_last<A>(parts: Seq<Seq<A>>)
    requires
        parts.len() > 0,
    ensures
        parts.flatten() == parts.drop_last().flatten() + parts.last(),
{
    parts.lemma_flatten_and_flatten_alt_are_equivalent();
    parts.drop_last().lemma_flatten_and_flatten_alt_are_equivalent();
}

/// The elements in a structure are all written, one after the other, and nothing else is.
pub proof fn law_elements_follow_each_other(names: Names, fields: Seq<(Seq<char>, NodeView)>)
    requires
        forall|i: int|
            0 <= i < fields.len() && stands_alone((#[trigger] fields[i]).1) ==> node_outcome(
                names,
                fields[i].0,
                fields[i].1,
            ).failure is None,
    ensures
        elements_outcome(names, fields).failure is None,
        elements_outcome(names, fields).pieces == fields.filter(
            |field: (Seq<char>, NodeView)| stands_alone(field.1),
        ).map_values(
            |field: (Seq<char>, NodeView)| node_outcome(names, field.0, field.1).pieces,
        ).flatten(),
    decreases fields.len(),
{
    reveal(Seq::filter);
    let alone = |field: (Seq<char>, NodeView)| stands_alone(field.1);
    let written = |field: (Seq<char>, NodeView)| node_outcome(names, field.0, field.1).pieces;
    let parts = fields.filter(alone).map_values(written);
    if fields.len() > 0 {
        let rest = fields.drop_last();
        assert forall|i: int|
            0 <= i < rest.len() && stands_alone((#[trigger] rest[i]).1) implies node_outcome(
            names,
            rest[i].0,
            rest[i].1,
        ).failure is None by {
            assert(rest[i] == fields[i]);
        }
        law_elements_follow_each_other(names, rest);
        assert(fields[fields.len() - 1] == fields.last());
        lemma_element(fields.last().1);
        if alone(fields.last()) {
            assert(rest.filter(alone).map_values(written) =~= parts.drop_last());
            assert(parts.last() == written(fields.last()));
            lemma_flatten_last(parts);
        }
    } else {
        assert(elements_outcome(names, fields).pieces =~= parts.flatten());
    }
}

/// A structure that is an element: one tag that holds its plain texts where it has no
/// elements, else a tag that holds them, all its elements, and the tag that closes it.
pub proof fn law_structure_element(
    names: Names,
    path: Seq<char>,
    fields: Seq<(Seq<char>, NodeView)>,
)
    requires
        resolve(names, path) is Some,
        elements_outcome(names, fields).failure is None,
    ensures
        ({
            let out = node_outcome(names, path, NodeView::Structure(fields));
            let name = (resolve(names, path)->0).prefix + ":"@ + (resolve(names, path)->0).name;
            let tag = Tag { name, attributes: attributes(names, fields) };
            &&& out.failure is None
            &&& out.pieces == if exists|i: int|
                0 <= i < fields.len() && stands_alone((#[trigger] fields[i]).1) {
                seq![Markup::Start(tag)] + elements_outcome(names, fields).pieces + seq![
                    Markup::End(name),
                ]
            } else {
                seq![Markup::Empty(tag)]
            }
        }),
{
    lemma_some_element(fields);
}

/// There are elements exactly where some field stands alone.
proof fn lemma_some_element(fields: Seq<(Seq<char>, NodeView)>)
    ensures
        elements(fields).len() > 0 <==> exists|i: int|
            0 <= i < fields.len() && stands_alone((#[trigger] fields[i]).1),
    decreases fields.len(),
{
    if fields.len() > 0 {
        let rest = fields.drop_last();
        lemma_some_element(rest);
        lemma_element(fields.last().1);
        if stands_alone(fields.last().1) {
            assert(stands_alone(fields[fields.len() - 1].1));
        } else if elements(rest).len() > 0 {
            let i = choose|i: int| 0 <= i < rest.len() && stands_alone((#[trigger] rest[i]).1);
            assert(fields[i] == rest[i]);
        } else if exists|i: int| 0 <= i < fields.len() && stands_alone((#[trigger] fields[i]).1) {
            let i = choose|i: int|
                0 <= i < fields.len() && stands_alone((#[trigger] fields[i]).1);
            assert(rest[i] == fields[i]);
        }
    }
}

/// A structure that is an item: one `rdf:li` that holds its plain texts where it has no
/// elements, else an `rdf:li` around a description that holds them and all its elements.
pub proof fn law_structure_item(names: Names, fields: Seq<(Seq<char>, NodeView)>)
    requires
        elements_outcome(names, fields).failure is None,
    ensures
        ({
            let out = item_outcome(names, NodeView::Structure(fields));
            &&& out.failure is None
            &&& out.pieces == if exists|i: int|
                0 <= i < fields.len() && stands_alone((#[trigger] fields[i]).1) {
                seq![
                    Markup::Start(Tag { name: "rdf:li"@, attributes: Seq::empty() }),
                    Markup::Start(
                        Tag { name: "rdf:Description"@, attributes: attributes(names, fields) },
                    ),
                ] + elements_outcome(names, fields).pieces + seq![
                    Markup::End("rdf:Description"@),
                    Markup::End("rdf:li"@),
                ]
            } else {
                seq![
                    Markup::Empty(
                        Tag { name: "rdf:li"@, attributes: attributes(names, fields) },
                    ),
                ]
            }
        }),
{
    lemma_some_element(fields);
}

/// Every plain text of a structure that is an item of an array stands, with its name and
/// its value, in the tag that is written for the item: the `rdf:li` itself where no field
/// is an element, else the description in it. That tag has no other attributes.
pub proof fn law_item_holds_plain_texts(names: Names, fields: Seq<(Seq<char>, NodeView)>)
    requires
        item_outcome(names, NodeView::Structure(fields)).failure is None,
    ensures
        ({
            let pieces = item_outcome(names, NodeView::Structure(fields)).pieces;
            let tag = if exists|i: int|
                0 <= i < fields.len() && stands_alone((#[trigger] fields[i]).1) {
                pieces[1]->Start_0
            } else {
                pieces[0]->Empty_0
            };
            &&& tag.attributes.len() == fields.filter(
                |field: (Seq<char>, NodeView)| is_plain(names, field),
            ).len()
            &&& forall|i: int|
                0 <= i < fields.len() && is_plain(names, #[trigger] fields[i])
                    ==> tag.attributes.contains(
                    (
                        (resolve(names, fields[i].0)->0).prefix + ":"@ + (resolve(
                            names,
                            fields[i].0,
                        )->0).name,
                        (fields[i].1->Simple_0).value,
                    ),
                )
        }),
{
    lemma_some_element(fields);
    lemma_each_text(names, fields);
}

/// Every plain text of a structure that is an element stands, with its name and its value,
/// in the first tag of the element, which has no other attributes.
pub proof fn law_element_holds_plain_texts(
    names: Names,
    path: Seq<char>,
    fields: Seq<(Seq<char>, NodeView)>,
)
    requires
        node_outcome(names, path, NodeView::Structure(fields)).failure is None,
    ensures
        ({
            let pieces = node_outcome(names, path, NodeView::Structure(fields)).pieces;
            let tag = if exists|i: int|
                0 <= i < fields.len() && stands_alone((#[trigger] fields[i]).1) {
                pieces[0]->Start_0
            } else {
                pieces[0]->Empty_0
            };
            &&& tag.attributes.len() == fields.filter(
                |field: (Seq<char>, NodeView)| is_plain(names, field),
            ).len()
            &&& forall|i: int|
                0 <= i < fields.len() && is_plain(names, #[trigger] fields[i])
                    ==> tag.attributes.contains(
                    (
                        (resolve(names, fields[i].0)->0).prefix + ":"@ + (resolve(
                            names,
                            fields[i].0,
                        )->0).name,
                        (fields[i].1->Simple_0).value,
                    ),
                )
        }),
{
    lemma_some_element(fields);
    lemma_each_text(names, fields);
}

/// A document is its two outermost elements around one description, which is about the
/// resource at hand and holds all plain texts and all elements of the tree.
pub proof fn law_document_contents(names: Names, fields: Seq<(Seq<char>, NodeView)>)
    requires
        elements_outcome(names, fields).failure is None,
    ensures
        rdf_result(names, fields) matches Ok(text) && text == document_text(
            seq![
                Markup::Start(
                    Tag {
                        name: "x:xmpmeta"@,
                        attributes: seq![
                            ("xmlns:x"@, "adobe:ns:meta/"@),
                            ("x:xmptk"@, "xmpkit"@),
                        ],
                    },
                ),
                Markup::Start(
                    Tag { name: "rdf:RDF"@, attributes: declarations(names, fields) },
                ),
            ] + (if exists|i: int|
                0 <= i < fields.len() && stands_alone((#[trigger] fields[i]).1) {
                seq![
                    Markup::Start(
                        Tag {
                            name: "rdf:Description"@,
                            attributes: seq![("rdf:about"@, ""@)] + attributes(names, fields),
                        },
                    ),
                ] + elements_outcome(names, fields).pieces + seq![Markup::End("rdf:Description"@)]
            } else {
                seq![
                    Markup::Empty(
                        Tag {
                            name: "rdf:Description"@,
                            attributes: seq![("rdf:about"@, ""@)] + attributes(names, fields),
                        },
                    ),
                ]
            }) + seq![Markup::End("rdf:RDF"@), Markup::End("x:xmpmeta"@)],
        ),
{
    lemma_some_element(fields);
}

} // verus!
