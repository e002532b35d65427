//! Elements are nested.
use crate::markup::{Markup, Tag};
use crate::node::NodeView;
use crate::path::{resolve, Names};
use crate::rdf::{attributes, container, declarations, description_attributes};
use crate::rdf::{description_outcome, document_outcome, elements, elements_outcome, empty};
use crate::rdf::{is_element, item_outcome, items_outcome, language_attributes};
use crate::rdf::{meta_attributes, node_outcome};
use vstd::prelude::*;

verus! {

/// The names of the elements that are open after `pieces`, where those in `open` were
/// open before; none where a tag closes another element than the innermost.
pub open spec fn open_after(pieces: Seq<Markup>, open: Seq<Seq<char>>) -> Option<Seq<Seq<char>>>
    decreases pieces.len(),
{
    if pieces.len() == 0 {
        Some(open)
    } else {
        match (open_after(pieces.drop_last(), open), pieces.last()) {
            (None, _) => None,
            (Some(now), Markup::Start(tag)) => Some(now.push(tag.name)),
            (Some(now), Markup::End(name)) => {
                if now.len() > 0 && now.last() == name {
                    Some(now.drop_last())
                } else {
                    None
                }
            },
            (Some(now), _) => Some(now),
        }
    }
}

/// What is open after two parts.
proof fn lemma_open_concat(a: Seq<Markup>, b: Seq<Markup>, open: Seq<Seq<char>>)
    ensures
        open_after(a + b, open) == (match open_after(a, open) {
            Some(now) => open_after(b, now),
            None => None,
        }),
    decreases b.len(),
{
    if b.len() == 0 {
        assert(a + b =~= a);
    } else {
        assert((a + b).drop_last() =~= a + b.drop_last());
        assert((a + b).last() == b.last());
        lemma_open_concat(a, b.drop_last(), open);
    }
}

/// What is open after a single piece.
proof fn lemma_open_piece(piece: Markup, open: Seq<Seq<char>>)
    ensures
        open_after(seq![piece], open) == (match piece {
            Markup::Start(tag) => Some(open.push(tag.name)),
            Markup::End(name) => if open.len() > 0 && open.last() == name {
                Some(open.drop_last())
            } else {
                None
            },
            _ => Some(open),
        }),
{
    assert(seq![piece].drop_last() =~= Seq::<Markup>::empty());
    assert(open_after(Seq::<Markup>::empty(), open) == Some(open));
}

/// An element around pieces that leave open what was open does so too.
proof fn lemma_open_element(tag: Tag, inner: Seq<Markup>, open: Seq<Seq<char>>)
    requires
        open_after(inner, open.push(tag.name)) == Some(open.push(tag.name)),
    ensures
        open_after(seq![Markup::Start(tag)] + inner + seq![Markup::End(tag.name)], open) == Some(
            open,
        ),
{
    let first = seq![Markup::Start(tag)];
    let last = seq![Markup::End(tag.name)];
    lemma_open_piece(Markup::Start(tag), open);
    lemma_open_piece(Markup::End(tag.name), open.push(tag.name));
    lemma_open_concat(first, inner, open);
    lemma_open_concat(first + inner, last, open);
    assert(open.push(tag.name).drop_last() =~= open);
}

/// A text in an element.
proof fn lemma_open_text(tag: Tag, text: Seq<char>, open: Seq<Seq<char>>)
    ensures
        open_after(
            seq![Markup::Start(tag), Markup::Text(text), Markup::End(tag.name)],
            open,
        ) == Some(open),
{
    lemma_open_piece(Markup::Text(text), open.push(tag.name));
    lemma_open_element(tag, seq![Markup::Text(text)], open);
    assert(seq![Markup::Start(tag), Markup::Text(text), Markup::End(tag.name)] =~= seq![
        Markup::Start(tag),
    ] + seq![Markup::Text(text)] + seq![Markup::End(tag.name)]);
}

proof fn lemma_node_nests(names: Names, path: Seq<char>, node: NodeView, open: Seq<Seq<char>>)
    requires
        node_outcome(names, path, node).failure is None,
    ensures
        open_after(node_outcome(names, path, node).pieces, open) == Some(open),
    decreases node,
{
    let name = resolve(names, path)->0.qualified();
    let pieces = node_outcome(names, path, node).pieces;
    let none = Seq::<(Seq<char>, Seq<char>)>::empty();
    match node {
        NodeView::Simple(simple) => {
            lemma_open_text(
                Tag { name, attributes: language_attributes(simple.qualifiers) },
                simple.value,
                open,
            );
        },
        NodeView::Array(array_type, items) => {
            let list = container(array_type);
            let outer = Tag { name, attributes: none };
            if items.len() == 0 {
                lemma_open_piece(empty(list, none), open.push(name));
                lemma_open_element(outer, seq![empty(list, none)], open);
                assert(pieces =~= seq![Markup::Start(outer)] + seq![empty(list, none)] + seq![
                    Markup::End(name),
                ]);
            } else {
                let inner = items_outcome(names, items).pieces;
                let held = Tag { name: list, attributes: none };
                lemma_items_nest(names, items, open.push(name).push(list));
                lemma_open_element(held, inner, open.push(name));
                let middle = seq![Markup::Start(held)] + inner + seq![Markup::End(list)];
                lemma_open_element(outer, middle, open);
                assert(pieces =~= seq![Markup::Start(outer)] + middle + seq![Markup::End(name)]);
            }
        },
        NodeView::Structure(fields) => {
            let tag = Tag { name, attributes: attributes(names, fields) };
            if elements(fields).len() == 0 {
                lemma_open_piece(Markup::Empty(tag), open);
            } else {
                let inner = elements_outcome(names, fields).pieces;
                lemma_elements_nest(names, fields, open.push(name));
                lemma_open_element(tag, inner, open);
                assert(pieces =~= seq![Markup::Start(tag)] + inner + seq![Markup::End(name)]);
            }
        },
    }
}

proof fn lemma_elements_nest(
    names: Names,
    fields: Seq<(Seq<char>, NodeView)>,
    open: Seq<Seq<char>>,
)
    requires
        elements_outcome(names, fields).failure is None,
    ensures
        open_after(elements_outcome(names, fields).pieces, open) == Some(open),
    decreases fields,
{
    if fields.len() > 0 {
        lemma_elements_nest(names, fields.drop_last(), open);
        if is_element(fields.last().1) {
            lemma_node_nests(names, fields.last().0, fields.last().1, open);
            lemma_open_concat(
                elements_outcome(names, fields.drop_last()).pieces,
                node_outcome(names, fields.last().0, fields.last().1).pieces,
                open,
            );
        }
    }
}

proof fn lemma_items_nest(names: Names, items: Seq<NodeView>, open: Seq<Seq<char>>)
    requires
        items_outcome(names, items).failure is None,
    ensures
        open_after(items_outcome(names, items).pieces, open) == Some(open),
    decreases items,
{
    if items.len() > 0 {
        lemma_items_nest(names, items.drop_last(), open);
        lemma_item_nests(names, items.last(), open);
        lemma_open_concat(
            items_outcome(names, items.drop_last()).pieces,
            item_outcome(names, items.last()).pieces,
            open,
        );
    }
}

proof fn lemma_item_nests(names: Names, item: NodeView, open: Seq<Seq<char>>)
    requires
        item_outcome(names, item).failure is None,
    ensures
        open_after(item_outcome(names, item).pieces, open) == Some(open),
    decreases item,
{
    let pieces = item_outcome(names, item).pieces;
    match item {
        NodeView::Simple(simple) => {
            lemma_open_text(
                Tag { name: "rdf:li"@, attributes: language_attributes(simple.qualifiers) },
                simple.value,
                open,
            );
        },
        NodeView::Structure(fields) => {
            let own = attributes(names, fields);
            if elements(fields).len() == 0 {
                lemma_open_piece(empty("rdf:li"@, own), open);
            } else {
                let inner = elements_outcome(names, fields).pieces;
                let outer = Tag { name: "rdf:li"@, attributes: Seq::empty() };
                let held = Tag { name: "rdf:Description"@, attributes: own };
                lemma_elements_nest(names, fields, open.push(outer.name).push(held.name));
                lemma_open_element(held, inner, open.push(outer.name));
                let middle = seq![Markup::Start(held)] + inner + seq![Markup::End(held.name)];
                lemma_open_element(outer, middle, open);
                assert(pieces =~= seq![Markup::Start(outer)] + middle + seq![
                    Markup::End(outer.name),
                ]);
            }
        },
        NodeView::Array(_, _) => {},
    }
}

/// The elements of a document are nested: every tag that closes an element closes the
/// innermost open one, and in the end none is open.
pub proof fn law_document_nests(names: Names, fields: Seq<(Seq<char>, NodeView)>)
    requires
        document_outcome(names, fields).failure is None,
    ensures
        open_after(document_outcome(names, fields).pieces, Seq::empty()) == Some(
            Seq::<Seq<char>>::empty(),
        ),
{
    let open = Seq::<Seq<char>>::empty();
    let meta = Tag { name: "x:xmpmeta"@, attributes: meta_attributes() };
    let rdf = Tag { name: "rdf:RDF"@, attributes: declarations(names, fields) };
    let description = Tag {
        name: "rdf:Description"@,
        attributes: description_attributes(names, fields),
    };
    let inside = open.push(meta.name).push(rdf.name);
    let inner = description_outcome(names, fields).pieces;
    if elements(fields).len() == 0 {
        lemma_open_piece(Markup::Empty(description), inside);
    } else {
        let parts = elements_outcome(names, fields).pieces;
        lemma_elements_nest(names, fields, inside.push(description.name));
        lemma_open_element(description, parts, inside);
        assert(inner =~= seq![Markup::Start(description)] + parts + seq![
            Markup::End(description.name),
        ]);
    }
    lemma_open_element(rdf, inner, open.push(meta.name));
    let middle = seq![Markup::Start(rdf)] + inner + seq![Markup::End(rdf.name)];
    lemma_open_element(meta, middle, open);
    assert(document_outcome(names, fields).pieces =~= seq![Markup::Start(meta)] + middle + seq![
        Markup::End(meta.name),
    ]);
}

} // verus!
