//! How every document starts and ends.
use crate::markup::{attribute_text, document_text, escape, escape_char, sheet, tag_text};
use crate::markup::{Markup, Tag};
use crate::node::NodeView;
use crate::path::Names;
use crate::rdf::{document_outcome, meta_attributes, rdf_result, start};
use vstd::prelude::*;

verus! {

/// More pieces only add to the text.
proof fn lemma_text_grows(a: Seq<Markup>, b: Seq<Markup>)
    ensures
        document_text(a).is_prefix_of(document_text(a + b)),
    decreases b.len(),
{
    if b.len() == 0 {
        assert(a + b =~= a);
    } else {
        let before = document_text(a + b.drop_last());
        let after = document_text(a + b);
        lemma_text_grows(a, b.drop_last());
        assert((a + b).drop_last() =~= a + b.drop_last());
        assert(before =~= after.subrange(0, before.len() as int));
        assert(document_text(a) =~= after.subrange(0, document_text(a).len() as int)) by {
            assert(document_text(a) =~= before.subrange(0, document_text(a).len() as int));
        }
    }
}

/// Text of characters that stand for themselves is not changed by escaping.
proof fn lemma_escape_plain(s: Seq<char>)
    requires
        forall|i: int| 0 <= i < s.len() ==> escape_char(#[trigger] s[i], true) == seq![s[i]],
    ensures
        escape(s, true) == s,
    decreases s.len(),
{
    if s.len() > 0 {
        let rest = s.drop_last();
        assert forall|i: int| 0 <= i < rest.len() implies escape_char(#[trigger] rest[i], true)
            == seq![rest[i]] by {
            assert(rest[i] == s[i]);
        }
        lemma_escape_plain(rest);
        assert(s[s.len() - 1] == s.last());
        assert(escape(s, true) =~= s);
    } else {
        assert(escape(s, true) =~= s);
    }
}

/// The outermost tag.
proof fn lemma_meta_tag()
    ensures
        "<"@ + tag_text(Tag { name: "x:xmpmeta"@, attributes: meta_attributes() }) + ">"@
            == "<x:xmpmeta xmlns:x=\"adobe:ns:meta/\" x:xmptk=\"xmpkit\">"@,
{
    let all = meta_attributes();
    let one = seq![all[0]];
    let none = Seq::<(Seq<char>, Seq<char>)>::empty();
    reveal_strlit(" ");
    reveal_strlit("=\"");
    reveal_strlit("\"");
    reveal_strlit("<");
    reveal_strlit(">");
    reveal_strlit("x:xmpmeta");
    reveal_strlit("xmlns:x");
    reveal_strlit("adobe:ns:meta/");
    reveal_strlit("x:xmptk");
    reveal_strlit("xmpkit");
    reveal_strlit(" xmlns:x=\"adobe:ns:meta/\"");
    reveal_strlit(" x:xmptk=\"xmpkit\"");
    reveal_strlit("<x:xmpmeta xmlns:x=\"adobe:ns:meta/\" x:xmptk=\"xmpkit\">");
    lemma_escape_plain("adobe:ns:meta/"@);
    lemma_escape_plain("xmpkit"@);
    assert(attribute_text(all[0]) =~= " xmlns:x=\"adobe:ns:meta/\""@);
    assert(attribute_text(all[1]) =~= " x:xmptk=\"xmpkit\""@);
    assert(all.drop_last() =~= one);
    assert(one.drop_last() =~= none);
    let name = "x:xmpmeta"@;
    assert(tag_text(Tag { name, attributes: none }) == name);
    assert(tag_text(Tag { name, attributes: one }) == name + attribute_text(all[0]));
    assert(tag_text(Tag { name, attributes: all }) == name + attribute_text(all[0])
        + attribute_text(all[1]));
    assert("<"@ + (name + " xmlns:x=\"adobe:ns:meta/\""@ + " x:xmptk=\"xmpkit\""@) + ">"@
        =~= "<x:xmpmeta xmlns:x=\"adobe:ns:meta/\" x:xmptk=\"xmpkit\">"@);
}

/// Every document starts with the tag of the outermost element, which names the toolkit,
/// and ends with the tag that closes it.
pub proof fn law_document_frame(names: Names, fields: Seq<(Seq<char>, NodeView)>)
    requires
        rdf_result(names, fields) is Ok,
    ensures
        "<x:xmpmeta xmlns:x=\"adobe:ns:meta/\" x:xmptk=\"xmpkit\">"@.is_prefix_of(
            rdf_result(names, fields)->Ok_0,
        ),
        "</x:xmpmeta>"@.is_suffix_of(rdf_result(names, fields)->Ok_0),
{
    let pieces = document_outcome(names, fields).pieces;
    let text = document_text(pieces);
    let first = start("x:xmpmeta"@, meta_attributes());
    let head = "<x:xmpmeta xmlns:x=\"adobe:ns:meta/\" x:xmptk=\"xmpkit\">"@;
    let tail = "</x:xmpmeta>"@;
    let rest = pieces.skip(1);

    lemma_meta_tag();
    assert(seq![first].drop_last() =~= Seq::<Markup>::empty());
    assert(sheet(seq![first]) == sheet(Seq::<Markup>::empty()).add(first));
    assert(document_text(seq![first]) =~= head);
    assert(pieces[0] == first);
    assert(seq![first] + rest =~= pieces);
    lemma_text_grows(seq![first], rest);

    reveal_strlit("</");
    reveal_strlit("x:xmpmeta");
    reveal_strlit(">");
    reveal_strlit("</x:xmpmeta>");
    assert("</"@ + "x:xmpmeta"@ + ">"@ =~= tail);
    assert(pieces.last() == Markup::End("x:xmpmeta"@));
    let outer = sheet(pieces.drop_last()).closed();
    assert(text == outer.text + outer.gap() + tail);
    assert(tail =~= text.subrange(text.len() - tail.len(), text.len() as int));
}

} // verus!
