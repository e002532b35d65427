//! From tags and texts to characters.
use crate::laws::nesting::open_after;
use crate::markup::{document_text, escape, escape_char, sheet, tag_text, Markup, Tag};
use crate::text::{decimal, digit};
use vstd::prelude::*;

verus! {

/// A text is escaped part by part.
pub proof fn law_escaping_by_parts(a: Seq<char>, b: Seq<char>, in_attribute: bool)
    ensures
        escape(a + b, in_attribute) == escape(a, in_attribute) + escape(b, in_attribute),
    decreases b.len(),
{
    if b.len() == 0 {
        assert(a + b =~= a);
        assert(escape(a, in_attribute) + escape(b, in_attribute) =~= escape(a, in_attribute));
    } else {
        assert((a + b).drop_last() =~= a + b.drop_last());
        assert((a + b).last() == b.last());
        law_escaping_by_parts(a, b.drop_last(), in_attribute);
        assert(escape(a + b, in_attribute) =~= escape(a, in_attribute) + escape(b, in_attribute));
    }
}

/// The characters that XML gives a meaning to are written as references, and so are a
/// carriage return and, in the value of an attribute, a line feed and a tab. Every other
/// character stands for itself.
pub proof fn law_escaping_of_a_character(c: char, in_attribute: bool)
    ensures
        c == '<' ==> escape(seq![c], in_attribute) == "&lt;"@,
        c == '>' ==> escape(seq![c], in_attribute) == "&gt;"@,
        c == '&' ==> escape(seq![c], in_attribute) == "&amp;"@,
        c == '\'' ==> escape(seq![c], in_attribute) == "&apos;"@,
        c == '"' ==> escape(seq![c], in_attribute) == "&quot;"@,
        c == '\r' ==> escape(seq![c], in_attribute) == "&#13;"@,
        c == '\n' && in_attribute ==> escape(seq![c], in_attribute) == "&#10;"@,
        c == '\t' && in_attribute ==> escape(seq![c], in_attribute) == "&#9;"@,
        c != '<' && c != '>' && c != '&' && c != '\'' && c != '"' && c != '\r' && ((c != '\n' && c
            != '\t') || !in_attribute) ==> escape(seq![c], in_attribute) == seq![c],
{
    let s = seq![c];
    assert(s.drop_last() =~= Seq::<char>::empty());
    assert(s.last() == c);
    assert(escape(s.drop_last(), in_attribute) =~= Seq::<char>::empty());
    assert(escape(s, in_attribute) =~= escape_char(c, in_attribute));
}

/// A tag holds its name and then all its attributes, in their order: a blank, the name, an
/// equals sign, and the value, escaped, in double quotes.
pub proof fn law_tag_holds_attributes(
    name: Seq<char>,
    attributes: Seq<(Seq<char>, Seq<char>)>,
)
    ensures
        tag_text(Tag { name, attributes }) == name + attributes.map_values(
            |a: (Seq<char>, Seq<char>)| " "@ + a.0 + "=\""@ + escape(a.1, true) + "\""@,
        ).flatten(),
    decreases attributes.len(),
{
    let written = |a: (Seq<char>, Seq<char>)| " "@ + a.0 + "=\""@ + escape(a.1, true) + "\""@;
    let parts = attributes.map_values(written);
    if attributes.len() > 0 {
        let rest = attributes.drop_last();
        law_tag_holds_attributes(name, rest);
        assert(rest.map_values(written) =~= parts.drop_last());
        assert(parts.last() == written(attributes.last()));
        parts.lemma_flatten_and_flatten_alt_are_equivalent();
        parts.drop_last().lemma_flatten_and_flatten_alt_are_equivalent();
        assert(tag_text(Tag { name, attributes }) =~= name + parts.flatten());
    } else {
        assert(tag_text(Tag { name, attributes }) =~= name + parts.flatten());
    }
}

/// The depth of what is written is the number of open elements, and a tag goes on a new
/// line unless it comes first or follows a text.
proof fn lemma_sheet(pieces: Seq<Markup>)
    requires
        open_after(pieces, Seq::empty()) is Some,
    ensures
        sheet(pieces).depth == (open_after(pieces, Seq::empty())->0).len(),
        sheet(pieces).line_break == (pieces.len() > 0 && pieces.last() !is Text),
    decreases pieces.len(),
{
    if pieces.len() > 0 {
        lemma_sheet(pieces.drop_last());
    }
}

/// Nothing is written for no pieces.
pub proof fn law_no_pieces_no_text()
    ensures
        document_text(Seq::empty()) == Seq::<char>::empty(),
{
}

/// One more text adds its characters, escaped, and nothing else.
pub proof fn law_text_is_added(pieces: Seq<Markup>, text: Seq<char>)
    ensures
        document_text(pieces.push(Markup::Text(text))) == document_text(pieces) + escape(
            text,
            false,
        ),
{
    assert(pieces.push(Markup::Text(text)).drop_last() =~= pieces);
}

/// One more tag adds the tag, with all that it holds. Before it stands a line feed and two
/// blanks for each element that it is in, unless it comes first or follows a text.
pub proof fn law_tag_is_added(pieces: Seq<Markup>, piece: Markup)
    requires
        open_after(pieces.push(piece), Seq::empty()) is Some,
        piece !is Text,
    ensures
        ({
            let open = (open_after(pieces, Seq::empty())->0).len();
            let level = if piece is End {
                open - 1
            } else {
                open as int
            };
            let line = if pieces.len() > 0 && pieces.last() !is Text {
                "\n"@ + Seq::new((2 * level) as nat, |i: int| ' ')
            } else {
                Seq::empty()
            };
            document_text(pieces.push(piece)) == document_text(pieces) + line + match piece {
                Markup::Start(tag) => "<"@ + tag_text(tag) + ">"@,
                Markup::Empty(tag) => "<"@ + tag_text(tag) + "/>"@,
                Markup::End(name) => "</"@ + name + ">"@,
                Markup::Text(_) => Seq::empty(),
            }
        }),
{
    assert(pieces.push(piece).drop_last() =~= pieces);
    lemma_sheet(pieces);
}

/// A number is written in decimal digits: the digits of its tenth part, then the digit for
/// what is left, and no leading zero.
pub proof fn law_decimal_digits(n: nat)
    ensures
        n < 10 ==> decimal(n) == seq![(48 + n) as char],
        n >= 10 ==> decimal(n) == decimal(n / 10) + seq![(48 + n % 10) as char],
{
    reveal_strlit("0");
    reveal_strlit("1");
    reveal_strlit("2");
    reveal_strlit("3");
    reveal_strlit("4");
    reveal_strlit("5");
    reveal_strlit("6");
    reveal_strlit("7");
    reveal_strlit("8");
    reveal_strlit("9");
    let d: nat = n % 10;
    assert(digit(d) =~= seq![(48 + d) as char]);
}

} // verus!
