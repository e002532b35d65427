//! Values cannot be taken for markup, and none is lost.
use crate::markup::{escape, escape_char};
use vstd::prelude::*;

verus! {

/// What each character becomes, in characters.
proof fn reveal_references()
    ensures
        "&lt;"@ =~= seq!['&', 'l', 't', ';'],
        "&gt;"@ =~= seq!['&', 'g', 't', ';'],
        "&amp;"@ =~= seq!['&', 'a', 'm', 'p', ';'],
        "&apos;"@ =~= seq!['&', 'a', 'p', 'o', 's', ';'],
        "&quot;"@ =~= seq!['&', 'q', 'u', 'o', 't', ';'],
        "&#13;"@ =~= seq!['&', '#', '1', '3', ';'],
        "&#10;"@ =~= seq!['&', '#', '1', '0', ';'],
        "&#9;"@ =~= seq!['&', '#', '9', ';'],
{
    reveal_strlit("&lt;");
    reveal_strlit("&gt;");
    reveal_strlit("&amp;");
    reveal_strlit("&apos;");
    reveal_strlit("&quot;");
    reveal_strlit("&#13;");
    reveal_strlit("&#10;");
    reveal_strlit("&#9;");
}

/// Whether a character can be taken for markup, or ends an attribute's value.
pub open spec fn is_markup(c: char) -> bool {
    c == '<' || c == '>' || c == '"' || c == '\''
}

/// An escaped text or value holds no character that can be taken for markup.
pub proof fn law_escaped_is_not_markup(s: Seq<char>, in_attribute: bool)
    ensures
        forall|i: int|
            0 <= i < escape(s, in_attribute).len() ==> !is_markup(
                #[trigger] escape(s, in_attribute)[i],
            ),
    decreases s.len(),
{
    if s.len() > 0 {
        reveal_references();
        law_escaped_is_not_markup(s.drop_last(), in_attribute);
        let before = escape(s.drop_last(), in_attribute);
        let last = escape_char(s.last(), in_attribute);
        assert forall|i: int| 0 <= i < escape(s, in_attribute).len() implies !is_markup(
            #[trigger] escape(s, in_attribute)[i],
        ) by {
            if i < before.len() {
                assert(escape(s, in_attribute)[i] == before[i]);
            } else {
                assert(escape(s, in_attribute)[i] == last[i - before.len()]);
            }
        }
    }
}

/// A text is escaped from its start as it is from its end.
proof fn lemma_escape_first(s: Seq<char>, in_attribute: bool)
    requires
        s.len() > 0,
    ensures
        escape(s, in_attribute) == escape_char(s[0], in_attribute) + escape(
            s.drop_first(),
            in_attribute,
        ),
    decreases s.len(),
{
    let rest = s.drop_first();
    if s.len() == 1 {
        assert(s.drop_last() =~= Seq::<char>::empty());
        assert(rest =~= Seq::<char>::empty());
        assert(escape(s, in_attribute) =~= escape_char(s[0], in_attribute) + escape(
            rest,
            in_attribute,
        ));
    } else {
        lemma_escape_first(s.drop_last(), in_attribute);
        assert(s.drop_last().drop_first() =~= rest.drop_last());
        assert(escape(s, in_attribute) =~= escape_char(s[0], in_attribute) + escape(
            rest,
            in_attribute,
        ));
    }
}

/// The characters that two texts start with are the same if the escaped texts are.
proof fn lemma_same_start(a: char, b: char, x: Seq<char>, y: Seq<char>, in_attribute: bool)
    requires
        escape_char(a, in_attribute) + x == escape_char(b, in_attribute) + y,
    ensures
        a == b,
        x == y,
{
    reveal_references();
    let p = escape_char(a, in_attribute);
    let q = escape_char(b, in_attribute);
    let whole = p + x;
    assert(forall|i: int| 0 <= i < p.len() ==> whole[i] == #[trigger] p[i]);
    assert(whole == q + y);
    assert(forall|i: int| 0 <= i < q.len() ==> whole[i] == #[trigger] q[i]);
    assert(p[0] == q[0]);
    if a != b {
        assert(p[1] == whole[1] && q[1] == whole[1]);
        assert(p[2] == whole[2] && q[2] == whole[2]);
        assert(p[3] == whole[3] && q[3] == whole[3]);
        assert(false);
    }
    assert(x =~= whole.skip(p.len() as int));
    assert(y =~= whole.skip(q.len() as int));
}

/// No text is lost: different texts are written differently.
pub proof fn law_escaping_loses_nothing(a: Seq<char>, b: Seq<char>, in_attribute: bool)
    requires
        escape(a, in_attribute) == escape(b, in_attribute),
    ensures
        a == b,
    decreases a.len(),
{
    reveal_references();
    if a.len() > 0 {
        lemma_escape_first(a, in_attribute);
    }
    if b.len() > 0 {
        lemma_escape_first(b, in_attribute);
    }
    if a.len() == 0 {
        if b.len() > 0 {
            assert(escape_char(b[0], in_attribute).len() > 0);
            assert(escape(b, in_attribute).len() >= escape_char(b[0], in_attribute).len());
            assert(escape(a, in_attribute).len() == 0);
        }
        assert(a =~= b);
    } else if b.len() == 0 {
        assert(escape_char(a[0], in_attribute).len() > 0);
        assert(escape(a, in_attribute).len() >= escape_char(a[0], in_attribute).len());
        assert(escape(b, in_attribute).len() == 0);
    } else {
        lemma_same_start(
            a[0],
            b[0],
            escape(a.drop_first(), in_attribute),
            escape(b.drop_first(), in_attribute),
            in_attribute,
        );
        law_escaping_loses_nothing(a.drop_first(), b.drop_first(), in_attribute);
        assert(a =~= seq![a[0]] + a.drop_first());
        assert(b =~= seq![b[0]] + b.drop_first());
    }
}

} // verus!
