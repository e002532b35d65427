//! Association lists in insertion order: each key stands once, at the place where it
//! first came in.
use vstd::prelude::*;

verus! {

/// Where `key` first stands in `s`; the length of `s` where it does not stand in it.
pub open spec fn position<V>(s: Seq<(Seq<char>, V)>, key: Seq<char>) -> int
    decreases s.len(),
{
    if s.len() == 0 {
        0
    } else {
        let p = position(s.drop_last(), key);
        if p < s.len() - 1 || s.last().0 == key {
            p
        } else {
            p + 1
        }
    }
}

/// Whether `key` stands in `s`.
pub open spec fn has_key<V>(s: Seq<(Seq<char>, V)>, key: Seq<char>) -> bool {
    position(s, key) < s.len()
}

/// `s` with `value` for `key`: in the key's place where it has one, else at the end.
pub open spec fn put<V>(s: Seq<(Seq<char>, V)>, key: Seq<char>, value: V) -> Seq<(Seq<char>, V)> {
    if has_key(s, key) {
        s.update(position(s, key), (key, value))
    } else {
        s.push((key, value))
    }
}

/// Whether no key stands twice.
pub open spec fn distinct_keys<V>(s: Seq<(Seq<char>, V)>) -> bool {
    forall|i: int, j: int| 0 <= i < j < s.len() ==> s[i].0 != s[j].0
}

/// `position` is the first index that holds the key.
pub proof fn lemma_position<V>(s: Seq<(Seq<char>, V)>, key: Seq<char>)
    ensures
        0 <= position(s, key) <= s.len(),
        has_key(s, key) ==> s[position(s, key)].0 == key,
        forall|i: int| 0 <= i < position(s, key) ==> (#[trigger] s[i]).0 != key,
    decreases s.len(),
{
    if s.len() > 0 {
        let rest = s.drop_last();
        lemma_position(rest, key);
        assert forall|i: int| 0 <= i < position(s, key) implies (#[trigger] s[i]).0 != key by {
            if i < s.len() - 1 {
                assert(rest[i] == s[i]);
            }
        }
        if position(rest, key) < rest.len() {
            assert(rest[position(rest, key)] == s[position(rest, key)]);
        }
    }
}

/// An index that holds the key is its position, or the key stands earlier too.
pub proof fn lemma_position_found<V>(s: Seq<(Seq<char>, V)>, key: Seq<char>, i: int)
    requires
        0 <= i < s.len(),
        s[i].0 == key,
        forall|j: int| 0 <= j < i ==> (#[trigger] s[j]).0 != key,
    ensures
        position(s, key) == i,
{
    lemma_position(s, key);
    let p = position(s, key);
    if p < i {
        assert(s[p].0 != key);
    } else if i < p {
        assert(s[i].0 != key);
    }
}

/// Putting a value in keeps every key single.
pub proof fn lemma_put_distinct<V>(s: Seq<(Seq<char>, V)>, key: Seq<char>, value: V)
    requires
        distinct_keys(s),
    ensures
        distinct_keys(put(s, key, value)),
{
    lemma_position(s, key);
}

/// A reader finds what was put in last, and every other key as it was.
pub proof fn lemma_put_lookup<V>(
    s: Seq<(Seq<char>, V)>,
    key: Seq<char>,
    value: V,
    other: Seq<char>,
)
    ensures
        has_key(put(s, key, value), key),
        put(s, key, value)[position(put(s, key, value), key)].1 == value,
        other != key ==> has_key(put(s, key, value), other) == has_key(s, other),
        other != key && has_key(s, other) ==> position(put(s, key, value), other) == position(
            s,
            other,
        ) && put(s, key, value)[position(s, other)] == s[position(s, other)],
{
    let t = put(s, key, value);
    let p = position(s, key);
    let q = position(s, other);
    lemma_position(s, key);
    lemma_position(s, other);
    assert(t[p].0 == key);
    assert forall|j: int| 0 <= j < p implies (#[trigger] t[j]).0 != key by {
        assert(t[j] == s[j]);
    }
    lemma_position_found(t, key, p);
    lemma_position(t, other);
    if other != key {
        let r = position(t, other);
        if has_key(s, other) {
            assert(t[q] == s[q]);
            assert forall|j: int| 0 <= j < q implies (#[trigger] t[j]).0 != other by {
                if j != p {
                    assert(t[j] == s[j]);
                }
            }
            lemma_position_found(t, other, q);
        } else if r < t.len() {
            assert(r != p);
            assert(t[r] == s[r]);
            assert(s[r].0 != other);
        }
    }
}

} // verus!
