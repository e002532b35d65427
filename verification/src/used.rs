//! The namespaces that a document uses, in an `indexmap::IndexMap` from URIs to
//! prefixes.
use crate::ordered::{has_key, position, put};
use indexmap::IndexMap;
use vstd::prelude::*;

verus! {

/// `indexmap::IndexMap`, as an opaque type.
#[verifier::external_type_specification]
#[verifier::external_body]
#[verifier::reject_recursive_types(K)]
#[verifier::reject_recursive_types(V)]
#[verifier::reject_recursive_types(S)]
pub struct ExIndexMap<K, V, S>(indexmap::IndexMap<K, V, S>);

/// The keys and values of a map, in its order.
pub uninterp spec fn entries(m: IndexMap<String, String>) -> Seq<(Seq<char>, Seq<char>)>;

/// `IndexMap::new`: a map without entries.
#[verifier::external_body]
pub(crate) fn new_map() -> (m: IndexMap<String, String>)
    ensures
        entries(m) == Seq::<(Seq<char>, Seq<char>)>::empty(),
{
    IndexMap::new()
}

/// `IndexMap::insert`: a key that the map holds keeps its place and gets the new value,
/// and the old value comes back; another key goes to the end.
#[verifier::external_body]
pub(crate) fn insert(m: &mut IndexMap<String, String>, key: String, value: String) -> (r: Option<
    String,
>)
    ensures
        entries(*final(m)) == put(entries(*old(m)), key@, value@),
        match r {
            Some(v) => has_key(entries(*old(m)), key@) && v@ == entries(
                *old(m),
            )[position(entries(*old(m)), key@)].1,
            None => !has_key(entries(*old(m)), key@),
        },
{
    m.insert(key, value)
}

/// `IndexMap::len`: the number of entries.
#[verifier::external_body]
pub(crate) fn entry_count(m: &IndexMap<String, String>) -> (n: usize)
    ensures
        n == entries(*m).len(),
{
    m.len()
}

/// `IndexMap::get_index`: the entry at a place in the map's order, where there is one.
#[verifier::external_body]
pub(crate) fn get_index(m: &IndexMap<String, String>, index: usize) -> (r: Option<
    (&String, &String),
>)
    ensures
        match r {
            Some((key, value)) => index < entries(*m).len() && entries(*m)[index as int] == (
                key@,
                value@,
            ),
            None => entries(*m).len() <= index,
        },
{
    m.get_index(index)
}

} // verus!
