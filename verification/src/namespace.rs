//! Namespaces and the prefixes that stand for them.
use crate::ns;
use crate::ordered::{has_key, lemma_position, lemma_position_found, lemma_put_lookup};
use crate::ordered::{position, put};
use crate::text::same_text;
use vstd::prelude::*;
use vstd::string::*;

verus! {

/// Prefixes by namespace URI.
#[derive(Debug)]
pub struct NamespaceMap {
    entries: Vec<(String, String)>,
}

/// The characters of a list of URIs and prefixes.
spec fn listed(entries: Seq<(String, String)>) -> Seq<(Seq<char>, Seq<char>)> {
    Seq::new(entries.len(), |i: int| (entries[i].0@, entries[i].1@))
}

/// The prefixes that a list gives, by URI.
spec fn as_map(s: Seq<(Seq<char>, Seq<char>)>) -> Map<Seq<char>, Seq<char>> {
    Map::new(
        |uri: Seq<char>| has_key(s, uri),
        |uri: Seq<char>| s[position(s, uri)].1,
    )
}

impl View for NamespaceMap {
    type V = Map<Seq<char>, Seq<char>>;

    closed spec fn view(&self) -> Map<Seq<char>, Seq<char>> {
        as_map(listed(self.entries@))
    }
}

/// The namespaces that every packet declares, with their prefixes.
pub open spec fn standard_namespaces() -> Map<Seq<char>, Seq<char>> {
    Map::empty().insert(ns::RDF@, "rdf"@).insert(ns::XMP@, "xmp"@).insert(ns::DC@, "dc"@).insert(
        ns::EXIF@,
        "exif"@,
    ).insert(ns::XML@, "xml"@)
}

impl NamespaceMap {
    /// A map without namespaces.
    pub fn new() -> (r: NamespaceMap)
        ensures
            r@ == Map::<Seq<char>, Seq<char>>::empty(),
    {
        let r: NamespaceMap = NamespaceMap { entries: Vec::new() };
        assert(r@ =~= Map::<Seq<char>, Seq<char>>::empty());
        r
    }

    /// The map of the namespaces that every packet declares.
    pub fn standard() -> (r: NamespaceMap)
        ensures
            r@ == standard_namespaces(),
    {
        let mut r: NamespaceMap = NamespaceMap::new();
        r.register(ns::RDF, "rdf");
        r.register(ns::XMP, "xmp");
        r.register(ns::DC, "dc");
        r.register(ns::EXIF, "exif");
        r.register(ns::XML, "xml");
        r
    }

    /// Gives the namespace `uri` the prefix `prefix`, in place of the one it had, if any.
    pub fn register(&mut self, uri: &str, prefix: &str)
        ensures
            final(self)@ == old(self)@.insert(uri@, prefix@),
    {
        let ghost before = listed(self.entries@);
        let mut i: usize = 0;
        while i < self.entries.len()
            invariant
                self.entries@ == old(self).entries@,
                before == listed(self.entries@),
                i <= self.entries@.len(),
                forall|j: int| 0 <= j < i ==> (#[trigger] before[j]).0 != uri@,
            decreases self.entries@.len() - i,
        {
            if same_text(self.entries[i].0.as_str(), uri) {
                proof {
                    lemma_position_found(before, uri@, i as int);
                }
                self.entries.set(i, (uri.to_owned(), prefix.to_owned()));
                proof {
                    lemma_put_is_insert(before, uri@, prefix@);
                    assert(listed(self.entries@) =~= put(before, uri@, prefix@));
                }
                return ;
            }
            assert(before[i as int].0 != uri@);
            i += 1;
        }
        self.entries.push((uri.to_owned(), prefix.to_owned()));
        proof {
            lemma_position(before, uri@);
            lemma_put_is_insert(before, uri@, prefix@);
            assert(listed(self.entries@) =~= put(before, uri@, prefix@));
        }
    }

    /// The prefix of the namespace `uri`.
    pub fn get_prefix(&self, uri: &str) -> (r: Option<&str>)
        ensures
            match r {
                Some(prefix) => self@.contains_key(uri@) && prefix@ == self@[uri@],
                None => !self@.contains_key(uri@),
            },
    {
        let ghost all = listed(self.entries@);
        let mut i: usize = 0;
        while i < self.entries.len()
            invariant
                all == listed(self.entries@),
                i <= self.entries@.len(),
                forall|j: int| 0 <= j < i ==> (#[trigger] all[j]).0 != uri@,
            decreases self.entries@.len() - i,
        {
            if same_text(self.entries[i].0.as_str(), uri) {
                proof {
                    lemma_position_found(all, uri@, i as int);
                }
                return Some(self.entries[i].1.as_str());
            }
            assert(all[i as int].0 != uri@);
            i += 1;
        }
        proof {
            lemma_position(all, uri@);
        }
        None
    }
}

/// Putting an entry into a list inserts it into the map that the list gives.
proof fn lemma_put_is_insert(s: Seq<(Seq<char>, Seq<char>)>, uri: Seq<char>, prefix: Seq<char>)
    ensures
        as_map(put(s, uri, prefix)) == as_map(s).insert(uri, prefix),
{
    let after = as_map(put(s, uri, prefix));
    assert forall|other: Seq<char>|
        #![trigger after.contains_key(other)]
        after.contains_key(other) == as_map(s).insert(uri, prefix).contains_key(other) && (
        after.contains_key(other) ==> after[other] == as_map(s).insert(uri, prefix)[other]) by {
        lemma_put_lookup(s, uri, prefix, other);
    }
    assert(after =~= as_map(s).insert(uri, prefix));
}

impl Clone for NamespaceMap {
    fn clone(&self) -> (r: NamespaceMap)
        ensures
            r@ == self@,
    {
        let mut entries: Vec<(String, String)> = Vec::new();
        let mut i: usize = 0;
        while i < self.entries.len()
            invariant
                i <= self.entries@.len(),
                entries@ == self.entries@.take(i as int),
            decreases self.entries@.len() - i,
        {
            entries.push((self.entries[i].0.clone(), self.entries[i].1.clone()));
            assert(self.entries@.take(i + 1) =~= self.entries@.take(i as int).push(
                self.entries@[i as int],
            ));
            i += 1;
        }
        assert(entries@ =~= self.entries@);
        NamespaceMap { entries }
    }
}

impl Default for NamespaceMap {
    fn default() -> (r: NamespaceMap)
        ensures
            r@ == Map::<Seq<char>, Seq<char>>::empty(),
    {
        NamespaceMap::new()
    }
}

} // verus!
