//! Property paths: the URI of a namespace, a colon, and the name of a property.
use vstd::prelude::*;
use vstd::string::*;

verus! {

/// The prefixes at hand: those of a serializer's own map, and those of a registry that
/// is asked next.
pub struct Names {
    pub namespaces: Map<Seq<char>, Seq<char>>,
    pub registry: Map<Seq<char>, Seq<char>>,
}

impl Names {
    /// The prefix for a namespace: from the serializer's own map where it has one, else
    /// from the registry.
    pub open spec fn prefix(self, uri: Seq<char>) -> Option<Seq<char>> {
        if self.namespaces.contains_key(uri) {
            Some(self.namespaces[uri])
        } else if self.registry.contains_key(uri) {
            Some(self.registry[uri])
        } else {
            None
        }
    }
}

/// A property in a namespace with a known prefix.
pub struct Property {
    pub prefix: Seq<char>,
    pub name: Seq<char>,
    pub uri: Seq<char>,
}

impl Property {
    /// The name under which the property is written.
    pub open spec fn qualified(self) -> Seq<char> {
        self.prefix + ":"@ + self.name
    }
}

/// The index of the last colon in `path`, or -1 where there is none.
pub open spec fn last_colon(path: Seq<char>) -> int
    decreases path.len(),
{
    if path.len() == 0 {
        -1
    } else if path.last() == ':' {
        path.len() - 1
    } else {
        last_colon(path.drop_last())
    }
}

/// The property that `path` names: what precedes the last colon is the URI of its
/// namespace, what follows it is its name. There is none where the path has no colon
/// or the namespace has no prefix.
pub open spec fn resolve(names: Names, path: Seq<char>) -> Option<Property> {
    let colon = last_colon(path);
    if colon < 0 {
        None
    } else {
        match names.prefix(path.take(colon)) {
            Some(prefix) => Some(
                Property { prefix, name: path.skip(colon + 1), uri: path.take(colon) },
            ),
            None => None,
        }
    }
}

/// Whether `r` is the prefix, the name and the namespace of the property that `path` names,
/// or says that it names none.
pub open spec fn is_property(
    names: Names,
    path: Seq<char>,
    r: Option<(String, String, String)>,
) -> bool {
    match (r, resolve(names, path)) {
        (Some((prefix, name, uri)), Some(property)) => {
            prefix@ == property.prefix && name@ == property.name && uri@ == property.uri
        },
        (None, None) => true,
        _ => false,
    }
}

/// Whether `r` is the prefix and the name of the property that `path` names, or says that
/// it names none.
pub open spec fn is_property_name(
    names: Names,
    path: Seq<char>,
    r: Option<(String, String)>,
) -> bool {
    match (r, resolve(names, path)) {
        (Some((prefix, name)), Some(property)) => {
            prefix@ == property.prefix && name@ == property.name
        },
        (None, None) => true,
        _ => false,
    }
}

/// `last_colon` is an index of the path, or -1.
pub proof fn lemma_last_colon(path: Seq<char>)
    ensures
        -1 <= last_colon(path) < path.len(),
    decreases path.len(),
{
    if path.len() > 0 && path.last() != ':' {
        lemma_last_colon(path.drop_last());
    }
}

/// A path as what precedes and what follows its last colon.
pub(crate) fn split_at_last_colon(path: &str) -> (r: Option<(&str, &str)>)
    ensures
        match r {
            Some((before, after)) => 0 <= last_colon(path@) && before@ == path@.take(
                last_colon(path@),
            ) && after@ == path@.skip(last_colon(path@) + 1),
            None => last_colon(path@) < 0,
        },
{
    let n: usize = path.unicode_len();
    let mut count: usize = 0;
    let mut colon: Option<usize> = None;
    for c in chars: path.chars()
        invariant
            chars.seq() == path@,
            n == path@.len(),
            count == chars.index(),
            match colon {
                Some(at) => at == last_colon(path@.take(count as int)),
                None => last_colon(path@.take(count as int)) < 0,
            },
    {
        proof {
            assert(path@.take(count + 1).drop_last() =~= path@.take(count as int));
            assert(path@.take(count + 1).last() == c);
        }
        if c == ':' {
            colon = Some(count);
        }
        count += 1;
    }
    proof {
        assert(path@.take(count as int) =~= path@);
        lemma_last_colon(path@);
        assert(path@.subrange(0, last_colon(path@)) =~= path@.take(last_colon(path@)));
        assert(path@.subrange(last_colon(path@) + 1, n as int) =~= path@.skip(
            last_colon(path@) + 1,
        ));
    }
    match colon {
        Some(at) => Some((path.substring_char(0, at), path.substring_char(at + 1, n))),
        None => None,
    }
}

} // verus!
