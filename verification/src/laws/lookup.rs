//! Which property a path names.
use crate::path::{is_property, is_property_name, last_colon, resolve, Names, Property};
use vstd::prelude::*;

verus! {

proof fn lemma_last_colon_found(uri: Seq<char>, name: Seq<char>)
    requires
        !name.contains(':'),
    ensures
        last_colon(uri + seq![':'] + name) == uri.len(),
    decreases name.len(),
{
    let path = uri + seq![':'] + name;
    if name.len() == 0 {
        assert(path.last() == ':');
    } else {
        let rest = name.drop_last();
        assert(name[name.len() - 1] != ':');
        assert(path.last() == name.last());
        assert(path.drop_last() =~= uri + seq![':'] + rest);
        assert(!rest.contains(':')) by {
            assert forall|i: int| 0 <= i < rest.len() implies rest[i] != ':' by {
                assert(name[i] == rest[i]);
            }
        }
        lemma_last_colon_found(uri, rest);
    }
}

/// A path names the property that it was put together for, whatever colons the URI of the
/// namespace holds.
pub proof fn law_path_names_property(names: Names, uri: Seq<char>, name: Seq<char>)
    requires
        !name.contains(':'),
    ensures
        resolve(names, uri + ":"@ + name) == match names.prefix(uri) {
            Some(prefix) => Some(Property { prefix, name, uri }),
            None => None,
        },
{
    let path = uri + ":"@ + name;
    reveal_strlit(":");
    assert(":"@ =~= seq![':']);
    lemma_last_colon_found(uri, name);
    assert(path.take(uri.len() as int) =~= uri);
    assert(path.skip(uri.len() as int + 1) =~= name);
}

proof fn lemma_last_colon_splits(path: Seq<char>)
    requires
        last_colon(path) >= 0,
    ensures
        last_colon(path) < path.len(),
        path[last_colon(path)] == ':',
        forall|i: int| last_colon(path) < i < path.len() ==> path[i] != ':',
    decreases path.len(),
{
    if path.last() != ':' {
        let rest = path.drop_last();
        lemma_last_colon_splits(rest);
        assert forall|i: int| last_colon(path) < i < path.len() implies path[i] != ':' by {
            if i < rest.len() {
                assert(path[i] == rest[i]);
            }
        }
    }
}

/// Nothing of a path is lost: the URI, a colon and the name of the property that it names
/// make it up again, and the name holds no colon.
pub proof fn law_property_names_path(names: Names, path: Seq<char>)
    requires
        resolve(names, path) is Some,
    ensures
        (resolve(names, path)->0).uri + ":"@ + (resolve(names, path)->0).name == path,
        !(resolve(names, path)->0).name.contains(':'),
{
    let colon = last_colon(path);
    let property = resolve(names, path)->0;
    lemma_last_colon_splits(path);
    reveal_strlit(":");
    assert(property.uri + ":"@ + property.name =~= path);
    assert forall|i: int| 0 <= i < property.name.len() implies property.name[i] != ':' by {
        assert(property.name[i] == path[colon + 1 + i]);
    }
}

/// A serializer's own prefix for a namespace counts, whatever the registry says.
pub proof fn law_own_namespaces_come_first(
    namespaces: Map<Seq<char>, Seq<char>>,
    registry: Map<Seq<char>, Seq<char>>,
    uri: Seq<char>,
)
    requires
        namespaces.contains_key(uri),
    ensures
        (Names { namespaces, registry }).prefix(uri) == Some(namespaces[uri]),
{
}

/// The registry's prefix counts for a namespace of which the serializer's own map says
/// nothing.
pub proof fn law_registry_comes_next(
    namespaces: Map<Seq<char>, Seq<char>>,
    registry: Map<Seq<char>, Seq<char>>,
    uri: Seq<char>,
)
    requires
        !namespaces.contains_key(uri),
        registry.contains_key(uri),
    ensures
        (Names { namespaces, registry }).prefix(uri) == Some(registry[uri]),
{
}

/// A namespace that neither the serializer's own map nor the registry knows gets no
/// prefix: none is made up from its URI.
pub proof fn law_no_prefix_is_made_up(
    namespaces: Map<Seq<char>, Seq<char>>,
    registry: Map<Seq<char>, Seq<char>>,
    uri: Seq<char>,
)
    requires
        !namespaces.contains_key(uri),
        !registry.contains_key(uri),
    ensures
        (Names { namespaces, registry }).prefix(uri) is None,
{
}

/// The prefix and the name of a property are what is looked up with its namespace, without
/// the namespace; one look-up finds nothing exactly where the other does.
pub proof fn law_name_is_property_without_uri(
    names: Names,
    path: Seq<char>,
    property: Option<(String, String, String)>,
    name: Option<(String, String)>,
)
    requires
        is_property(names, path, property),
        is_property_name(names, path, name),
    ensures
        name is None <==> property is None,
        match (property, name) {
            (Some((prefix, local, _)), Some((same_prefix, same_local))) => {
                prefix@ == same_prefix@ && local@ == same_local@
            },
            _ => true,
        },
{
}

/// A path without a colon names nothing.
pub proof fn law_path_needs_a_colon(names: Names, path: Seq<char>)
    requires
        !path.contains(':'),
    ensures
        resolve(names, path) is None,
{
    if last_colon(path) >= 0 {
        lemma_last_colon_splits(path);
        assert(path.contains(path[last_colon(path)]));
    }
}

} // verus!
