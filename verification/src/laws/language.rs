//! Texts in a given language.
use crate::node::{NodeView, QualifierView, SimpleView};
use crate::rdf::{has_language, is_element, is_language, language_attributes};
use vstd::prelude::*;

verus! {

/// Some qualifier names a language exactly where there are attributes for languages.
pub proof fn law_language_has_attribute(qualifiers: Seq<QualifierView>)
    ensures
        has_language(qualifiers) <==> language_attributes(qualifiers).len() > 0,
    decreases qualifiers.len(),
{
    if qualifiers.len() > 0 {
        let rest = qualifiers.drop_last();
        law_language_has_attribute(rest);
        if is_language(qualifiers.last()) {
            assert(is_language(qualifiers[qualifiers.len() - 1]));
        } else if has_language(qualifiers) {
            let i = choose|i: int|
                0 <= i < qualifiers.len() && is_language(#[trigger] qualifiers[i]);
            assert(rest[i] == qualifiers[i]);
        } else if has_language(rest) {
            let i = choose|i: int| 0 <= i < rest.len() && is_language(#[trigger] rest[i]);
            assert(qualifiers[i] == rest[i]);
        }
    }
}

/// A text is an element exactly where it has attributes for languages. Neither the path
/// that it stands under nor the namespaces at hand matter.
pub proof fn law_text_is_element_with_language(simple: SimpleView)
    ensures
        is_element(NodeView::Simple(simple)) <==> language_attributes(simple.qualifiers).len() > 0,
{
    law_language_has_attribute(simple.qualifiers);
}

} // verus!
