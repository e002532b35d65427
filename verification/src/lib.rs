//! XMP metadata as RDF/XML: a tree of values, arrays and structures is written as a
//! document, and the document is framed as a packet, at its own size or padded to a
//! given one.
//!
//! [`rdf`] and [`markup`] say what the output is, [`serializer`] writes it, and [`laws`]
//! states what holds of every document and every packet.
use vstd::prelude::*;

pub mod error;
pub mod laws;
pub mod markup;
pub mod namespace;
pub mod node;
pub mod ns;
pub mod ordered;
pub mod path;
pub mod rdf;
pub mod serializer;
pub mod text;
pub mod used;
pub mod xml;

verus! {

} // verus!
