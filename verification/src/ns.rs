//! The URIs of well-known namespaces.
use vstd::prelude::*;

verus! {

/// The namespace of the attributes that every XML document has.
pub const XML: &'static str = "http://www.w3.org/XML/1998/namespace";

/// RDF syntax.
pub const RDF: &'static str = "http://www.w3.org/1999/02/22-rdf-syntax-ns#";

/// XMP basic properties.
pub const XMP: &'static str = "http://ns.adobe.com/xap/1.0/";

/// Dublin Core properties.
pub const DC: &'static str = "http://purl.org/dc/elements/1.1/";

/// Exif properties.
pub const EXIF: &'static str = "http://ns.adobe.com/exif/1.0/";

} // verus!
