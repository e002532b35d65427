# xmpkit

Serializes XMP metadata, a tree of texts, arrays and structures, to RDF/XML and to
packets, with contracts that say which characters come out for every tree and which
error comes up where a tree cannot be written.

- `src/node.rs`, `src/namespace.rs`, `src/ns.rs`, `src/error.rs`: the data that goes in,
  the prefixes of namespaces, and the errors that come out.
- `src/path.rs`, `src/rdf.rs`, `src/markup.rs`: what a tree becomes, first as tags and
  texts, then as characters.
- `src/serializer.rs`: the serializer, proved to give just that.
- `src/xml.rs`, `src/used.rs`: the calls into `quick-xml` and `indexmap`, with what is
  taken for granted of them.
- `src/laws/`: what holds of every document and every packet: tags nest, values cannot be
  taken for markup, fields keep their order, packets have the size that was asked for.
  Names stand in declared namespaces too, unless a serializer is given another prefix for
  a standard namespace that the document uses: such a namespace is declared with its
  standard prefix alone.
- `app/`: a registry of namespaces for the whole process.
