//! Serializing XMP data to RDF/XML and to packets.
use crate::error::{ErrorKind, XmpError, XmpResult};
use crate::markup::Markup;
use crate::namespace::{standard_namespaces, NamespaceMap};
use crate::node::{ArrayNode, ArrayType, Node, NodeView, Qualifier, SimpleNode, StructureNode};
use crate::ns;
use crate::path::{is_property, is_property_name, resolve, split_at_last_colon, Names};
use crate::rdf::{always_declared, attributes, container, declarations, description_attributes};
use crate::rdf::{description_outcome, document_outcome, elements, elements_outcome};
use crate::rdf::{fields_namespaces, fixed_declarations, is_element, is_language, item_outcome};
use crate::rdf::{items_namespaces, items_outcome, language_attributes, lemma_packet_size};
use crate::rdf::{meta_attributes, more_declarations, node_namespaces, node_outcome, packet_result};
use crate::rdf::{packet_text, padded_result, rdf_result, result_view, start, Outcome};
use crate::text::{append_blanks, byte_len, decimal_text, same_text};
use crate::used::{entries, entry_count, get_index, insert, new_map};
use crate::xml::{pairs, XmlWriter};
use indexmap::IndexMap;
use vstd::prelude::*;
use vstd::string::*;

verus! {

/// The fields of a structure, parted into those that are written as attributes, and
/// those that are written as elements.
struct ParsedNode<'a> {
    simple_attrs: Vec<(String, String)>,
    complex_nodes: Vec<(&'a String, &'a Node)>,
}

impl<'a> ParsedNode<'a> {
    /// Whether these are the attributes and the elements of a structure.
    spec fn parts(self, names: Names, node: StructureNode) -> bool {
        &&& pairs(self.simple_attrs@) == attributes(names, node@)
        &&& named(self.complex_nodes@) == elements(node@)
        &&& forall|j: int|
            0 <= j < self.complex_nodes@.len() ==> exists|i: int|
                0 <= i < node.fields@.len() && #[trigger] node.fields@[i].1
                    == *(#[trigger] self.complex_nodes@[j]).1
    }
}

/// Serializer for XMP packets.
pub struct XmpSerializer {
    namespaces: NamespaceMap,
    registry: NamespaceMap,
}

impl View for XmpSerializer {
    type V = Names;

    closed spec fn view(&self) -> Names {
        Names { namespaces: self.namespaces@, registry: self.registry@ }
    }
}

/// The characters of a list of named nodes.
spec fn named(v: Seq<(&String, &Node)>) -> Seq<(Seq<char>, NodeView)> {
    Seq::new(v.len(), |i: int| (v[i].0@, v[i].1@))
}

/// Whether a call that found `before` and left `after` came to `outcome`.
spec fn came_to(
    before: Seq<Markup>,
    after: Seq<Markup>,
    r: XmpResult<()>,
    outcome: Outcome,
) -> bool {
    &&& after =~= before + outcome.pieces
    &&& match r {
        Ok(_) => outcome.failure is None,
        Err(e) => outcome.failure == Some(e@),
    }
}

/// The elements of a list, one after the other.
spec fn list_outcome(names: Names, list: Seq<(Seq<char>, NodeView)>) -> Outcome
    decreases list.len(),
{
    if list.len() == 0 {
        Outcome::wrote(Seq::empty())
    } else {
        list_outcome(names, list.drop_last()).then_write(
            node_outcome(names, list.last().0, list.last().1),
        )
    }
}

/// The elements among some fields, taken as a list, come to the same.
proof fn lemma_list_outcome(names: Names, fields: Seq<(Seq<char>, NodeView)>)
    ensures
        list_outcome(names, elements(fields)) == elements_outcome(names, fields),
    decreases fields.len(),
{
    if fields.len() > 0 {
        let rest = fields.drop_last();
        lemma_list_outcome(names, rest);
        if is_element(fields.last().1) {
            assert(elements(rest).push(fields.last()).drop_last() =~= elements(rest));
        }
    }
}

/// An error ends a list.
proof fn lemma_list_ends(names: Names, list: Seq<(Seq<char>, NodeView)>, k: int)
    requires
        0 <= k <= list.len(),
        list_outcome(names, list.take(k)).failure is Some,
    ensures
        list_outcome(names, list) == list_outcome(names, list.take(k)),
    decreases list.len(),
{
    if k == list.len() {
        assert(list.take(k) =~= list);
    } else {
        assert(list.drop_last().take(k) =~= list.take(k));
        lemma_list_ends(names, list.drop_last(), k);
    }
}

/// An error ends an array.
proof fn lemma_items_end(names: Names, items: Seq<NodeView>, k: int)
    requires
        0 <= k <= items.len(),
        items_outcome(names, items.take(k)).failure is Some,
    ensures
        items_outcome(names, items) == items_outcome(names, items.take(k)),
    decreases items.len(),
{
    if k == items.len() {
        assert(items.take(k) =~= items);
    } else {
        assert(items.drop_last().take(k) =~= items.take(k));
        lemma_items_end(names, items.drop_last(), k);
    }
}

impl XmpSerializer {
    /// A serializer without namespaces of its own. It knows the standard namespaces, and
    /// none that a program registers for itself: a registry of those is handed in with
    /// [`XmpSerializer::with_registry`], as it is when the serializer is made.
    pub fn new() -> (r: XmpSerializer)
        ensures
            r@ == (Names { namespaces: Map::empty(), registry: standard_namespaces() }),
    {
        XmpSerializer { namespaces: NamespaceMap::new(), registry: NamespaceMap::standard() }
    }

    /// A serializer with namespaces of its own. Of the others it knows the standard ones,
    /// and none that a program registers for itself: a registry of those is handed in with
    /// [`XmpSerializer::with_registry`], as it is when the serializer is made.
    pub fn with_namespaces(namespaces: NamespaceMap) -> (r: XmpSerializer)
        ensures
            r@ == (Names { namespaces: namespaces@, registry: standard_namespaces() }),
    {
        XmpSerializer { namespaces, registry: NamespaceMap::standard() }
    }

    /// A serializer with namespaces of its own, and a registry to ask for the others in
    /// place of the standard one. The registry is the one at hand when the serializer is
    /// made: where namespaces are registered later, a new serializer knows them.
    pub fn with_registry(namespaces: NamespaceMap, registry: NamespaceMap) -> (r: XmpSerializer)
        ensures
            r@ == (Names { namespaces: namespaces@, registry: registry@ }),
    {
        XmpSerializer { namespaces, registry }
    }

    /// Serializes a structure to RDF/XML.
    pub fn serialize_rdf(&self, root: &StructureNode) -> (r: XmpResult<String>)
        ensures
            result_view(r) == rdf_result(self@, root@),
    {
        let mut writer: XmlWriter = XmlWriter::new();
        let mut used: IndexMap<String, String> = new_map();
        self.collect_field_namespaces(root, &mut used);
        let parsed: ParsedNode<'_> = self.parse_structure_node(root);

        let meta: Vec<(String, String)> = meta_attribute_list();
        writer.start("x:xmpmeta", &meta)?;
        let declared: Vec<(String, String)> = declaration_list(&used);
        writer.start("rdf:RDF", &declared)?;
        let ghost before = writer@;
        let written: XmpResult<()> = self.serialize_description(&mut writer, root, &parsed);
        proof {
            assert(before =~= seq![
                start("x:xmpmeta"@, meta_attributes()),
                start("rdf:RDF"@, declarations(self@, root@)),
            ]);
        }
        if let Err(e) = written {
            return Err(e);
        }
        writer.end("rdf:RDF")?;
        writer.end("x:xmpmeta")?;
        assert(writer@ =~= document_outcome(self@, root@).pieces);
        writer.finish()
    }

    /// Writes the element that describes the resource.
    fn serialize_description(
        &self,
        writer: &mut XmlWriter,
        root: &StructureNode,
        parsed: &ParsedNode<'_>,
    ) -> (r: XmpResult<()>)
        requires
            old(writer).wf(),
            parsed.parts(self@, *root),
        ensures
            final(writer).wf(),
            came_to(old(writer)@, final(writer)@, r, description_outcome(self@, root@)),
    {
        let mut attributes: Vec<(String, String)> = Vec::new();
        attributes.push(("rdf:about".to_owned(), "".to_owned()));
        let mut i: usize = 0;
        while i < parsed.simple_attrs.len()
            invariant
                i <= parsed.simple_attrs@.len(),
                pairs(attributes@) =~= seq![("rdf:about"@, ""@)] + pairs(parsed.simple_attrs@).take(
                    i as int,
                ),
            decreases parsed.simple_attrs@.len() - i,
        {
            let attribute: &(String, String) = &parsed.simple_attrs[i];
            let ghost before = pairs(attributes@);
            attributes.push((attribute.0.clone(), attribute.1.clone()));
            assert(pairs(attributes@) =~= before.push((attribute.0@, attribute.1@)));
            i += 1;
        }
        assert(pairs(attributes@) =~= description_attributes(self@, root@));
        if parsed.complex_nodes.len() == 0 {
            return writer.empty("rdf:Description", &attributes);
        }
        writer.start("rdf:Description", &attributes)?;
        if let Err(e) = self.serialize_elements(writer, root, parsed) {
            return Err(e.enclosed());
        }
        writer.end("rdf:Description")
    }

    /// Serializes a structure to a packet.
    pub fn serialize_packet(&self, root: &StructureNode) -> (r: XmpResult<String>)
        ensures
            result_view(r) == packet_result(self@, root@),
    {
        let rdf: String = match self.serialize_rdf(root) {
            Ok(rdf) => rdf,
            Err(e) => return Err(e),
        };
        Ok(packet(rdf.as_str(), 0))
    }

    /// Serializes a structure to a packet of `target_length` bytes: blanks before the
    /// packet's end make up for what is missing. A packet that is longer without them is
    /// an error. A packet that is made must not be larger than a string can be.
    pub fn serialize_packet_with_padding(&self, root: &StructureNode, target_length: usize) -> (r:
        XmpResult<String>)
        requires
            padded_result(self@, root@, target_length as nat) is Ok ==> target_length <= isize::MAX,
        ensures
            result_view(r) == padded_result(self@, root@, target_length as nat),
            r matches Ok(s) ==> byte_len(s@) == target_length,
    {
        let rdf: String = match self.serialize_rdf(root) {
            Ok(rdf) => rdf,
            Err(e) => return Err(e),
        };
        let header: &str = PACKET_HEADER;
        let trailer: &str = PACKET_TRAILER;
        let min_length: u128 = header.as_bytes().len() as u128 + 1 + rdf.as_str().as_bytes().len()
            as u128 + 1 + trailer.as_bytes().len() as u128;
        proof {
            lemma_packet_size(rdf@, 0);
        }
        if min_length > target_length as u128 {
            let mut message: String = "XMP packet minimum size (".to_owned();
            message.append(decimal_text(min_length).as_str());
            message.append(") exceeds target length (");
            message.append(decimal_text(target_length as u128).as_str());
            message.append(")");
            return Err(XmpError::BadValue(message));
        }
        let padding: usize = target_length - min_length as usize;
        proof {
            lemma_packet_size(rdf@, padding as nat);
        }
        Ok(packet(rdf.as_str(), padding))
    }

    /// The prefix, the name and the namespace of the property that a path names.
    fn parse_path_with_namespace(&self, path: &str) -> (r: Option<(String, String, String)>)
        ensures
            is_property(self@, path@, r),
    {
        let (uri, name): (&str, &str) = match split_at_last_colon(path) {
            Some(parts) => parts,
            None => return None,
        };
        if let Some(prefix) = self.namespaces.get_prefix(uri) {
            return Some((prefix.to_owned(), name.to_owned(), uri.to_owned()));
        }
        if let Some(prefix) = self.registry.get_prefix(uri) {
            return Some((prefix.to_owned(), name.to_owned(), uri.to_owned()));
        }
        None
    }

    /// The name under which the property that a path names is written.
    fn qualified_name(&self, path: &str) -> (r: XmpResult<String>)
        ensures
            match (r, resolve(self@, path@)) {
                (Ok(name), Some(property)) => name@ == property.qualified(),
                (Err(e), None) => Some(e@) == Outcome::failed(
                    ErrorKind::BadXPath,
                    "Invalid path format: "@ + path@,
                ).failure,
                _ => false,
            },
    {
        match self.parse_path(path) {
            Some((prefix, name)) => Ok(join_name(prefix, name.as_str())),
            None => {
                let mut message: String = "Invalid path format: ".to_owned();
                message.append(path);
                Err(XmpError::BadXPath(message))
            },
        }
    }

    /// The prefix and the name of the property that a path names.
    fn parse_path(&self, path: &str) -> (r: Option<(String, String)>)
        ensures
            is_property_name(self@, path@, r),
    {
        match self.parse_path_with_namespace(path) {
            Some((prefix, name, _)) => Some((prefix, name)),
            None => None,
        }
    }

    /// Whether a field with this node is written as an element.
    fn should_serialize_as_element(&self, node: &Node) -> (r: bool)
        ensures
            r == is_element(node@),
    {
        let simple: &SimpleNode = match node {
            Node::Simple(simple) => simple,
            _ => return true,
        };
        let mut i: usize = 0;
        while i < simple.qualifiers.len()
            invariant
                node@ == NodeView::Simple(simple@),
                i <= simple.qualifiers@.len(),
                forall|j: int| 0 <= j < i ==> !is_language(#[trigger] simple@.qualifiers[j]),
            decreases simple.qualifiers@.len() - i,
        {
            assert(simple@.qualifiers[i as int] == simple.qualifiers@[i as int]@);
            if is_language_qualifier(&simple.qualifiers[i]) {
                return true;
            }
            i += 1;
        }
        false
    }

    /// The attributes for the languages that a text's qualifiers name.
    fn get_lang_qualifier_attributes(node: &SimpleNode) -> (r: Vec<(String, String)>)
        ensures
            pairs(r@) == language_attributes(node@.qualifiers),
    {
        let mut r: Vec<(String, String)> = Vec::new();
        let mut i: usize = 0;
        assert(pairs(r@) =~= language_attributes(node@.qualifiers.take(0)));
        while i < node.qualifiers.len()
            invariant
                i <= node.qualifiers@.len(),
                pairs(r@) == language_attributes(node@.qualifiers.take(i as int)),
            decreases node.qualifiers@.len() - i,
        {
            let ghost before = r@;
            if is_language_qualifier(&node.qualifiers[i]) {
                r.push(("xml:lang".to_owned(), node.qualifiers[i].value.clone()));
                assert(pairs(r@) =~= pairs(before).push(
                    ("xml:lang"@, node.qualifiers@[i as int].value@),
                ));
            }
            proof {
                let all = node@.qualifiers;
                assert(all.take(i + 1).drop_last() =~= all.take(i as int));
                assert(all.take(i + 1).last() == node.qualifiers@[i as int]@);
            }
            i += 1;
        }
        assert(node@.qualifiers.take(i as int) =~= node@.qualifiers);
        r
    }

    /// Parts the fields of a structure into attributes and elements.
    fn parse_structure_node<'a>(&self, node: &'a StructureNode) -> (r: ParsedNode<'a>)
        ensures
            r.parts(self@, *node),
    {
        let mut simple_attrs: Vec<(String, String)> = Vec::new();
        let mut complex_nodes: Vec<(&'a String, &'a Node)> = Vec::new();
        let mut i: usize = 0;
        assert(pairs(simple_attrs@) =~= attributes(self@, node@.take(0)));
        assert(named(complex_nodes@) =~= elements(node@.take(0)));
        while i < node.fields.len()
            invariant
                i <= node.fields@.len(),
                pairs(simple_attrs@) == attributes(self@, node@.take(i as int)),
                named(complex_nodes@) == elements(node@.take(i as int)),
                forall|j: int|
                    0 <= j < complex_nodes@.len() ==> exists|k: int|
                        0 <= k < node.fields@.len() && #[trigger] node.fields@[k].1
                            == *(#[trigger] complex_nodes@[j]).1,
            decreases node.fields@.len() - i,
        {
            let ghost attrs_before = simple_attrs@;
            let ghost nodes_before = complex_nodes@;
            let field: &'a (String, Node) = &node.fields[i];
            proof {
                assert(node@.take(i + 1).drop_last() =~= node@.take(i as int));
                assert(node@.take(i + 1).last() == (field.0@, field.1@));
            }
            if self.should_serialize_as_element(&field.1) {
                complex_nodes.push((&field.0, &field.1));
                assert(named(complex_nodes@) =~= named(nodes_before).push((field.0@, field.1@)));
                assert(node.fields@[i as int].1 == *complex_nodes@.last().1);
            } else if let Some((prefix, name)) = self.parse_path(field.0.as_str()) {
                if let Node::Simple(simple) = &field.1 {
                    let attribute: (String, String) = (
                        join_name(prefix, name.as_str()),
                        simple.value.clone(),
                    );
                    simple_attrs.push(attribute);
                    assert(pairs(simple_attrs@) =~= pairs(attrs_before).push(
                        (attribute.0@, attribute.1@),
                    ));
                }
            }
            i += 1;
        }
        assert(node@.take(i as int) =~= node@);
        ParsedNode { simple_attrs, complex_nodes }
    }

    /// Writes a field as an element.
    fn serialize_node(&self, writer: &mut XmlWriter, path: &str, node: &Node) -> (r: XmpResult<()>)
        requires
            old(writer).wf(),
        ensures
            final(writer).wf(),
            came_to(old(writer)@, final(writer)@, r, node_outcome(self@, path@, node@)),
        decreases node, 0nat,
    {
        match node {
            Node::Simple(simple) => self.serialize_simple_node(writer, path, simple),
            Node::Array(array) => self.serialize_array_node(writer, path, array),
            Node::Structure(structure) => self.serialize_structure_node(writer, path, structure),
        }
    }

    /// Writes a text as an element.
    fn serialize_simple_node(
        &self,
        writer: &mut XmlWriter,
        path: &str,
        node: &SimpleNode,
    ) -> (r: XmpResult<()>)
        requires
            old(writer).wf(),
        ensures
            final(writer).wf(),
            came_to(
                old(writer)@,
                final(writer)@,
                r,
                node_outcome(self@, path@, NodeView::Simple(node@)),
            ),
    {
        let name: String = match self.qualified_name(path) {
            Ok(name) => name,
            Err(e) => return Err(e),
        };
        let attributes: Vec<(String, String)> = Self::get_lang_qualifier_attributes(node);
        writer.start(name.as_str(), &attributes)?;
        writer.text(node.value.as_str())?;
        writer.end(name.as_str())
    }

    /// Writes an array as an element.
    fn serialize_array_node(
        &self,
        writer: &mut XmlWriter,
        path: &str,
        node: &ArrayNode,
    ) -> (r: XmpResult<()>)
        requires
            old(writer).wf(),
        ensures
            final(writer).wf(),
            came_to(
                old(writer)@,
                final(writer)@,
                r,
                node_outcome(self@, path@, NodeView::Array(node.array_type, node@)),
            ),
        decreases node, 0nat,
    {
        let name: String = match self.qualified_name(path) {
            Ok(name) => name,
            Err(e) => return Err(e),
        };
        let list: &str = match node.array_type {
            ArrayType::Ordered => "rdf:Seq",
            ArrayType::Unordered => "rdf:Bag",
            ArrayType::Alternative => "rdf:Alt",
        };
        let none: Vec<(String, String)> = Vec::new();
        assert(pairs(none@) =~= Seq::<(Seq<char>, Seq<char>)>::empty());
        writer.start(name.as_str(), &none)?;
        if node.items.len() > 0 {
            writer.start(list, &none)?;
            let ghost before = writer@;
            let mut i: usize = 0;
            assert(node@.take(0) =~= Seq::<NodeView>::empty());
            while i < node.items.len()
                invariant
                    writer.wf(),
                    i <= node.items@.len(),
                    came_to(before, writer@, Ok(()), items_outcome(self@, node@.take(i as int))),
                    before == old(writer)@ + seq![
                        start(name@, Seq::empty()),
                        start(list@, Seq::empty()),
                    ],
                    list@ == container(node.array_type),
                    resolve(self@, path@) matches Some(property) && name@ == property.qualified(),
                decreases node.items@.len() - i,
            {
                proof {
                    assert(node@.take(i + 1).drop_last() =~= node@.take(i as int));
                    assert(node@.take(i + 1).last() == node.items@[i as int]@);
                }
                if let Err(e) = self.serialize_array_item(writer, &node.items[i]) {
                    proof {
                        lemma_items_end(self@, node@, i + 1);
                    }
                    return Err(e);
                }
                i += 1;
            }
            assert(node@.take(i as int) =~= node@);
            writer.end(list)?;
        } else {
            writer.empty(list, &none)?;
        }
        writer.end(name.as_str())
    }

    /// Writes an item of an array.
    fn serialize_array_item(&self, writer: &mut XmlWriter, item: &Node) -> (r: XmpResult<()>)
        requires
            old(writer).wf(),
        ensures
            final(writer).wf(),
            came_to(old(writer)@, final(writer)@, r, item_outcome(self@, item@)),
        decreases item, 0nat,
    {
        match item {
            Node::Simple(simple) => {
                let attributes: Vec<(String, String)> = Self::get_lang_qualifier_attributes(simple);
                writer.start("rdf:li", &attributes)?;
                writer.text(simple.value.as_str())?;
                writer.end("rdf:li")
            },
            Node::Structure(structure) => {
                self.serialize_structure_node_array_item(writer, structure)
            },
            Node::Array(_) => {
                Err(XmpError::NotSupported("Nested arrays not yet supported".to_owned()))
            },
        }
    }

    /// Writes a structure as an item of an array.
    fn serialize_structure_node_array_item(
        &self,
        writer: &mut XmlWriter,
        node: &StructureNode,
    ) -> (r: XmpResult<()>)
        requires
            old(writer).wf(),
        ensures
            final(writer).wf(),
            came_to(
                old(writer)@,
                final(writer)@,
                r,
                item_outcome(self@, NodeView::Structure(node@)),
            ),
        decreases node, 1nat,
    {
        let parsed: ParsedNode<'_> = self.parse_structure_node(node);
        if parsed.complex_nodes.len() == 0 {
            return writer.empty("rdf:li", &parsed.simple_attrs);
        }
        let none: Vec<(String, String)> = Vec::new();
        assert(pairs(none@) =~= Seq::<(Seq<char>, Seq<char>)>::empty());
        writer.start("rdf:li", &none)?;
        writer.start("rdf:Description", &parsed.simple_attrs)?;
        if let Err(e) = self.serialize_elements(writer, node, &parsed) {
            return Err(e.enclosed());
        }
        writer.end("rdf:Description")?;
        writer.end("rdf:li")
    }

    /// Writes a structure as an element.
    fn serialize_structure_node(
        &self,
        writer: &mut XmlWriter,
        path: &str,
        node: &StructureNode,
    ) -> (r: XmpResult<()>)
        requires
            old(writer).wf(),
        ensures
            final(writer).wf(),
            came_to(
                old(writer)@,
                final(writer)@,
                r,
                node_outcome(self@, path@, NodeView::Structure(node@)),
            ),
        decreases node, 1nat,
    {
        let name: String = match self.qualified_name(path) {
            Ok(name) => name,
            Err(e) => return Err(e),
        };
        let parsed: ParsedNode<'_> = self.parse_structure_node(node);
        if parsed.complex_nodes.len() == 0 {
            return writer.empty(name.as_str(), &parsed.simple_attrs);
        }
        writer.start(name.as_str(), &parsed.simple_attrs)?;
        if let Err(e) = self.serialize_elements(writer, node, &parsed) {
            return Err(e.enclosed());
        }
        writer.end(name.as_str())
    }

    /// Writes the fields of a structure that are elements.
    fn serialize_elements(
        &self,
        writer: &mut XmlWriter,
        node: &StructureNode,
        parsed: &ParsedNode<'_>,
    ) -> (r: XmpResult<()>)
        requires
            old(writer).wf(),
            parsed.parts(self@, *node),
        ensures
            final(writer).wf(),
            came_to(old(writer)@, final(writer)@, r, elements_outcome(self@, node@)),
        decreases node, 0nat,
    {
        let ghost list = named(parsed.complex_nodes@);
        let mut i: usize = 0;
        assert(list.take(0) =~= Seq::<(Seq<char>, NodeView)>::empty());
        proof {
            lemma_list_outcome(self@, node@);
        }
        while i < parsed.complex_nodes.len()
            invariant
                writer.wf(),
                i <= parsed.complex_nodes@.len(),
                list == named(parsed.complex_nodes@),
                list_outcome(self@, list) == elements_outcome(self@, node@),
                came_to(old(writer)@, writer@, Ok(()), list_outcome(self@, list.take(i as int))),
                forall|j: int|
                    0 <= j < parsed.complex_nodes@.len() ==> exists|k: int|
                        0 <= k < node.fields@.len() && #[trigger] node.fields@[k].1
                            == *(#[trigger] parsed.complex_nodes@[j]).1,
            decreases parsed.complex_nodes@.len() - i,
        {
            let (path, element): (&String, &Node) = parsed.complex_nodes[i];
            proof {
                assert(list.take(i + 1).drop_last() =~= list.take(i as int));
                assert(list.take(i + 1).last() == (path@, element@));
                let k = choose|k: int|
                    0 <= k < node.fields@.len() && #[trigger] node.fields@[k].1
                        == *parsed.complex_nodes@[i as int].1;
                assert(decreases_to!(node => node.fields@[k].1));
            }
            if let Err(e) = self.serialize_node(writer, path.as_str(), element) {
                proof {
                    lemma_list_ends(self@, list, i + 1);
                }
                return Err(e);
            }
            i += 1;
        }
        assert(list.take(i as int) =~= list);
        Ok(())
    }

    /// Puts the namespaces of what is in a node into `used`.
    fn collect_namespaces(&self, node: &Node, used: &mut IndexMap<String, String>)
        ensures
            entries(*final(used)) == node_namespaces(self@, node@, entries(*old(used))),
        decreases node, 0nat,
    {
        match node {
            Node::Simple(_) => {},
            Node::Array(array) => {
                let mut i: usize = 0;
                assert(array@.take(0) =~= Seq::<NodeView>::empty());
                while i < array.items.len()
                    invariant
                        i <= array.items@.len(),
                        decreases_to!(node => array),
                        entries(*used) == items_namespaces(
                            self@,
                            array@.take(i as int),
                            entries(*old(used)),
                        ),
                    decreases array.items@.len() - i,
                {
                    proof {
                        assert(array@.take(i + 1).drop_last() =~= array@.take(i as int));
                        assert(array@.take(i + 1).last() == array.items@[i as int]@);
                    }
                    self.collect_namespaces(&array.items[i], used);
                    i += 1;
                }
                assert(array@.take(i as int) =~= array@);
            },
            Node::Structure(structure) => {
                self.collect_field_namespaces(structure, used);
            },
        }
    }

    /// Puts the namespaces of a structure's fields, and of what is in them, into `used`.
    fn collect_field_namespaces(
        &self,
        structure: &StructureNode,
        used: &mut IndexMap<String, String>,
    )
        ensures
            entries(*final(used)) == fields_namespaces(self@, structure@, entries(*old(used))),
        decreases structure, 0nat,
    {
        let mut i: usize = 0;
        assert(structure@.take(0) =~= Seq::<(Seq<char>, NodeView)>::empty());
        while i < structure.fields.len()
            invariant
                i <= structure.fields@.len(),
                entries(*used) == fields_namespaces(
                    self@,
                    structure@.take(i as int),
                    entries(*old(used)),
                ),
            decreases structure.fields@.len() - i,
        {
            proof {
                assert(structure@.take(i + 1).drop_last() =~= structure@.take(i as int));
                assert(structure@.take(i + 1).last() == (
                    structure.fields@[i as int].0@,
                    structure.fields@[i as int].1@,
                ));
                assert(decreases_to!(structure => structure.fields@[i as int].1));
            }
            let field: &(String, Node) = &structure.fields[i];
            if let Some((prefix, _, uri)) = self.parse_path_with_namespace(field.0.as_str()) {
                insert(used, uri, prefix);
            }
            self.collect_namespaces(&field.1, used);
            i += 1;
        }
        assert(structure@.take(i as int) =~= structure@);
    }
}

impl Default for XmpSerializer {
    /// As [`XmpSerializer::new`]: a serializer that knows the standard namespaces alone.
    fn default() -> (r: XmpSerializer)
        ensures
            r@ == (Names { namespaces: Map::empty(), registry: standard_namespaces() }),
    {
        XmpSerializer::new()
    }
}

/// What a packet starts with.
const PACKET_HEADER: &'static str = "<?xpacket begin=\"\" id=\"W5M0MpCehiHzreSzNTczkc9d\"?>";

/// What a packet ends with.
const PACKET_TRAILER: &'static str = "<?xpacket end=\"w\"?>";

/// A packet around `rdf`, with `padding` blanks before its end.
fn packet(rdf: &str, padding: usize) -> (r: String)
    ensures
        r@ == packet_text(rdf@, padding as nat),
{
    let mut r: String = PACKET_HEADER.to_owned();
    r.append("\n");
    r.append(rdf);
    r.append("\n");
    append_blanks(&mut r, padding);
    r.append(PACKET_TRAILER);
    r
}

/// The attributes of the outermost element.
fn meta_attribute_list() -> (r: Vec<(String, String)>)
    ensures
        pairs(r@) == meta_attributes(),
{
    let mut r: Vec<(String, String)> = Vec::new();
    r.push(("xmlns:x".to_owned(), "adobe:ns:meta/".to_owned()));
    r.push(("x:xmptk".to_owned(), "xmpkit".to_owned()));
    assert(pairs(r@) =~= meta_attributes());
    r
}

/// The declarations of the namespaces that every document has, and of those in use.
fn declaration_list(used: &IndexMap<String, String>) -> (r: Vec<(String, String)>)
    ensures
        pairs(r@) == fixed_declarations() + more_declarations(entries(*used)),
{
    let mut r: Vec<(String, String)> = Vec::new();
    r.push(("xmlns:rdf".to_owned(), ns::RDF.to_owned()));
    r.push(("xmlns:xmp".to_owned(), ns::XMP.to_owned()));
    r.push(("xmlns:dc".to_owned(), ns::DC.to_owned()));
    r.push(("xmlns:exif".to_owned(), ns::EXIF.to_owned()));
    r.push(("xmlns:xml".to_owned(), ns::XML.to_owned()));
    let ghost all = entries(*used);
    assert(pairs(r@) =~= fixed_declarations() + more_declarations(all.take(0)));
    let count: usize = entry_count(used);
    let mut i: usize = 0;
    while i < count
        invariant
            i <= count == all.len(),
            all == entries(*used),
            pairs(r@) == fixed_declarations() + more_declarations(all.take(i as int)),
        decreases count - i,
    {
        let (uri, prefix): (&String, &String) = match get_index(used, i) {
            Some(entry) => entry,
            None => return r,
        };
        let ghost before = pairs(r@);
        proof {
            assert(all.take(i + 1).drop_last() =~= all.take(i as int));
            assert(all.take(i + 1).last() == all[i as int]);
        }
        if !is_always_declared(uri.as_str()) {
            let mut name: String = "xmlns:".to_owned();
            name.append(prefix.as_str());
            let entry: (String, String) = (name, uri.clone());
            r.push(entry);
            assert(pairs(r@) =~= before.push((entry.0@, entry.1@)));
        }
        assert(pairs(r@) =~= fixed_declarations() + more_declarations(all.take(i + 1)));
        i += 1;
    }
    assert(all.take(i as int) =~= all);
    r
}

/// Whether every document declares the namespace.
fn is_always_declared(uri: &str) -> (r: bool)
    ensures
        r == always_declared(uri@),
{
    same_text(uri, ns::RDF) || same_text(uri, ns::XMP) || same_text(uri, ns::DC) || same_text(
        uri,
        ns::EXIF,
    ) || same_text(uri, ns::XML)
}

/// A name with its prefix.
fn join_name(prefix: String, name: &str) -> (r: String)
    ensures
        r@ == prefix@ + ":"@ + name@,
{
    let mut r: String = prefix;
    r.append(":");
    r.append(name);
    r
}

/// Whether a qualifier says which language a text is in.
fn is_language_qualifier(qualifier: &Qualifier) -> (r: bool)
    ensures
        r == is_language(qualifier@),
{
    same_text(qualifier.namespace.as_str(), ns::XML) && same_text(qualifier.name.as_str(), "lang")
}

} // verus!
