//! XMP data: a tree of simple values, arrays and structures.
use crate::ordered::{distinct_keys, lemma_position, lemma_position_found, lemma_put_distinct, put};
use crate::text::{same_text, IntoText};
use vstd::prelude::*;
use vstd::string::*;

verus! {

/// A remark on a value, such as the language that a text is in.
#[derive(Debug, PartialEq, Eq)]
pub struct Qualifier {
    /// The URI of the qualifier's namespace.
    pub namespace: String,
    pub name: String,
    pub value: String,
}

/// A text with its qualifiers.
#[derive(Debug, PartialEq, Eq)]
pub struct SimpleNode {
    pub value: String,
    pub qualifiers: Vec<Qualifier>,
}

/// What the order of an array's items means.
#[derive(Debug, Clone, Copy, PartialEq, Eq, Structural)]
pub enum ArrayType {
    /// The order counts.
    Ordered,
    /// The order does not count.
    Unordered,
    /// The items are alternatives.
    Alternative,
}

/// A list of nodes.
#[derive(Debug, PartialEq, Eq)]
pub struct ArrayNode {
    pub array_type: ArrayType,
    pub items: Vec<Node>,
}

/// Named nodes, in the order in which the names first came in. A name is a path: the
/// URI of a namespace, a colon, and the name of a property.
#[derive(Debug, PartialEq, Eq)]
pub struct StructureNode {
    pub fields: Vec<(String, Node)>,
}

/// A node of the tree.
#[derive(Debug, PartialEq, Eq)]
pub enum Node {
    Simple(SimpleNode),
    Array(ArrayNode),
    Structure(StructureNode),
}

/// A [`Qualifier`] as characters.
pub struct QualifierView {
    pub namespace: Seq<char>,
    pub name: Seq<char>,
    pub value: Seq<char>,
}

/// A [`SimpleNode`] as characters.
pub struct SimpleView {
    pub value: Seq<char>,
    pub qualifiers: Seq<QualifierView>,
}

/// A [`Node`] as a tree of characters.
pub enum NodeView {
    Simple(SimpleView),
    Array(ArrayType, Seq<NodeView>),
    Structure(Seq<(Seq<char>, NodeView)>),
}

impl View for Qualifier {
    type V = QualifierView;

    open spec fn view(&self) -> QualifierView {
        QualifierView { namespace: self.namespace@, name: self.name@, value: self.value@ }
    }
}

impl View for SimpleNode {
    type V = SimpleView;

    open spec fn view(&self) -> SimpleView {
        SimpleView {
            value: self.value@,
            qualifiers: Seq::new(self.qualifiers@.len(), |i: int| self.qualifiers@[i]@),
        }
    }
}

/// The characters of a tree.
pub open spec fn node_view(node: Node) -> NodeView
    decreases node,
{
    match node {
        Node::Simple(simple) => NodeView::Simple(simple@),
        Node::Array(array) => NodeView::Array(array.array_type, items_view(array.items@)),
        Node::Structure(structure) => NodeView::Structure(fields_view(structure.fields@)),
    }
}

/// The characters of a list of trees.
pub open spec fn items_view(items: Seq<Node>) -> Seq<NodeView>
    decreases items,
{
    Seq::new(
        items.len(),
        |i: int|
            if 0 <= i < items.len() {
                node_view(items[i])
            } else {
                arbitrary()
            },
    )
}

/// The characters of a list of named trees.
pub open spec fn fields_view(fields: Seq<(String, Node)>) -> Seq<(Seq<char>, NodeView)>
    decreases fields,
{
    Seq::new(
        fields.len(),
        |i: int|
            if 0 <= i < fields.len() {
                (fields[i].0@, node_view(fields[i].1))
            } else {
                arbitrary()
            },
    )
}

impl View for Node {
    type V = NodeView;

    open spec fn view(&self) -> NodeView {
        node_view(*self)
    }
}

impl View for StructureNode {
    type V = Seq<(Seq<char>, NodeView)>;

    open spec fn view(&self) -> Seq<(Seq<char>, NodeView)> {
        fields_view(self.fields@)
    }
}

impl View for ArrayNode {
    type V = Seq<NodeView>;

    open spec fn view(&self) -> Seq<NodeView> {
        items_view(self.items@)
    }
}

impl Node {
    /// A text without qualifiers.
    pub fn simple<T: IntoText>(value: T) -> (r: Node)
        ensures
            r@ == NodeView::Simple(SimpleView { value: value.text(), qualifiers: Seq::empty() }),
    {
        let simple: SimpleNode = SimpleNode { value: value.into_text(), qualifiers: Vec::new() };
        assert(simple@.qualifiers =~= Seq::<QualifierView>::empty());
        Node::Simple(simple)
    }

    /// An array without items.
    pub fn array(array_type: ArrayType) -> (r: Node)
        ensures
            r@ == NodeView::Array(array_type, Seq::empty()),
    {
        let array: ArrayNode = ArrayNode { array_type, items: Vec::new() };
        assert(array@ =~= Seq::<NodeView>::empty());
        Node::Array(array)
    }
}

impl StructureNode {
    /// Whether no name stands twice.
    pub open spec fn wf(self) -> bool {
        distinct_keys(self@)
    }

    /// A structure without fields.
    pub fn new() -> (r: StructureNode)
        ensures
            r.wf(),
            r@ == Seq::<(Seq<char>, NodeView)>::empty(),
    {
        let r: StructureNode = StructureNode { fields: Vec::new() };
        assert(r@ =~= Seq::<(Seq<char>, NodeView)>::empty());
        r
    }

    /// Sets a field: in its place where the name has one, else after all others.
    pub fn set_field<T: IntoText>(&mut self, key: T, node: Node)
        ensures
            final(self)@ == put(old(self)@, key.text(), node@),
            old(self).wf() ==> final(self).wf(),
    {
        let ghost before = self@;
        let ghost name = key.text();
        let ghost value = node@;
        let text: String = key.into_text();
        proof {
            if self.wf() {
                lemma_put_distinct(before, name, value);
            }
        }
        let mut i: usize = 0;
        while i < self.fields.len()
            invariant
                self.fields@ == old(self).fields@,
                before == self@,
                name == key.text(),
                text@ == name,
                node@ == value,
                i <= self.fields@.len(),
                forall|j: int| 0 <= j < i ==> (#[trigger] before[j]).0 != name,
            decreases self.fields@.len() - i,
        {
            assert(before[i as int].0 == self.fields@[i as int].0@);
            if same_text(self.fields[i].0.as_str(), text.as_str()) {
                proof {
                    lemma_position_found(before, name, i as int);
                }
                self.fields.set(i, (text, node));
                assert(self@ =~= put(before, name, value));
                return ;
            }
            i += 1;
        }
        proof {
            lemma_position(before, name);
        }
        self.fields.push((text, node));
        assert(self@ =~= put(before, name, value));
    }
}

impl Default for StructureNode {
    fn default() -> (r: StructureNode)
        ensures
            r.wf(),
            r@ == Seq::<(Seq<char>, NodeView)>::empty(),
    {
        StructureNode::new()
    }
}

} // verus!
