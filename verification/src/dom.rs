use vstd::prelude::*;

use crate::strmap::StrMap;

verus! {

/// Attribute map of an element: attribute name to attribute value.
pub type AttrMap = StrMap<String>;

/// The tag name and the attributes of an HTML element.
#[derive(Debug)]
pub struct ElementData {
    /// Tag name, such as "div" or "p".
    pub tag_name: String,
    /// Attributes, such as "class" -> "foo".
    pub attrs: AttrMap,
}

/// The kind of a DOM node.
#[derive(Debug)]
pub enum NodeType {
    /// An element (a tag).
    Element(ElementData),
    /// A text node.
    Text(String),
    /// A comment node.
    Comment(String),
}

/// One node of the DOM tree.
#[derive(Debug)]
pub struct Node {
    /// What kind of node this is.
    pub node_type: NodeType,
    /// The child nodes, in document order.
    pub children: Vec<Node>,
}

/// The mathematical value of a node's kind.
pub enum SpecNodeType {
    Element { tag_name: Seq<char>, attrs: Map<Seq<char>, Seq<char>> },
    Text(Seq<char>),
    Comment(Seq<char>),
}

/// The mathematical value of a DOM tree.
pub struct SpecNode {
    pub node_type: SpecNodeType,
    pub children: Seq<SpecNode>,
}

impl View for NodeType {
    type V = SpecNodeType;

    open spec fn view(&self) -> SpecNodeType {
        match self {
            NodeType::Element(e) => SpecNodeType::Element { tag_name: e.tag_name@, attrs: e.attrs@ },
            NodeType::Text(t) => SpecNodeType::Text(t@),
            NodeType::Comment(t) => SpecNodeType::Comment(t@),
        }
    }
}

/// The values of a list of nodes.
pub open spec fn nodes_view(nodes: Seq<Node>) -> Seq<SpecNode>
    decreases nodes,
{
    Seq::new(nodes.len(), |i: int| if 0 <= i < nodes.len() { node_view(nodes[i]) } else { spec_empty_text() })
}

/// The value of a node.
pub open spec fn node_view(n: Node) -> SpecNode
    decreases n,
{
    SpecNode { node_type: n.node_type@, children: nodes_view(n.children@) }
}

/// An empty text node.
pub open spec fn spec_empty_text() -> SpecNode {
    SpecNode { node_type: SpecNodeType::Text(Seq::empty()), children: Seq::empty() }
}

impl View for Node {
    type V = SpecNode;

    open spec fn view(&self) -> SpecNode {
        node_view(*self)
    }
}

impl Node {
    /// Creates a text node.
    pub fn create_text(data: String) -> (n: Node)
        ensures
            n@ == (SpecNode { node_type: SpecNodeType::Text(data@), children: Seq::empty() }),
    {
        let n = Node { node_type: NodeType::Text(data), children: Vec::new() };
        assert(nodes_view(n.children@) =~= Seq::<SpecNode>::empty());
        n
    }

    /// Creates an element node.
    pub fn create_element(name: String, attrs: AttrMap, children: Vec<Node>) -> (n: Node)
        ensures
            n@ == (SpecNode {
                node_type: SpecNodeType::Element { tag_name: name@, attrs: attrs@ },
                children: nodes_view(children@),
            }),
    {
        Node { node_type: NodeType::Element(ElementData { tag_name: name, attrs }), children }
    }
}

} // verus!
