use vstd::prelude::*;

use crate::css::SpecValue;
use crate::style::{lemma_display_keywords, spec_display, Display, SpecStyledNode, StyledNode};

verus! {

/// The layout kind of a box.
#[derive(Debug, Clone, Copy, PartialEq, Eq, Structural)]
pub enum BoxType {
    Block,
    Inline,
    /// An anonymous box that groups inline boxes.
    Anonymous,
}

/// One node of the box tree: a styled node, its box kind, and the boxes of its children.
#[derive(Debug)]
pub struct LayoutBox<'a> {
    /// The styled node of this box.
    pub styled: &'a StyledNode<'a>,
    /// The kind of this box.
    pub box_type: BoxType,
    /// The child boxes, in document order.
    pub children: Vec<LayoutBox<'a>>,
}

/// The mathematical value of a box tree.
pub struct SpecLayoutBox {
    pub styled: SpecStyledNode,
    pub box_type: BoxType,
    pub children: Seq<SpecLayoutBox>,
}

/// The values of a list of boxes.
pub open spec fn boxes_view<'a>(boxes: Seq<LayoutBox<'a>>) -> Seq<SpecLayoutBox>
    decreases boxes,
{
    Seq::new(
        boxes.len(),
        |i: int|
            if 0 <= i < boxes.len() {
                box_view(boxes[i])
            } else {
                spec_empty_box()
            },
    )
}

/// The value of a box.
pub open spec fn box_view<'a>(b: LayoutBox<'a>) -> SpecLayoutBox
    decreases b,
{
    SpecLayoutBox { styled: b.styled@, box_type: b.box_type, children: boxes_view(b.children@) }
}

/// A box of no node.
pub open spec fn spec_empty_box() -> SpecLayoutBox {
    SpecLayoutBox { styled: crate::style::spec_empty_styled(), box_type: BoxType::Anonymous, children: Seq::empty() }
}

impl<'a> View for LayoutBox<'a> {
    type V = SpecLayoutBox;

    open spec fn view(&self) -> SpecLayoutBox {
        box_view(*self)
    }
}

/// No node of the styled tree has `display: none`.
pub open spec fn all_displayed(n: SpecStyledNode) -> bool
    decreases n,
{
    &&& spec_display(n.properties) != Display::DisplayNone
    &&& forall|i: int| 0 <= i < n.children.len() ==> all_displayed(#[trigger] n.children[i])
}

/// The box kind of a displayed node: `Block` for `display: block`, `Inline` otherwise.
pub open spec fn box_type_of(d: Display) -> BoxType {
    match d {
        Display::Block => BoxType::Block,
        _ => BoxType::Inline,
    }
}

/// The boxes of a list of styled nodes.
pub open spec fn spec_layout_forest(nodes: Seq<SpecStyledNode>) -> Seq<SpecLayoutBox>
    decreases nodes,
{
    Seq::new(
        nodes.len(),
        |i: int|
            if 0 <= i < nodes.len() {
                spec_layout_tree(nodes[i])
            } else {
                spec_empty_box()
            },
    )
}

/// The box tree of a styled tree: one box per styled node, of the kind its `display` gives.
pub open spec fn spec_layout_tree(n: SpecStyledNode) -> SpecLayoutBox
    decreases n,
{
    SpecLayoutBox {
        styled: n,
        box_type: box_type_of(spec_display(n.properties)),
        children: spec_layout_forest(n.children),
    }
}

/// Builds the box tree of `node`, or `None` where some node has `display: none`.
pub fn try_layout_tree<'a>(node: &'a StyledNode<'a>) -> (r: Option<LayoutBox<'a>>)
    ensures
        r is Some <==> all_displayed(node@),
        r matches Some(b) ==> b@ == spec_layout_tree(node@),
    decreases node,
{
    let box_type = match node.display() {
        Display::Inline => BoxType::Inline,
        Display::Block => BoxType::Block,
        Display::DisplayNone => {
            return None;
        },
    };
    let n = node.children.len();
    let mut children: Vec<LayoutBox<'a>> = Vec::new();
    let mut i: usize = 0;
    while i < n
        invariant
            n == node.children@.len(),
            0 <= i <= n,
            children@.len() == i,
            forall|j: int| 0 <= j < i ==> all_displayed(#[trigger] node@.children[j]),
            forall|j: int|
                0 <= j < i ==> box_view(#[trigger] children@[j]) == spec_layout_tree(
                    node@.children[j],
                ),
        decreases n - i,
    {
        assert(node@.children[i as int] == node.children@[i as int]@);
        match try_layout_tree(&node.children[i]) {
            Some(child) => {
                children.push(child);
            },
            None => {
                return None;
            },
        }
        i = i + 1;
    }
    let r = LayoutBox { styled: node, box_type, children };
    assert(boxes_view(r.children@) =~= spec_layout_forest(node@.children));
    Some(r)
}

/// Builds the box tree of `node`: one box per styled node, of the kind its `display` gives.
pub fn layout_tree<'a>(node: &'a StyledNode<'a>) -> (r: LayoutBox<'a>)
    requires
        all_displayed(node@),
    ensures
        r@ == spec_layout_tree(node@),
{
    match try_layout_tree(node) {
        Some(b) => b,
        None => {
            proof {
                assert(false);
            }
            LayoutBox { styled: node, box_type: BoxType::Anonymous, children: Vec::new() }
        },
    }
}

/// The box tree has the shape of the styled tree: each box holds its styled node, has as
/// many children as it, in the same order, and is a block box exactly when the node has
/// `display: block`, an inline box otherwise (never an anonymous one).
pub proof fn lemma_layout_tree_shape(n: SpecStyledNode)
    ensures
        spec_layout_tree(n).styled == n,
        spec_layout_tree(n).children.len() == n.children.len(),
        forall|i: int|
            0 <= i < n.children.len() ==> #[trigger] spec_layout_tree(n).children[i]
                == spec_layout_tree(n.children[i]),
        (spec_layout_tree(n).box_type == BoxType::Block) == (spec_display(n.properties)
            == Display::Block),
        spec_layout_tree(n).box_type != BoxType::Anonymous,
{
}

/// A box is a block box exactly when its node's `display` property is the keyword "block",
/// and an inline box otherwise.
pub proof fn lemma_box_type_keyword(n: SpecStyledNode)
    ensures
        (spec_layout_tree(n).box_type == BoxType::Block) <==> (n.properties.contains_key("display"@)
            && n.properties["display"@] == SpecValue::Keyword("block"@)),
        (spec_layout_tree(n).box_type == BoxType::Inline) <==> !(n.properties.contains_key("display"@)
            && n.properties["display"@] == SpecValue::Keyword("block"@)),
{
    lemma_display_keywords(n.properties);
}

} // verus!
