//! The tree of nodes that `taffy` lays out, as far as the layout uses it.
//!
//! A tree is known by three things: the children of each of its nodes, the
//! style of each node, and a number stored with each node.

use taffy::{Style, TaffyTree};
use vstd::prelude::*;

verus! {

/// `taffy::TaffyTree`: nodes, each with a style, children and a context.
#[verifier::external_type_specification]
#[verifier::external_body]
#[verifier::reject_recursive_types(NodeContext)]
pub struct ExTaffyTree<NodeContext>(taffy::TaffyTree<NodeContext>);

/// `taffy::Style`: how a node wants to be laid out.
#[verifier::external_type_specification]
#[verifier::external_body]
pub struct ExStyle(taffy::Style);

/// The id of a node.
#[derive(Clone, Copy, Debug, PartialEq, Eq, Structural, Hash)]
pub struct NodeId {
    pub raw: u64,
}

impl NodeId {
    /// The id with the given number.
    pub fn new(raw: u64) -> (id: NodeId)
        ensures
            id.raw == raw,
    {
        NodeId { raw }
    }
}

/// The children of each node of a tree, in order.
pub uninterp spec fn tree_children(tree: TaffyTree<usize>) -> Map<NodeId, Seq<NodeId>>;

/// The number stored with each node of a tree.
pub uninterp spec fn tree_slots(tree: TaffyTree<usize>) -> Map<NodeId, usize>;

/// The style of each node of a tree.
pub uninterp spec fn tree_styles(tree: TaffyTree<usize>) -> Map<NodeId, Style>;

/// How many nodes a tree can hold.
pub const MAX_NODES: u32 = 0xffff_fffe;

/// `TaffyTree::new`: a tree without nodes.
#[verifier::external_body]
pub(crate) fn new_tree() -> (tree: TaffyTree<usize>)
    ensures
        tree_children(tree).dom() == Set::<NodeId>::empty(),
        tree_slots(tree).dom() == Set::<NodeId>::empty(),
        tree_styles(tree).dom() == Set::<NodeId>::empty(),
{
    TaffyTree::new()
}

/// `TaffyTree::new_leaf_with_context`: adds a node that has no parent and no
/// children, and returns an id that no other node of the tree has. The
/// tree must not be full.
#[verifier::external_body]
pub(crate) fn new_leaf(tree: &mut TaffyTree<usize>, style: Style, slot: usize) -> (id: NodeId)
    requires
        tree_children(*old(tree)).dom().len() < MAX_NODES,
    ensures
        !tree_children(*old(tree)).contains_key(id),
        tree_children(*final(tree)) == tree_children(*old(tree)).insert(
            id,
            Seq::<NodeId>::empty(),
        ),
        tree_slots(*final(tree)) == tree_slots(*old(tree)).insert(id, slot),
        tree_styles(*final(tree)) == tree_styles(*old(tree)).insert(id, style),
{
    NodeId::new(tree.new_leaf_with_context(style, slot).unwrap().into())
}

/// `TaffyTree::add_child`: puts `child` behind the other children of `parent`.
/// Both are nodes of the tree.
#[verifier::external_body]
pub(crate) fn add_child(tree: &mut TaffyTree<usize>, parent: NodeId, child: NodeId)
    requires
        tree_children(*old(tree)).contains_key(parent),
        tree_children(*old(tree)).contains_key(child),
    ensures
        tree_children(*final(tree)) == tree_children(*old(tree)).insert(
            parent,
            tree_children(*old(tree))[parent].push(child),
        ),
        tree_slots(*final(tree)) == tree_slots(*old(tree)),
        tree_styles(*final(tree)) == tree_styles(*old(tree)),
{
    tree.add_child(parent.raw.into(), child.raw.into()).unwrap()
}

/// `TaffyTree::children`: the children of a node of the tree, in order.
#[verifier::external_body]
pub(crate) fn children(tree: &TaffyTree<usize>, id: NodeId) -> (list: Vec<NodeId>)
    requires
        tree_children(*tree).contains_key(id),
    ensures
        list@ == tree_children(*tree)[id],
{
    tree.children(id.raw.into()).unwrap().into_iter().map(|id| NodeId::new(id.into())).collect()
}

/// `TaffyTree::set_style`: gives a node of the tree another style.
#[verifier::external_body]
pub(crate) fn set_style(tree: &mut TaffyTree<usize>, id: NodeId, style: Style)
    requires
        tree_children(*old(tree)).contains_key(id),
    ensures
        tree_styles(*final(tree)) == tree_styles(*old(tree)).insert(id, style),
        tree_children(*final(tree)) == tree_children(*old(tree)),
        tree_slots(*final(tree)) == tree_slots(*old(tree)),
{
    tree.set_style(id.raw.into(), style).unwrap()
}

/// `TaffyTree::get_node_context`: the number stored with a node of the tree
/// that has one.
#[verifier::external_body]
pub(crate) fn slot_of(tree: &TaffyTree<usize>, id: NodeId) -> (slot: usize)
    requires
        tree_slots(*tree).contains_key(id),
    ensures
        slot == tree_slots(*tree)[id],
{
    *tree.get_node_context(id.raw.into()).unwrap()
}

} // verus!
