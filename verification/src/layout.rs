//! The layout tree: a tree of nodes that is built once, and the absolute
//! rectangle of every node after each layout pass.

use crate::tree::{
    add_child, children, new_leaf, new_tree, set_style, slot_of, tree_children, tree_slots,
    tree_styles, MAX_NODES,
};
use std::collections::HashMap;
use taffy::TaffyTree;
use vstd::prelude::*;

// What the users of a layout need to describe nodes.
pub use crate::tree::NodeId;
pub use taffy::geometry::Rect as Edges;
pub use taffy::geometry::Size;
pub use taffy::style::{
    AlignItems, AlignSelf, Dimension, Display, FlexDirection, FlexWrap, JustifyContent,
    JustifyItems, LengthPercentage, LengthPercentageAuto, Position, Style,
};
pub use taffy::AvailableSpace;

verus! {

/// What is known of a node: its id, the position of its parent among the nodes
/// (-1 for the root), its style and its data.
pub struct Node<T> {
    pub id: NodeId,
    pub parent: int,
    pub style: Style,
    pub data: T,
}

/// The position of the node with the given id.
pub open spec fn position<T>(nodes: Seq<Node<T>>, id: NodeId) -> int {
    choose|i: int| 0 <= i < nodes.len() && #[trigger] nodes[i].id == id
}

/// Whether there is a node with the given id.
pub open spec fn has_node<T>(nodes: Seq<Node<T>>, id: NodeId) -> bool {
    exists|i: int| 0 <= i < nodes.len() && #[trigger] nodes[i].id == id
}

/// The children of the node at position `parent`, in the order in which they
/// were added.
pub open spec fn children_of(links: Seq<(NodeId, int)>, parent: int) -> Seq<NodeId>
    decreases links.len(),
{
    if links.len() == 0 {
        Seq::empty()
    } else {
        let before = children_of(links.drop_last(), parent);
        if links.last().1 == parent {
            before.push(links.last().0)
        } else {
            before
        }
    }
}

/// Whether the links describe a tree: the root comes first, every other node
/// after its parent, and no two nodes have the same id.
pub open spec fn is_tree(links: Seq<(NodeId, int)>) -> bool {
    &&& links.len() > 0
    &&& links[0].1 == -1
    &&& forall|i: int| 0 < i < links.len() ==> 0 <= (#[trigger] links[i]).1 < i
    &&& forall|i: int, j: int|
        0 <= i < j < links.len() ==> (#[trigger] links[i]).0 != (#[trigger] links[j]).0
}

/// The ids of the nodes, in the order in which they were added.
pub open spec fn ids(links: Seq<(NodeId, int)>) -> Seq<NodeId> {
    Seq::new(links.len(), |i: int| links[i].0)
}

/// The nodes of a layout, in the order in which they were added. The data of a
/// node stands at the position that the tree stores with the node.
struct Nodes<T> {
    tree: TaffyTree<usize>,
    data: Vec<T>,
    links: Ghost<Seq<(NodeId, int)>>,
}

impl<T> Nodes<T> {
    spec fn model(&self) -> Seq<Node<T>> {
        Seq::new(
            self.data@.len(),
            |i: int|
                Node {
                    id: self.links@[i].0,
                    parent: self.links@[i].1,
                    style: tree_styles(self.tree)[self.links@[i].0],
                    data: self.data@[i],
                },
        )
    }

    spec fn wf(&self) -> bool {
        &&& self.links@.len() == self.data@.len()
        &&& is_tree(self.links@)
        &&& tree_children(self.tree).dom() == ids(self.links@).to_set()
        &&& tree_slots(self.tree).dom() == ids(self.links@).to_set()
        &&& forall|i: int|
            0 <= i < self.links@.len() ==> tree_slots(self.tree)[(#[trigger] self.links@[i]).0] == i
        &&& forall|i: int|
            0 <= i < self.links@.len() ==> tree_children(self.tree)[(#[trigger] self.links@[i]).0]
                == children_of(self.links@, i)
    }

    /// The id of a node is known to the tree.
    proof fn known(&self, id: NodeId)
        requires
            self.wf(),
            has_node(self.model(), id),
        ensures
            tree_children(self.tree).contains_key(id),
            tree_slots(self.tree).contains_key(id),
            tree_slots(self.tree)[id] == position(self.model(), id),
            0 <= position(self.model(), id) < self.links@.len(),
            self.links@[position(self.model(), id)].0 == id,
    {
        let i = position(self.model(), id);
        assert(self.model()[i].id == id);
        assert(ids(self.links@)[i] == id);
        assert(ids(self.links@).to_set().contains(id));
    }

    proof fn lemma_form_tree(&self)
        requires
            self.wf(),
        ensures
            form_tree(self.model()),
    {
        let nodes = self.model();
        let links = self.links@;
        assert forall|i: int| 0 < i < nodes.len() implies 0 <= (#[trigger] nodes[i]).parent < i by {
            assert(links[i].1 == nodes[i].parent);
        }
        assert forall|i: int, j: int| 0 <= i < j < nodes.len() implies (#[trigger] nodes[i]).id != (
        #[trigger] nodes[j]).id by {
            assert(links[i].0 != links[j].0);
        }
    }

    /// One node, the root.
    fn new(style: Style, data: T) -> (r: (Self, NodeId))
        ensures
            r.0.wf(),
            r.0.model() == seq![Node { id: r.1, parent: -1, style, data }],
    {
        let mut tree = new_tree();
        assert(tree_children(tree).dom().len() == 0);
        let root = new_leaf(&mut tree, style, 0);
        let mut list: Vec<T> = Vec::new();
        list.push(data);
        let ghost links: Seq<(NodeId, int)> = seq![(root, -1int)];
        let nodes = Nodes { tree, data: list, links: Ghost(links) };
        proof {
            assert(ids(links)[0] == root);
            assert(tree_children(nodes.tree).dom() =~= ids(links).to_set());
            assert(tree_slots(nodes.tree).dom() =~= ids(links).to_set());
            assert(links.drop_last() =~= Seq::<(NodeId, int)>::empty());
            assert(children_of(links.drop_last(), 0) =~= Seq::<NodeId>::empty());
            assert(nodes.model() =~= seq![Node { id: root, parent: -1, style, data }]);
        }
        (nodes, root)
    }

    /// Adds a node behind the other children of `parent`.
    fn add(&mut self, parent: NodeId, style: Style, data: T) -> (id: NodeId)
        requires
            old(self).wf(),
            has_node(old(self).model(), parent),
            old(self).model().len() < MAX_NODES,
        ensures
            final(self).wf(),
            !has_node(old(self).model(), id),
            final(self).model() == old(self).model().push(
                Node { id, parent: position(old(self).model(), parent), style, data },
            ),
    {
        let ghost before = self.model();
        let ghost old_links = self.links@;
        let ghost at = position(before, parent);
        let slot: usize = self.data.len();
        proof {
            self.known(parent);
            assert(ids(old_links).no_duplicates());
            ids(old_links).unique_seq_to_set();
        }
        let id = new_leaf(&mut self.tree, style, slot);
        proof {
            if has_node(before, id) {
                let i = position(before, id);
                assert(before[i].id == id);
                assert(ids(old_links)[i] == id);
            }
            assert forall|i: int| 0 <= i < old_links.len() implies (#[trigger] old_links[i]).0
                != id by {
                assert(ids(old_links)[i] == old_links[i].0);
            }
        }
        add_child(&mut self.tree, parent, id);
        self.data.push(data);
        self.links = Ghost(old_links.push((id, at)));
        proof {
            let links = self.links@;
            assert(links.drop_last() =~= old_links);
            assert(ids(links) =~= ids(old_links).push(id));
            lemma_push_to_set(ids(old_links), id);
            assert(tree_children(self.tree).dom() =~= ids(links).to_set());
            assert(tree_slots(self.tree).dom() =~= ids(links).to_set());
            lemma_no_children(old_links, old_links.len() as int);
            assert forall|i: int| 0 <= i < links.len() implies tree_children(
                self.tree,
            )[(#[trigger] links[i]).0] == children_of(links, i) by {
                if i < old_links.len() {
                    assert(links[i] == old_links[i]);
                    assert(old_links[at].0 == parent);
                }
            }
            assert(self.model() =~= before.push(Node { id, parent: at, style, data }));
        }
        id
    }
}

/// Builds the part of a layout tree that hangs under one node.
pub struct Builder<T> {
    nodes: Nodes<T>,
    parent: NodeId,
}

/// Whether a builder is set on a node that was just added behind the nodes
/// `before`, under the node at position `parent`.
pub open spec fn starts_at<T>(
    builder: Builder<T>,
    before: Seq<Node<T>>,
    parent: int,
    style: Style,
    data: T,
) -> bool {
    &&& builder.wf()
    &&& !has_node(before, builder.parent())
    &&& builder.nodes() == before.push(Node { id: builder.parent(), parent, style, data })
}

impl<T> Builder<T> {
    /// The nodes of the tree so far, in the order in which they were added.
    pub closed spec fn nodes(&self) -> Seq<Node<T>> {
        self.nodes.model()
    }

    /// The node under which this builder adds others.
    pub closed spec fn parent(&self) -> NodeId {
        self.parent
    }

    /// Whether the nodes form a tree, with `parent` among them, and all that were
    /// added behind `parent` hang under it.
    pub closed spec fn wf(&self) -> bool {
        &&& self.nodes.wf()
        &&& has_node(self.nodes.model(), self.parent)
        &&& hang_under(self.nodes.links@, position(self.nodes.model(), self.parent))
    }

    /// Adds a node without children under the current parent.
    pub fn leaf(&mut self, style: Style, data: T) -> (id: NodeId)
        requires
            old(self).wf(),
            old(self).nodes().len() < MAX_NODES,
        ensures
            final(self).wf(),
            final(self).parent() == old(self).parent(),
            !has_node(old(self).nodes(), id),
            final(self).nodes() == old(self).nodes().push(
                Node { id, parent: position(old(self).nodes(), old(self).parent()), style, data },
            ),
    {
        let ghost before = self.nodes();
        let ghost links = self.nodes.links@;
        let ghost at = position(before, self.parent);
        proof {
            self.nodes.known(self.parent);
        }
        let id = self.nodes.add(self.parent, style, data);
        proof {
            lemma_has_node_prefix(before, self.nodes(), self.parent);
            self.nodes.lemma_form_tree();
            assert(self.nodes()[at].id == self.parent);
            lemma_position_is_unique(self.nodes(), at);
            assert(self.nodes.links@ =~= links_of(self.nodes()));
            assert(links =~= links_of(before));
            lemma_hang_under_more(links, self.nodes.links@, at);
        }
        id
    }

    /// Adds a node under the current parent and lets `build` add others under
    /// the new node. Returns the id of the new node and what `build` returned.
    pub fn child<R, F: FnOnce(&mut Builder<T>) -> R>(
        &mut self,
        style: Style,
        data: T,
        build: F,
    ) -> (r: (NodeId, R))
        requires
            old(self).wf(),
            old(self).nodes().len() < MAX_NODES,
            forall|builder: &mut Builder<T>|
                starts_at(
                    *builder,
                    old(self).nodes(),
                    position(old(self).nodes(), old(self).parent()),
                    style,
                    data,
                ) ==> #[trigger] build.requires((builder,)),
            forall|builder: &mut Builder<T>, result: R|
                starts_at(
                    *builder,
                    old(self).nodes(),
                    position(old(self).nodes(), old(self).parent()),
                    style,
                    data,
                ) && #[trigger] build.ensures((builder,), result) ==> final(builder).wf()
                    && final(builder).parent() == builder.parent()
                    && builder.nodes().is_prefix_of(final(builder).nodes()),
        ensures
            final(self).wf(),
            final(self).parent() == old(self).parent(),
            old(self).nodes().len() < final(self).nodes().len(),
            final(self).nodes()[old(self).nodes().len() as int].id == r.0,
            hang_under(links_of(final(self).nodes()), old(self).nodes().len() as int),
            exists|builder: &mut Builder<T>, result: R|
                #![trigger build.ensures((builder,), result)]
                {
                    &&& starts_at(
                        *builder,
                        old(self).nodes(),
                        position(old(self).nodes(), old(self).parent()),
                        style,
                        data,
                    )
                    &&& builder.parent() == r.0
                    &&& build.ensures((builder,), result)
                    &&& r.1 == result
                    &&& final(self).nodes() == final(builder).nodes()
                },
    {
        let parent = self.parent;
        let ghost before = self.nodes();
        let ghost links = self.nodes.links@;
        let ghost at = position(before, parent);
        proof {
            self.nodes.known(parent);
        }
        let id = self.nodes.add(parent, style, data);
        self.parent = id;
        proof {
            assert(self.nodes()[before.len() as int].id == id);
            self.nodes.lemma_form_tree();
            lemma_position_is_unique(self.nodes(), before.len() as int);
        }
        let ghost middle = self.nodes();
        let ghost handed = *self;
        let result = build(self);
        let ghost built = *self;
        assert(exists|builder: &mut Builder<T>| #[trigger]
            build.ensures((builder,), result) && *builder == handed && *final(builder) == built);
        self.parent = parent;
        proof {
            lemma_has_node_prefix(before, middle, parent);
            lemma_has_node_prefix(middle, self.nodes(), parent);
            assert(starts_at(handed, before, position(before, parent), style, data));
            assert(handed.parent() == id);
            assert(self.nodes() == built.nodes());
            let now = self.nodes.links@;
            assert(now =~= links_of(self.nodes()));
            assert(links =~= links_of(before));
            assert(middle[at] == self.nodes()[at]);
            assert(middle[before.len() as int] == self.nodes()[before.len() as int]);
            self.nodes.lemma_form_tree();
            lemma_position_is_unique(self.nodes(), at);
            lemma_position_is_unique(self.nodes(), before.len() as int);
            assert(links.is_prefix_of(now)) by {
                assert forall|i: int| 0 <= i < links.len() implies links[i] == now[i] by {
                    assert(before[i] == middle[i]);
                    assert(middle[i] == self.nodes()[i]);
                }
            }
            lemma_hang_under_child(links, now, at);
        }
        (id, result)
    }
}

/// An absolute rectangle, in coordinates of type `S`.
#[derive(Clone, Copy, Debug, Default)]
pub struct Rect<S> {
    pub x: S,
    pub y: S,
    pub w: S,
    pub h: S,
}

/// Whether `rect` is where the node `id` of a tree ends up if the corner of its
/// parent is at `x` and `y`. `local` reads where a layout pass put a node inside
/// its parent, and `plus` adds coordinates.
pub open spec fn placed<S, L: Fn(&TaffyTree<usize>, NodeId) -> Rect<S>, A: Fn(S, S) -> S>(
    local: L,
    plus: A,
    tree: TaffyTree<usize>,
    id: NodeId,
    x: S,
    y: S,
    rect: Rect<S>,
) -> bool {
    exists|inside: Rect<S>|
        {
            &&& #[trigger] local.ensures((&tree, id), inside)
            &&& plus.ensures((x, inside.x), rect.x)
            &&& plus.ensures((y, inside.y), rect.y)
            &&& rect.w == inside.w
            &&& rect.h == inside.h
        }
}

/// Whether the node at position `node` is the node at position `top` or hangs
/// somewhere under it.
pub open spec fn is_under(links: Seq<(NodeId, int)>, top: int, node: int) -> bool
    decreases node,
{
    node == top || (top < node < links.len() && 0 <= links[node].1 < node && is_under(
        links,
        top,
        links[node].1,
    ))
}

/// Whether all nodes behind the node at position `top` hang under it.
pub open spec fn hang_under(links: Seq<(NodeId, int)>, top: int) -> bool {
    forall|i: int| top <= i < links.len() ==> #[trigger] is_under(links, top, i)
}

/// What hangs under a node still does among more nodes.
proof fn lemma_under_prefix(
    links: Seq<(NodeId, int)>,
    more: Seq<(NodeId, int)>,
    top: int,
    node: int,
)
    requires
        links.is_prefix_of(more),
        node < links.len(),
        is_under(links, top, node),
    ensures
        is_under(more, top, node),
    decreases node,
{
    if node != top {
        assert(links[node] == more[node]);
        lemma_under_prefix(links, more, top, links[node].1);
    }
}

/// A node that is added under `top` hangs under it with the others.
proof fn lemma_hang_under_more(links: Seq<(NodeId, int)>, more: Seq<(NodeId, int)>, top: int)
    requires
        is_tree(more),
        links.is_prefix_of(more),
        more.len() == links.len() + 1,
        0 <= top < links.len(),
        more[links.len() as int].1 == top,
        hang_under(links, top),
    ensures
        hang_under(more, top),
{
    reveal_with_fuel(is_under, 2);
    assert forall|i: int| top <= i < more.len() implies #[trigger] is_under(more, top, i) by {
        if i < links.len() {
            lemma_under_prefix(links, more, top, i);
        }
    }
}

/// Nodes that hang under a node that was added under `top` hang under `top` with
/// the others.
proof fn lemma_hang_under_child(links: Seq<(NodeId, int)>, more: Seq<(NodeId, int)>, top: int)
    requires
        is_tree(more),
        links.is_prefix_of(more),
        links.len() < more.len(),
        0 <= top < links.len(),
        more[links.len() as int].1 == top,
        hang_under(links, top),
        hang_under(more, links.len() as int),
    ensures
        hang_under(more, top),
{
    assert forall|i: int| top <= i < more.len() implies #[trigger] is_under(more, top, i) by {
        if i < links.len() {
            lemma_under_prefix(links, more, top, i);
        } else {
            assert(is_under(more, links.len() as int, i));
            lemma_under_up(more, top, links.len() as int, i);
        }
    }
}

/// A layout tree, and the absolute rectangle of each of its nodes once they
/// have been computed.
pub struct Layout<T, S> {
    nodes: Nodes<T>,
    root: NodeId,
    computed: HashMap<u64, Rect<S>>,
}

impl<T, S> Layout<T, S> {
    /// The nodes of the tree, in the order in which they were added.
    pub closed spec fn nodes(&self) -> Seq<Node<T>> {
        self.nodes.model()
    }

    /// The root.
    pub closed spec fn root(&self) -> NodeId {
        self.root
    }

    /// The rectangles, by the number of each node's id.
    pub closed spec fn rects(&self) -> Map<u64, Rect<S>> {
        self.computed@
    }

    /// Whether the nodes form a tree, with the root first.
    pub closed spec fn wf(&self) -> bool {
        self.nodes.wf() && self.nodes.model()[0].id == self.root
    }

    /// Makes a root and lets `build` add nodes under it. Returns the layout,
    /// in which nothing is computed yet, and what `build` returned.
    pub fn new<R, F: FnOnce(&mut Builder<T>) -> R>(style: Style, data: T, build: F) -> (r: (
        Self,
        R,
    ))
        requires
            forall|builder: &mut Builder<T>|
                starts_at(*builder, Seq::empty(), -1, style, data) ==> #[trigger] build.requires(
                    (builder,),
                ),
            forall|builder: &mut Builder<T>, result: R|
                starts_at(*builder, Seq::empty(), -1, style, data) && #[trigger] build.ensures(
                    (builder,),
                    result,
                ) ==> final(builder).wf() && builder.nodes().is_prefix_of(final(builder).nodes()),
        ensures
            r.0.wf(),
            r.0.rects() == Map::<u64, Rect<S>>::empty(),
            exists|builder: &mut Builder<T>, result: R|
                #![trigger build.ensures((builder,), result)]
                {
                    &&& starts_at(*builder, Seq::empty(), -1, style, data)
                    &&& builder.parent() == r.0.root()
                    &&& build.ensures((builder,), result)
                    &&& r.1 == result
                    &&& r.0.nodes() == final(builder).nodes()
                },
    {
        let (nodes, root) = Nodes::new(style, data);
        let mut builder = Builder { nodes, parent: root };
        let ghost handed = builder;
        proof {
            assert(handed.nodes()[0].id == root);
            assert(handed.nodes() =~= Seq::<Node<T>>::empty().push(
                Node { id: root, parent: -1, style, data },
            ));
            assert(starts_at(handed, Seq::empty(), -1, style, data));
        }
        let result = build(&mut builder);
        let ghost built = builder;
        assert(exists|builder: &mut Builder<T>| #[trigger]
            build.ensures((builder,), result) && *builder == handed && *final(builder) == built);
        assert(handed.nodes()[0] == built.nodes()[0]);
        let layout = Layout { nodes: builder.nodes, root, computed: HashMap::new() };
        (layout, result)
    }

    /// The tree that layout passes work on.
    pub closed spec fn tree(&self) -> TaffyTree<usize> {
        self.nodes.tree
    }

    /// Lays the tree out in the given rectangle.
    ///
    /// `pass` computes where each node goes inside its parent. It is given the
    /// tree, the root, the data of the nodes, each at the position that the tree
    /// stores with its node, and the rectangle. From that, the absolute
    /// rectangle of every node follows: `local` reads where the pass put a node,
    /// and `plus` adds coordinates.
    pub fn compute<
        P: FnOnce(&mut TaffyTree<usize>, NodeId, &Vec<T>, Rect<S>),
        L: Fn(&TaffyTree<usize>, NodeId) -> Rect<S>,
        A: Fn(S, S) -> S,
    >(&mut self, available: Rect<S>, pass: P, local: L, plus: A) where S: Copy
        requires
            old(self).wf(),
            forall|tree: &mut TaffyTree<usize>, root: NodeId, data: &Vec<T>|
                *tree == old(self).tree() && root == old(self).root() && data@ == data_of(
                    old(self).nodes(),
                ) ==> #[trigger] pass.requires((tree, root, data, available)),
            forall|tree: &mut TaffyTree<usize>, root: NodeId, data: &Vec<T>|
                *tree == old(self).tree() && root == old(self).root() && data@ == data_of(
                    old(self).nodes(),
                ) && #[trigger] pass.ensures((tree, root, data, available), ()) ==> {
                    &&& tree_children(*final(tree)) == tree_children(*tree)
                    &&& tree_slots(*final(tree)) == tree_slots(*tree)
                    &&& tree_styles(*final(tree)) == tree_styles(*tree)
                },
            forall|tree: &TaffyTree<usize>, id: NodeId|
                has_node(old(self).nodes(), id) ==> #[trigger] local.requires((tree, id)),
            forall|a: S, b: S| #[trigger] plus.requires((a, b)),
        ensures
            final(self).wf(),
            final(self).nodes() == old(self).nodes(),
            final(self).root() == old(self).root(),
            exists|tree: &mut TaffyTree<usize>, root: NodeId, data: &Vec<T>|
                {
                    &&& #[trigger] pass.ensures((tree, root, data, available), ())
                    &&& root == old(self).root()
                    &&& *tree == old(self).tree()
                    &&& data@ == data_of(old(self).nodes())
                    &&& *final(tree) == final(self).tree()
                },
            all_placed(
                local,
                plus,
                final(self).tree(),
                final(self).nodes(),
                available.x,
                available.y,
                final(self).rects(),
            ),
    {
        let root = self.root;
        let ghost before = *self;
        proof {
            assert(self.nodes.data@ =~= data_of(self.nodes()));
        }
        pass(&mut self.nodes.tree, root, &self.nodes.data, available);
        proof {
            assert(self.nodes.wf());
            assert(self.nodes() =~= before.nodes());
            assert forall|node: NodeId| tree_children(self.nodes.tree).contains_key(node) implies
                has_node(before.nodes(), node) by {
                let i = ids(self.nodes.links@).index_of(node);
                assert(ids(self.nodes.links@)[i] == node);
                assert(before.nodes()[i].id == node);
            }
            assert(before.nodes()[0].id == root);
        }
        let mut computed: HashMap<u64, Rect<S>> = HashMap::new();
        self.nodes.walk(
            root,
            available.x,
            available.y,
            &local,
            &plus,
            &mut computed,
            Ghost(0),
        );
        self.computed = computed;
        proof {
            let links = self.nodes.links@;
            let nodes = self.nodes();
            let rects = self.rects();
            assert forall|i: int| 0 <= i < nodes.len() implies rects.contains_key(
                (#[trigger] nodes[i]).id.raw,
            ) && (i > 0 ==> {
                let parent = nodes[nodes[i].parent].id.raw;
                placed(
                    local,
                    plus,
                    self.tree(),
                    nodes[i].id,
                    rects[parent].x,
                    rects[parent].y,
                    rects[nodes[i].id.raw],
                )
            }) by {
                lemma_under_root(links, i);
                if i > 0 {
                    assert(rect_fits_parent(local, plus, self.tree(), links, rects, i));
                }
            }
            assert forall|key: u64| #[trigger] rects.contains_key(key) implies has_node(
                nodes,
                NodeId { raw: key },
            ) by {
                assert(key_is_under(links, 0, key));
                let node = choose|node: int|
                    0 <= node < links.len() && links[node].0.raw == key && #[trigger] is_under(
                        links,
                        0,
                        node,
                    );
                assert(nodes[node].id == NodeId { raw: key });
            }
        }
    }

    /// The absolute rectangle of a node, as last computed.
    pub fn rect(&self, id: NodeId) -> (rect: Rect<S>) where S: Copy
        requires
            self.rects().contains_key(id.raw),
        ensures
            rect == self.rects()[id.raw],
    {
        broadcast use vstd::std_specs::hash::group_hash_axioms;

        *self.computed.get(&id.raw).unwrap()
    }

    /// Gives a node another style. Takes effect with the next layout pass.
    pub fn set_style(&mut self, id: NodeId, style: Style)
        requires
            old(self).wf(),
            has_node(old(self).nodes(), id),
        ensures
            final(self).wf(),
            final(self).root() == old(self).root(),
            final(self).rects() == old(self).rects(),
            final(self).nodes() == old(self).nodes().update(
                position(old(self).nodes(), id),
                Node { style, ..old(self).nodes()[position(old(self).nodes(), id)] },
            ),
    {
        let ghost before = self.nodes();
        let ghost at = position(before, id);
        proof {
            self.nodes.known(id);
        }
        set_style(&mut self.nodes.tree, id, style);
        proof {
            assert(self.nodes.wf());
            assert(self.nodes() =~= before.update(at, Node { style, ..before[at] }));
        }
    }

    /// The data of a node.
    pub fn data(&self, id: NodeId) -> (data: &T)
        requires
            self.wf(),
            has_node(self.nodes(), id),
        ensures
            *data == self.nodes()[position(self.nodes(), id)].data,
    {
        proof {
            self.nodes.known(id);
        }
        let slot: usize = slot_of(&self.nodes.tree, id);
        &self.nodes.data[slot]
    }

    /// The data of a node, to be changed.
    pub fn data_mut(&mut self, id: NodeId) -> (data: &mut T)
        requires
            old(self).wf(),
            has_node(old(self).nodes(), id),
        ensures
            *data == old(self).nodes()[position(old(self).nodes(), id)].data,
            final(self).wf(),
            final(self).root() == old(self).root(),
            final(self).rects() == old(self).rects(),
            final(self).nodes() == old(self).nodes().update(
                position(old(self).nodes(), id),
                Node {
                    data: *final(data),
                    ..old(self).nodes()[position(old(self).nodes(), id)]
                },
            ),
    {
        proof {
            self.nodes.known(id);
        }
        let slot: usize = slot_of(&self.nodes.tree, id);
        &mut self.nodes.data[slot]
    }
}

/// The data of the nodes, in the order in which they were added.
pub open spec fn data_of<T>(nodes: Seq<Node<T>>) -> Seq<T> {
    nodes.map_values(|node: Node<T>| node.data)
}

/// Whether every node has the rectangle that follows from the corner of its
/// parent, the root from the corner at `x` and `y`, and there are no other
/// rectangles.
pub open spec fn all_placed<
    T,
    S,
    L: Fn(&TaffyTree<usize>, NodeId) -> Rect<S>,
    A: Fn(S, S) -> S,
>(
    local: L,
    plus: A,
    tree: TaffyTree<usize>,
    nodes: Seq<Node<T>>,
    x: S,
    y: S,
    rects: Map<u64, Rect<S>>,
) -> bool {
    &&& forall|key: u64| #[trigger]
        rects.contains_key(key) ==> has_node(nodes, NodeId { raw: key })
    &&& placed(local, plus, tree, nodes[0].id, x, y, rects[nodes[0].id.raw])
    &&& forall|i: int|
        0 <= i < nodes.len() ==> rects.contains_key((#[trigger] nodes[i]).id.raw) && (i > 0 ==> {
            let parent = nodes[nodes[i].parent].id.raw;
            placed(
                local,
                plus,
                tree,
                nodes[i].id,
                rects[parent].x,
                rects[parent].y,
                rects[nodes[i].id.raw],
            )
        })
}

/// Every node hangs under the root.
proof fn lemma_under_root(links: Seq<(NodeId, int)>, node: int)
    requires
        is_tree(links),
        0 <= node < links.len(),
    ensures
        is_under(links, 0, node),
    decreases node,
{
    if node > 0 {
        lemma_under_root(links, links[node].1);
    }
}

impl<T> Nodes<T> {
    /// Computes the rectangles of a node, whose parent has its corner at `x` and
    /// `y`, and of all nodes under it.
    fn walk<S: Copy, L: Fn(&TaffyTree<usize>, NodeId) -> Rect<S>, A: Fn(S, S) -> S>(
        &self,
        id: NodeId,
        x: S,
        y: S,
        local: &L,
        plus: &A,
        rects: &mut HashMap<u64, Rect<S>>,
        Ghost(at): Ghost<int>,
    )
        requires
            self.wf(),
            0 <= at < self.links@.len(),
            self.links@[at].0 == id,
            forall|node: NodeId|
                tree_children(self.tree).contains_key(node) ==> #[trigger] local.requires(
                    (&self.tree, node),
                ),
            forall|a: S, b: S| #[trigger] plus.requires((a, b)),
        ensures
            rect_fits(*local, *plus, self.tree, self.links@, final(rects)@, at, x, y),
            forall|node: int| #[trigger]
                is_under(self.links@, at, node) && node != at ==> rect_fits_parent(
                    *local,
                    *plus,
                    self.tree,
                    self.links@,
                    final(rects)@,
                    node,
                ),
            forall|key: u64|
                !#[trigger] key_is_under(self.links@, at, key) ==> (final(rects)@.contains_key(key)
                    <==> old(rects)@.contains_key(key)) && final(rects)@[key] == old(rects)@[key],
        decreases self.links@.len() - at,
    {
        broadcast use vstd::std_specs::hash::group_hash_axioms;

        let ghost links = self.links@;
        proof {
            assert(ids(links)[at] == id);
            assert(tree_children(self.tree).contains_key(id));
        }
        let inside = local(&self.tree, id);
        let rect = Rect {
            x: plus(x, inside.x),
            y: plus(y, inside.y),
            w: inside.w,
            h: inside.h,
        };
        assert(placed(*local, *plus, self.tree, id, x, y, rect));
        rects.insert(id.raw, rect);
        assert(key_is_under(links, at, id.raw)) by {
            assert(is_under(links, at, at));
        }
        let list = children(&self.tree, id);
        let ghost kids = child_positions(links, at);
        proof {
            lemma_child_positions(links, at);
        }
        let mut i: usize = 0;
        while i < list.len()
            invariant
                i <= list.len(),
                self.wf(),
                links == self.links@,
                0 <= at < links.len(),
                links[at].0 == id,
                kids == child_positions(links, at),
                list@ == children_of(links, at),
                forall|node: NodeId|
                    tree_children(self.tree).contains_key(node) ==> #[trigger] local.requires(
                        (&self.tree, node),
                    ),
                forall|a: S, b: S| #[trigger] plus.requires((a, b)),
                placed(*local, *plus, self.tree, id, x, y, rect),
                rects@.contains_key(id.raw),
                rects@[id.raw] == rect,
                forall|k: int, node: int|
                    0 <= k < i && #[trigger] is_under(links, kids[k], node) ==> rect_fits_parent(
                        *local,
                        *plus,
                        self.tree,
                        links,
                        rects@,
                        node,
                    ),
                forall|key: u64|
                    !#[trigger] key_is_under(links, at, key) ==> (rects@.contains_key(key)
                        <==> old(rects)@.contains_key(key)) && rects@[key] == old(rects)@[key],
            decreases list.len() - i,
        {
            let ghost before = rects@;
            let ghost child = kids[i as int];
            proof {
                lemma_child_positions(links, at);
            }
            self.walk(list[i], rect.x, rect.y, local, plus, rects, Ghost(child));
            proof {
                assert forall|key: u64| !#[trigger] key_is_under(links, at, key) implies (
                rects@.contains_key(key) <==> old(rects)@.contains_key(key)) && rects@[key] == old(
                    rects,
                )@[key] by {
                    lemma_key_under_up(links, at, child, key);
                }
                assert(!key_is_under(links, child, id.raw)) by {
                    lemma_key_not_under(links, child, at);
                }
                assert forall|k: int, node: int|
                    0 <= k < i + 1 && #[trigger] is_under(
                        links,
                        kids[k],
                        node,
                    ) implies rect_fits_parent(*local, *plus, self.tree, links, rects@, node) by {
                    reveal_with_fuel(is_under, 2);
                    if k < i {
                        assert(kids[k] < kids[i as int]);
                        lemma_siblings_apart(links, kids[k], child, node);
                        lemma_key_not_under(links, child, node);
                        if node != kids[k] {
                            lemma_siblings_apart(links, kids[k], child, links[node].1);
                            lemma_key_not_under(links, child, links[node].1);
                        }
                        assert(rect_fits_parent(*local, *plus, self.tree, links, before, node));
                    }
                }
            }
            i += 1;
        }
        proof {
            assert forall|node: int| #[trigger]
                is_under(links, at, node) && node != at implies rect_fits_parent(
                *local,
                *plus,
                self.tree,
                links,
                rects@,
                node,
            ) by {
                let child = lemma_under_child(links, at, node);
                lemma_child_positions(links, at);
                let k = choose|k: int| 0 <= k < kids.len() && kids[k] == child;
                assert(is_under(links, kids[k], node));
            }
        }
    }
}

/// The positions of the children of the node at position `parent`.
spec fn child_positions(links: Seq<(NodeId, int)>, parent: int) -> Seq<int>
    decreases links.len(),
{
    if links.len() == 0 {
        Seq::empty()
    } else {
        let before = child_positions(links.drop_last(), parent);
        if links.last().1 == parent {
            before.push(links.len() - 1)
        } else {
            before
        }
    }
}

/// Whether the rectangle of the node at position `node` is the one that follows
/// from a corner at `x` and `y`.
spec fn rect_fits<S, L: Fn(&TaffyTree<usize>, NodeId) -> Rect<S>, A: Fn(S, S) -> S>(
    local: L,
    plus: A,
    tree: TaffyTree<usize>,
    links: Seq<(NodeId, int)>,
    rects: Map<u64, Rect<S>>,
    node: int,
    x: S,
    y: S,
) -> bool {
    &&& rects.contains_key(links[node].0.raw)
    &&& placed(local, plus, tree, links[node].0, x, y, rects[links[node].0.raw])
}

/// Whether the rectangle of the node at position `node` is the one that follows
/// from the rectangle of its parent.
spec fn rect_fits_parent<S, L: Fn(&TaffyTree<usize>, NodeId) -> Rect<S>, A: Fn(S, S) -> S>(
    local: L,
    plus: A,
    tree: TaffyTree<usize>,
    links: Seq<(NodeId, int)>,
    rects: Map<u64, Rect<S>>,
    node: int,
) -> bool {
    let parent = links[links[node].1].0.raw;
    rect_fits(local, plus, tree, links, rects, node, rects[parent].x, rects[parent].y)
}

/// Whether `key` is the number of the node at position `top` or of one under it.
spec fn key_is_under(links: Seq<(NodeId, int)>, top: int, key: u64) -> bool {
    exists|node: int|
        0 <= node < links.len() && links[node].0.raw == key && #[trigger] is_under(
            links,
            top,
            node,
        )
}

/// The children of a node and their positions.
proof fn lemma_child_positions(links: Seq<(NodeId, int)>, parent: int)
    ensures
        child_positions(links, parent).len() == children_of(links, parent).len(),
        forall|k: int|
            0 <= k < child_positions(links, parent).len() ==> {
                let child = #[trigger] child_positions(links, parent)[k];
                &&& 0 <= child < links.len()
                &&& links[child].1 == parent
                &&& links[child].0 == children_of(links, parent)[k]
            },
        forall|k: int, l: int|
            0 <= k < l < child_positions(links, parent).len() ==> #[trigger] child_positions(
                links,
                parent,
            )[k] < #[trigger] child_positions(links, parent)[l],
        forall|child: int|
            0 <= child < links.len() && (#[trigger] links[child]).1 == parent
                ==> child_positions(links, parent).contains(child),
    decreases links.len(),
{
    if links.len() > 0 {
        let shorter = links.drop_last();
        lemma_child_positions(shorter, parent);
        let before = child_positions(shorter, parent);
        let now = child_positions(links, parent);
        assert forall|k: int| 0 <= k < now.len() implies {
            let child = #[trigger] now[k];
            &&& 0 <= child < links.len()
            &&& links[child].1 == parent
            &&& links[child].0 == children_of(links, parent)[k]
        } by {
            if k < before.len() {
                assert(shorter[before[k]] == links[before[k]]);
            }
        }
        assert forall|k: int, l: int| 0 <= k < l < now.len() implies #[trigger] now[k]
            < #[trigger] now[l] by {
            assert(now[k] == before[k]);
            if l < before.len() {
                assert(now[l] == before[l]);
            }
        }
        assert forall|child: int|
            0 <= child < links.len() && (#[trigger] links[child]).1 == parent implies now.contains(
            child,
        ) by {
            if child < shorter.len() {
                assert(shorter[child] == links[child]);
                let k = choose|k: int| 0 <= k < before.len() && before[k] == child;
                assert(now[k] == child);
            } else {
                assert(now[now.len() - 1] == child);
            }
        }
    }
}

/// What hangs under a node hangs under one of its children.
proof fn lemma_under_child(links: Seq<(NodeId, int)>, top: int, node: int) -> (child: int)
    requires
        is_tree(links),
        0 <= top < node < links.len(),
        is_under(links, top, node),
    ensures
        0 < child < links.len(),
        links[child].1 == top,
        is_under(links, child, node),
    decreases node,
{
    reveal_with_fuel(is_under, 2);
    if links[node].1 == top {
        node
    } else {
        lemma_under_child(links, top, links[node].1)
    }
}

/// What hangs under a child hangs under its parent.
proof fn lemma_under_up(links: Seq<(NodeId, int)>, top: int, child: int, node: int)
    requires
        is_tree(links),
        0 < child < links.len(),
        links[child].1 == top,
        is_under(links, child, node),
    ensures
        is_under(links, top, node),
    decreases node,
{
    reveal_with_fuel(is_under, 2);
    if node != child {
        lemma_under_up(links, top, child, links[node].1);
    }
}

/// What hangs under a child hangs under its parent.
proof fn lemma_key_under_up(links: Seq<(NodeId, int)>, top: int, child: int, key: u64)
    requires
        is_tree(links),
        0 < child < links.len(),
        links[child].1 == top,
    ensures
        key_is_under(links, child, key) ==> key_is_under(links, top, key),
{
    if key_is_under(links, child, key) {
        let node = choose|node: int|
            0 <= node < links.len() && links[node].0.raw == key && #[trigger] is_under(
                links,
                child,
                node,
            );
        lemma_under_up(links, top, child, node);
    }
}

/// The number of a node stands for that node alone.
proof fn lemma_key_not_under(links: Seq<(NodeId, int)>, top: int, node: int)
    requires
        is_tree(links),
        0 <= node < links.len(),
        !is_under(links, top, node),
    ensures
        !key_is_under(links, top, links[node].0.raw),
{
    let key = links[node].0.raw;
    if key_is_under(links, top, key) {
        let same = choose|same: int|
            0 <= same < links.len() && links[same].0.raw == key && #[trigger] is_under(
                links,
                top,
                same,
            );
        assert(links[same].0 == links[node].0);
    }
}

/// Nothing hangs under two children of one node.
proof fn lemma_siblings_apart(links: Seq<(NodeId, int)>, one: int, other: int, node: int)
    requires
        is_tree(links),
        0 < one < links.len(),
        0 < other < links.len(),
        one != other,
        links[one].1 == links[other].1,
        is_under(links, one, node),
    ensures
        !is_under(links, other, node),
    decreases node,
{
    reveal_with_fuel(is_under, 2);
    if node != one && is_under(links, other, node) && node != other {
        lemma_siblings_apart(links, one, other, links[node].1);
    }
}

/// Whether nodes form a tree: the root comes first and has no parent, every
/// other node comes after its parent, and no two nodes have the same id.
pub open spec fn form_tree<T>(nodes: Seq<Node<T>>) -> bool {
    &&& nodes.len() > 0
    &&& nodes[0].parent == -1
    &&& forall|i: int| 0 < i < nodes.len() ==> 0 <= (#[trigger] nodes[i]).parent < i
    &&& forall|i: int, j: int|
        0 <= i < j < nodes.len() ==> (#[trigger] nodes[i]).id != (#[trigger] nodes[j]).id
}

/// At every step of building, the nodes form a tree.
pub proof fn law_building_keeps_tree<T>(builder: Builder<T>)
    requires
        builder.wf(),
    ensures
        form_tree(builder.nodes()),
        has_node(builder.nodes(), builder.parent()),
{
    builder.nodes.lemma_form_tree();
}

/// All that a builder has added since it was set on its node hangs under that
/// node.
pub proof fn law_building_stays_under<T>(builder: Builder<T>)
    requires
        builder.wf(),
    ensures
        hang_under(links_of(builder.nodes()), position(builder.nodes(), builder.parent())),
{
    assert(builder.nodes.links@ =~= links_of(builder.nodes()));
}

/// The nodes of a layout form a tree, with the root first.
pub proof fn law_layout_is_tree<T, S>(layout: Layout<T, S>)
    requires
        layout.wf(),
    ensures
        form_tree(layout.nodes()),
        layout.nodes()[0].id == layout.root(),
{
    layout.nodes.lemma_form_tree();
}

/// The id of each node, and the position of its parent.
pub open spec fn links_of<T>(nodes: Seq<Node<T>>) -> Seq<(NodeId, int)> {
    nodes.map_values(|node: Node<T>| (node.id, node.parent))
}

/// The tree that a layout pass works on is the one that was built: it has the
/// same nodes, each with its children in the order in which they were added,
/// its style, and its position among all nodes.
pub proof fn law_passes_see_what_was_built<T, S>(layout: Layout<T, S>, at: int)
    requires
        layout.wf(),
        0 <= at < layout.nodes().len(),
    ensures
        ({
            let node = layout.nodes()[at];
            &&& tree_children(layout.tree()).contains_key(node.id)
            &&& tree_children(layout.tree())[node.id] == children_of(links_of(layout.nodes()), at)
            &&& tree_styles(layout.tree())[node.id] == node.style
            &&& tree_slots(layout.tree()).contains_key(node.id)
            &&& tree_slots(layout.tree())[node.id] == at
        }),
        forall|id: NodeId| #[trigger]
            tree_children(layout.tree()).contains_key(id) ==> has_node(layout.nodes(), id),
{
    let links = layout.nodes.links@;
    let nodes = layout.nodes();
    assert(links_of(nodes) =~= links);
    assert(ids(links)[at] == nodes[at].id);
    assert(links[at].0 == nodes[at].id);
    assert forall|id: NodeId| #[trigger]
        tree_children(layout.tree()).contains_key(id) implies has_node(nodes, id) by {
        let i = choose|i: int| 0 <= i < ids(links).len() && ids(links)[i] == id;
        assert(nodes[i].id == id);
    }
}

/// Once a layout is computed, the nodes have rectangles and nothing else has.
pub proof fn law_nodes_have_rects<
    T,
    S,
    L: Fn(&TaffyTree<usize>, NodeId) -> Rect<S>,
    A: Fn(S, S) -> S,
>(
    local: L,
    plus: A,
    tree: TaffyTree<usize>,
    nodes: Seq<Node<T>>,
    x: S,
    y: S,
    rects: Map<u64, Rect<S>>,
    id: NodeId,
)
    requires
        all_placed(local, plus, tree, nodes, x, y, rects),
    ensures
        rects.contains_key(id.raw) <==> has_node(nodes, id),
{
    if has_node(nodes, id) {
        assert(nodes[position(nodes, id)].id == id);
    }
    if rects.contains_key(id.raw) {
        assert(NodeId { raw: id.raw } == id);
    }
}

/// Where the nodes are depends on nothing but the tree, the corner of the root,
/// where the layout pass has put each node, and how coordinates are added.
pub proof fn law_rects_are_determined<
    T,
    S,
    L: Fn(&TaffyTree<usize>, NodeId) -> Rect<S>,
    A: Fn(S, S) -> S,
>(
    local: L,
    plus: A,
    tree: TaffyTree<usize>,
    nodes: Seq<Node<T>>,
    x: S,
    y: S,
    one: Map<u64, Rect<S>>,
    other: Map<u64, Rect<S>>,
)
    requires
        form_tree(nodes),
        all_placed(local, plus, tree, nodes, x, y, one),
        all_placed(local, plus, tree, nodes, x, y, other),
        forall|id: NodeId, a: Rect<S>, b: Rect<S>| #[trigger]
            local.ensures((&tree, id), a) && #[trigger] local.ensures((&tree, id), b) ==> a == b,
        forall|a: S, b: S, c: S, d: S| #[trigger]
            plus.ensures((a, b), c) && #[trigger] plus.ensures((a, b), d) ==> c == d,
    ensures
        one == other,
{
    assert forall|key: u64| one.contains_key(key) <==> other.contains_key(key) by {
        law_nodes_have_rects(local, plus, tree, nodes, x, y, one, NodeId { raw: key });
        law_nodes_have_rects(local, plus, tree, nodes, x, y, other, NodeId { raw: key });
    }
    assert forall|key: u64| one.contains_key(key) implies one[key] == other[key] by {
        let at = position(nodes, NodeId { raw: key });
        assert(has_node(nodes, NodeId { raw: key }));
        assert(nodes[at].id == NodeId { raw: key });
        lemma_rect_is_determined(local, plus, tree, nodes, x, y, one, other, at);
    }
    assert(one =~= other);
}

/// Where a node is depends on nothing but where its parent is.
proof fn lemma_rect_is_determined<
    T,
    S,
    L: Fn(&TaffyTree<usize>, NodeId) -> Rect<S>,
    A: Fn(S, S) -> S,
>(
    local: L,
    plus: A,
    tree: TaffyTree<usize>,
    nodes: Seq<Node<T>>,
    x: S,
    y: S,
    one: Map<u64, Rect<S>>,
    other: Map<u64, Rect<S>>,
    at: int,
)
    requires
        form_tree(nodes),
        all_placed(local, plus, tree, nodes, x, y, one),
        all_placed(local, plus, tree, nodes, x, y, other),
        forall|id: NodeId, a: Rect<S>, b: Rect<S>| #[trigger]
            local.ensures((&tree, id), a) && #[trigger] local.ensures((&tree, id), b) ==> a == b,
        forall|a: S, b: S, c: S, d: S| #[trigger]
            plus.ensures((a, b), c) && #[trigger] plus.ensures((a, b), d) ==> c == d,
        0 <= at < nodes.len(),
    ensures
        one[nodes[at].id.raw] == other[nodes[at].id.raw],
    decreases at,
{
    let key = nodes[at].id.raw;
    if at > 0 {
        lemma_rect_is_determined(
            local,
            plus,
            tree,
            nodes,
            x,
            y,
            one,
            other,
            nodes[at].parent,
        );
    }
    let (cx, cy) = if at > 0 {
        let parent = one[nodes[nodes[at].parent].id.raw];
        (parent.x, parent.y)
    } else {
        (x, y)
    };
    assert(placed(local, plus, tree, nodes[at].id, cx, cy, one[key]));
    assert(placed(local, plus, tree, nodes[at].id, cx, cy, other[key]));
}

/// The sum of a coordinate over the way from the root down to the node at position
/// `at`, starting from `origin`. `inside` is where each node is inside its parent.
pub open spec fn sum_to<T, S>(
    nodes: Seq<Node<T>>,
    inside: spec_fn(NodeId) -> S,
    total: spec_fn(S, S) -> S,
    origin: S,
    at: int,
) -> S
    decreases at,
{
    if 0 < at < nodes.len() && 0 <= nodes[at].parent < at {
        total(sum_to(nodes, inside, total, origin, nodes[at].parent), inside(nodes[at].id))
    } else {
        total(origin, inside(nodes[at].id))
    }
}

/// The corner of a node is the corner of the available rectangle plus the places
/// of all nodes from the root down to it inside their parents, and its size is the
/// one that the layout pass gave it.
pub proof fn law_corners_add_up<
    T,
    S,
    L: Fn(&TaffyTree<usize>, NodeId) -> Rect<S>,
    A: Fn(S, S) -> S,
>(
    local: L,
    plus: A,
    tree: TaffyTree<usize>,
    nodes: Seq<Node<T>>,
    x: S,
    y: S,
    rects: Map<u64, Rect<S>>,
    inside: spec_fn(NodeId) -> Rect<S>,
    total: spec_fn(S, S) -> S,
    at: int,
)
    requires
        form_tree(nodes),
        all_placed(local, plus, tree, nodes, x, y, rects),
        forall|id: NodeId, r: Rect<S>| #[trigger]
            local.ensures((&tree, id), r) ==> r == inside(id),
        forall|a: S, b: S, c: S| #[trigger] plus.ensures((a, b), c) ==> c == total(a, b),
        0 <= at < nodes.len(),
    ensures
        rects[nodes[at].id.raw].x == sum_to(nodes, |id: NodeId| inside(id).x, total, x, at),
        rects[nodes[at].id.raw].y == sum_to(nodes, |id: NodeId| inside(id).y, total, y, at),
        rects[nodes[at].id.raw].w == inside(nodes[at].id).w,
        rects[nodes[at].id.raw].h == inside(nodes[at].id).h,
    decreases at,
{
    let key = nodes[at].id.raw;
    if at > 0 {
        let parent = nodes[at].parent;
        law_corners_add_up(local, plus, tree, nodes, x, y, rects, inside, total, parent);
        assert(placed(
            local,
            plus,
            tree,
            nodes[at].id,
            rects[nodes[parent].id.raw].x,
            rects[nodes[parent].id.raw].y,
            rects[key],
        ));
    } else {
        assert(placed(local, plus, tree, nodes[at].id, x, y, rects[key]));
    }
}

/// Another corner of the root moves every rectangle by the same amount and keeps
/// its size, as long as the layout pass puts each node at the same place inside
/// its parent. The amount is given by how it moves a coordinate: `move_x` and
/// `move_y` move a sum by as much as they move what is added to.
pub proof fn law_corner_moves_all<
    T,
    S,
    L: Fn(&TaffyTree<usize>, NodeId) -> Rect<S>,
    A: Fn(S, S) -> S,
>(
    local: L,
    plus: A,
    tree: TaffyTree<usize>,
    other_tree: TaffyTree<usize>,
    nodes: Seq<Node<T>>,
    x: S,
    y: S,
    move_x: spec_fn(S) -> S,
    move_y: spec_fn(S) -> S,
    rects: Map<u64, Rect<S>>,
    moved: Map<u64, Rect<S>>,
    at: int,
)
    requires
        form_tree(nodes),
        all_placed(local, plus, tree, nodes, x, y, rects),
        all_placed(local, plus, other_tree, nodes, move_x(x), move_y(y), moved),
        forall|id: NodeId, a: Rect<S>, b: Rect<S>| #[trigger]
            local.ensures((&tree, id), a) && #[trigger] local.ensures((&other_tree, id), b) ==> a
                == b,
        forall|a: S, b: S, c: S, d: S| #[trigger]
            plus.ensures((a, b), c) && #[trigger] plus.ensures((move_x(a), b), d) ==> d == move_x(
                c,
            ),
        forall|a: S, b: S, c: S, d: S| #[trigger]
            plus.ensures((a, b), c) && #[trigger] plus.ensures((move_y(a), b), d) ==> d == move_y(
                c,
            ),
        0 <= at < nodes.len(),
    ensures
        moved[nodes[at].id.raw].x == move_x(rects[nodes[at].id.raw].x),
        moved[nodes[at].id.raw].y == move_y(rects[nodes[at].id.raw].y),
        moved[nodes[at].id.raw].w == rects[nodes[at].id.raw].w,
        moved[nodes[at].id.raw].h == rects[nodes[at].id.raw].h,
    decreases at,
{
    let key = nodes[at].id.raw;
    if at > 0 {
        law_corner_moves_all(
            local,
            plus,
            tree,
            other_tree,
            nodes,
            x,
            y,
            move_x,
            move_y,
            rects,
            moved,
            nodes[at].parent,
        );
    }
    let (cx, cy) = if at > 0 {
        let parent = rects[nodes[nodes[at].parent].id.raw];
        (parent.x, parent.y)
    } else {
        (x, y)
    };
    assert(placed(local, plus, tree, nodes[at].id, cx, cy, rects[key]));
    assert(placed(local, plus, other_tree, nodes[at].id, move_x(cx), move_y(cy), moved[key]));
}

/// The data that was stored with a node, or the style that it was given, is what
/// is read of that node afterwards. No other node changes, and the tree stays
/// as it is.
pub proof fn law_change_reads_back<T>(nodes: Seq<Node<T>>, id: NodeId, other: NodeId, node: Node<T>)
    requires
        form_tree(nodes),
        has_node(nodes, id),
        has_node(nodes, other),
        node.id == id,
        node.parent == nodes[position(nodes, id)].parent,
    ensures
        ({
            let after = nodes.update(position(nodes, id), node);
            &&& form_tree(after)
            &&& has_node(after, id)
            &&& after[position(after, id)] == node
            &&& has_node(after, other)
            &&& position(after, other) == position(nodes, other)
            &&& other != id ==> after[position(after, other)] == nodes[position(nodes, other)]
        }),
{
    let at = position(nodes, id);
    let other_at = position(nodes, other);
    let after = nodes.update(at, node);
    assert(nodes[at].id == id);
    assert(nodes[other_at].id == other);
    assert forall|i: int| 0 <= i < after.len() implies (#[trigger] after[i]).id == nodes[i].id
        && after[i].parent == nodes[i].parent by {}
    assert(form_tree(after));
    lemma_position_is_unique(after, at);
    lemma_position_is_unique(after, other_at);
}

/// In a tree, an id has one position.
pub proof fn lemma_position_is_unique<T>(nodes: Seq<Node<T>>, at: int)
    requires
        form_tree(nodes),
        0 <= at < nodes.len(),
    ensures
        has_node(nodes, nodes[at].id),
        position(nodes, nodes[at].id) == at,
{
    let found = position(nodes, nodes[at].id);
    assert(nodes[found].id == nodes[at].id);
}

/// A node is still there among more nodes.
proof fn lemma_has_node_prefix<T>(nodes: Seq<Node<T>>, more: Seq<Node<T>>, id: NodeId)
    requires
        has_node(nodes, id),
        nodes.is_prefix_of(more),
    ensures
        has_node(more, id),
{
    let i = position(nodes, id);
    assert(nodes[i] == more[i]);
}

/// A node that none of the links names as a parent has no children.
proof fn lemma_no_children(links: Seq<(NodeId, int)>, parent: int)
    requires
        forall|i: int| 0 <= i < links.len() ==> (#[trigger] links[i]).1 != parent,
    ensures
        children_of(links, parent) == Seq::<NodeId>::empty(),
    decreases links.len(),
{
    if links.len() > 0 {
        assert forall|i: int| 0 <= i < links.drop_last().len() implies (
        #[trigger] links.drop_last()[i]).1 != parent by {
            assert(links.drop_last()[i] == links[i]);
        }
        lemma_no_children(links.drop_last(), parent);
    }
}

/// A longer sequence has one more element in its set.
proof fn lemma_push_to_set(list: Seq<NodeId>, id: NodeId)
    ensures
        list.push(id).to_set() == list.to_set().insert(id),
{
    let longer = list.push(id);
    assert forall|x: NodeId| longer.to_set().contains(x) <==> list.to_set().insert(id).contains(
        x,
    ) by {
        if list.contains(x) {
            let i = choose|i: int| 0 <= i < list.len() && list[i] == x;
            assert(longer[i] == x);
        }
        assert(longer[list.len() as int] == id);
    }
    assert(longer.to_set() =~= list.to_set().insert(id));
}

} // verus!
