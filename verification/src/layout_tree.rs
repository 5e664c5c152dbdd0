//! The layout tree: an arena-backed n-ary tree of boxes.
//!
//! Every box holds a style snapshot, its parent handle, its previous
//! and next sibling handles, and (for containers) its first and last
//! child handles. Containers additionally may carry "ib-sibling"
//! links: a secondary chain connecting a split inline's pieces.
//!
//! The tree's well-formedness (`wf`) states that the sibling, parent
//! and child links agree in both directions with a ghost per-container
//! child order, and that descendant sets are consistent, which rules
//! out cycles and gives every traversal a termination measure.

use vstd::prelude::*;

use crate::allocator::Allocator;
use crate::geometry::{Au, PhysicalSize};
use crate::style::{ComputedStyle, PseudoElement};

verus! {

/// A stable handle to a box in the layout tree.
#[derive(Debug, Copy, Clone, PartialEq, Eq, Structural)]
pub struct LayoutNodeId(pub usize);

/// The content of a box that has no children.
#[derive(Debug, Clone, PartialEq, Eq)]
pub enum LeafKind {
    Text { text: Vec<char> },
    Replaced { intrinsic_size: PhysicalSize<Au> },
}

/// Whether a container is laid out as a block or as an inline, with
/// the optional ib-sibling chain links.
#[derive(Debug, Clone, PartialEq, Eq, Structural)]
pub enum ContainerKind {
    Block {
        prev_ib_sibling: Option<LayoutNodeId>,
        next_ib_sibling: Option<LayoutNodeId>,
    },
    Inline {
        prev_ib_sibling: Option<LayoutNodeId>,
        next_ib_sibling: Option<LayoutNodeId>,
    },
}

impl ContainerKind {
    /// An inline container kind with no ib-sibling links.
    pub fn inline() -> (r: ContainerKind)
        ensures
            r == (ContainerKind::Inline { prev_ib_sibling: None, next_ib_sibling: None }),
    {
        ContainerKind::Inline { prev_ib_sibling: None, next_ib_sibling: None }
    }

    /// A block container kind with no ib-sibling links.
    pub fn block() -> (r: ContainerKind)
        ensures
            r == (ContainerKind::Block { prev_ib_sibling: None, next_ib_sibling: None }),
    {
        ContainerKind::Block { prev_ib_sibling: None, next_ib_sibling: None }
    }

    pub fn is_block(&self) -> (r: bool)
        ensures
            r == (self is Block),
    {
        match *self {
            ContainerKind::Block { .. } => true,
            ContainerKind::Inline { .. } => false,
        }
    }

    pub fn is_inline(&self) -> (r: bool)
        ensures
            r == (self is Inline),
    {
        match *self {
            ContainerKind::Inline { .. } => true,
            ContainerKind::Block { .. } => false,
        }
    }
}

/// A box is either a leaf or a container with a child list.
#[derive(Debug, Clone, PartialEq, Eq)]
pub enum LayoutNodeKind {
    Leaf { kind: LeafKind },
    Container {
        first_child: Option<LayoutNodeId>,
        last_child: Option<LayoutNodeId>,
        kind: ContainerKind,
    },
}

/// One box of the layout tree: a style snapshot plus tree links.
#[derive(Debug, Clone, PartialEq, Eq)]
pub struct LayoutNode {
    pub style: ComputedStyle,
    pub parent: Option<LayoutNodeId>,
    pub prev_sibling: Option<LayoutNodeId>,
    pub next_sibling: Option<LayoutNodeId>,
    pub kind: LayoutNodeKind,
}

impl LayoutNode {
    /// A fresh leaf box, not yet linked anywhere.
    pub fn new_leaf(style: ComputedStyle, kind: LeafKind) -> (r: LayoutNode)
        ensures
            r == (LayoutNode {
                style,
                parent: None,
                prev_sibling: None,
                next_sibling: None,
                kind: LayoutNodeKind::Leaf { kind },
            }),
    {
        LayoutNode {
            style,
            parent: None,
            prev_sibling: None,
            next_sibling: None,
            kind: LayoutNodeKind::Leaf { kind },
        }
    }

    /// A fresh childless container box, not yet linked anywhere.
    pub fn new_container(style: ComputedStyle, kind: ContainerKind) -> (r: LayoutNode)
        ensures
            r == (LayoutNode {
                style,
                parent: None,
                prev_sibling: None,
                next_sibling: None,
                kind: LayoutNodeKind::Container { first_child: None, last_child: None, kind },
            }),
    {
        LayoutNode {
            style,
            parent: None,
            prev_sibling: None,
            next_sibling: None,
            kind: LayoutNodeKind::Container { first_child: None, last_child: None, kind },
        }
    }

    pub open spec fn spec_is_container(self) -> bool {
        self.kind is Container
    }

    pub fn is_container(&self) -> (r: bool)
        ensures
            r == self.spec_is_container(),
    {
        match self.kind {
            LayoutNodeKind::Container { .. } => true,
            LayoutNodeKind::Leaf { .. } => false,
        }
    }

    pub open spec fn spec_is_block_container(self) -> bool {
        match self.kind {
            LayoutNodeKind::Container { kind, .. } => kind is Block,
            LayoutNodeKind::Leaf { .. } => false,
        }
    }

    pub fn is_block_container(&self) -> (r: bool)
        ensures
            r == self.spec_is_block_container(),
    {
        match self.kind {
            LayoutNodeKind::Container { ref kind, .. } => kind.is_block(),
            LayoutNodeKind::Leaf { .. } => false,
        }
    }

    pub open spec fn spec_is_inline(self) -> bool {
        match self.kind {
            LayoutNodeKind::Container { kind, .. } => kind is Inline,
            LayoutNodeKind::Leaf { .. } => false,
        }
    }

    pub fn is_inline(&self) -> (r: bool)
        ensures
            r == self.spec_is_inline(),
    {
        match self.kind {
            LayoutNodeKind::Container { ref kind, .. } => kind.is_inline(),
            LayoutNodeKind::Leaf { .. } => false,
        }
    }

    pub open spec fn spec_is_anonymous(self) -> bool {
        self.style.spec_is_anonymous()
    }

    /// Whether this box was synthesized rather than generated by an
    /// element.
    pub fn is_anonymous(&self) -> (r: bool)
        ensures
            r == self.spec_is_anonymous(),
    {
        self.style.is_anonymous()
    }

    pub open spec fn spec_first_child(self) -> Option<LayoutNodeId> {
        match self.kind {
            LayoutNodeKind::Container { first_child, .. } => first_child,
            LayoutNodeKind::Leaf { .. } => None,
        }
    }

    pub fn first_child(&self) -> (r: Option<LayoutNodeId>)
        ensures
            r == self.spec_first_child(),
    {
        match self.kind {
            LayoutNodeKind::Container { first_child, .. } => first_child,
            LayoutNodeKind::Leaf { .. } => None,
        }
    }

    pub open spec fn spec_last_child(self) -> Option<LayoutNodeId> {
        match self.kind {
            LayoutNodeKind::Container { last_child, .. } => last_child,
            LayoutNodeKind::Leaf { .. } => None,
        }
    }

    pub fn last_child(&self) -> (r: Option<LayoutNodeId>)
        ensures
            r == self.spec_last_child(),
    {
        match self.kind {
            LayoutNodeKind::Container { last_child, .. } => last_child,
            LayoutNodeKind::Leaf { .. } => None,
        }
    }

    pub fn has_children(&self) -> (r: bool)
        ensures
            r == (self.spec_first_child() is Some),
    {
        self.first_child().is_some()
    }

    pub open spec fn spec_prev_ib_sibling(self) -> Option<LayoutNodeId> {
        match self.kind {
            LayoutNodeKind::Container { kind, .. } => match kind {
                ContainerKind::Block { prev_ib_sibling, .. } => prev_ib_sibling,
                ContainerKind::Inline { prev_ib_sibling, .. } => prev_ib_sibling,
            },
            LayoutNodeKind::Leaf { .. } => None,
        }
    }

    pub fn prev_ib_sibling(&self) -> (r: Option<LayoutNodeId>)
        ensures
            r == self.spec_prev_ib_sibling(),
    {
        match self.kind {
            LayoutNodeKind::Container { ref kind, .. } => match *kind {
                ContainerKind::Block { prev_ib_sibling, .. }
                | ContainerKind::Inline { prev_ib_sibling, .. } => prev_ib_sibling,
            },
            LayoutNodeKind::Leaf { .. } => None,
        }
    }

    pub open spec fn spec_next_ib_sibling(self) -> Option<LayoutNodeId> {
        match self.kind {
            LayoutNodeKind::Container { kind, .. } => match kind {
                ContainerKind::Block { next_ib_sibling, .. } => next_ib_sibling,
                ContainerKind::Inline { next_ib_sibling, .. } => next_ib_sibling,
            },
            LayoutNodeKind::Leaf { .. } => None,
        }
    }

    pub fn next_ib_sibling(&self) -> (r: Option<LayoutNodeId>)
        ensures
            r == self.spec_next_ib_sibling(),
    {
        match self.kind {
            LayoutNodeKind::Container { ref kind, .. } => match *kind {
                ContainerKind::Block { next_ib_sibling, .. }
                | ContainerKind::Inline { next_ib_sibling, .. } => next_ib_sibling,
            },
            LayoutNodeKind::Leaf { .. } => None,
        }
    }

    /// A box not linked into the tree: no parent and no siblings.
    pub open spec fn spec_detached(self) -> bool {
        self.parent is None && self.prev_sibling is None && self.next_sibling is None
    }

    /// A box fit for `alloc`: detached, childless, with no ib links.
    pub open spec fn spec_fresh(self) -> bool {
        &&& self.spec_detached()
        &&& self.spec_first_child() is None
        &&& self.spec_last_child() is None
        &&& self.spec_prev_ib_sibling() is None
        &&& self.spec_next_ib_sibling() is None
    }

    /// The same box contents apart from tree links: equal style, and
    /// an equal leaf payload or an equal container flavour.
    pub open spec fn same_payload(self, other: LayoutNode) -> bool {
        &&& self.style == other.style
        &&& match (self.kind, other.kind) {
            (LayoutNodeKind::Leaf { kind: a }, LayoutNodeKind::Leaf { kind: b }) => a == b,
            (
                LayoutNodeKind::Container { kind: a, .. },
                LayoutNodeKind::Container { kind: b, .. },
            ) => (a is Block) == (b is Block),
            _ => false,
        }
    }

    /// This box with its parent and sibling links replaced.
    pub open spec fn with_links(
        self,
        parent: Option<LayoutNodeId>,
        prev_sibling: Option<LayoutNodeId>,
        next_sibling: Option<LayoutNodeId>,
    ) -> LayoutNode {
        LayoutNode { parent, prev_sibling, next_sibling, ..self }
    }

    /// This container with its first/last child handles replaced.
    pub open spec fn with_first_last(
        self,
        first_child: Option<LayoutNodeId>,
        last_child: Option<LayoutNodeId>,
    ) -> LayoutNode {
        match self.kind {
            LayoutNodeKind::Container { kind, .. } => LayoutNode {
                kind: LayoutNodeKind::Container { first_child, last_child, kind },
                ..self
            },
            LayoutNodeKind::Leaf { .. } => self,
        }
    }

    /// This container with its ib-sibling links replaced.
    pub open spec fn with_ib(
        self,
        prev_ib: Option<LayoutNodeId>,
        next_ib: Option<LayoutNodeId>,
    ) -> LayoutNode {
        match self.kind {
            LayoutNodeKind::Container { first_child, last_child, kind } => {
                let new_kind = match kind {
                    ContainerKind::Block { .. } => ContainerKind::Block {
                        prev_ib_sibling: prev_ib,
                        next_ib_sibling: next_ib,
                    },
                    ContainerKind::Inline { .. } => ContainerKind::Inline {
                        prev_ib_sibling: prev_ib,
                        next_ib_sibling: next_ib,
                    },
                };
                LayoutNode {
                    kind: LayoutNodeKind::Container { first_child, last_child, kind: new_kind },
                    ..self
                }
            },
            LayoutNodeKind::Leaf { .. } => self,
        }
    }
}

/// A candidate position in the tree: a parent and an optional
/// previous sibling, not yet legalized against box-generation rules.
#[derive(Debug, Copy, Clone, PartialEq, Eq, Structural)]
pub struct InsertionPoint {
    pub parent: LayoutNodeId,
    pub prev_sibling: Option<LayoutNodeId>,
}

/// The arena-backed box tree with a permanent viewport root.
pub struct LayoutTree {
    nodes: Allocator<LayoutNode>,
    root: LayoutNodeId,
    /// Per-container child order, in sibling order.
    children_order: Ghost<Map<int, Seq<LayoutNodeId>>>,
    /// Per-box descendant set (own slot index included).
    desc_sets: Ghost<Map<int, Set<int>>>,
    /// Per-container chain of ib-siblings reachable through
    /// `next_ib_sibling`, nearest first.
    ib_chains: Ghost<Map<int, Seq<LayoutNodeId>>>,
}

impl LayoutTree {
    /// The slot sequence of the underlying arena.
    pub closed spec fn slots(self) -> Seq<Option<LayoutNode>> {
        self.nodes@
    }

    /// Whether `id` is a live box of this tree.
    pub open spec fn is_node(self, id: LayoutNodeId) -> bool {
        id.0 < self.slots().len() && self.slots()[id.0 as int] is Some
    }

    /// The box behind a live handle.
    pub open spec fn node_at(self, id: LayoutNodeId) -> LayoutNode {
        self.slots()[id.0 as int]->0
    }

    pub open spec fn is_container_node(self, id: LayoutNodeId) -> bool {
        self.is_node(id) && self.node_at(id).spec_is_container()
    }

    /// The ordered children of a container.
    pub closed spec fn kids(self, c: LayoutNodeId) -> Seq<LayoutNodeId> {
        self.children_order@[c.0 as int]
    }

    /// The slot indices of `id` and all boxes below it.
    pub closed spec fn descs(self, id: LayoutNodeId) -> Set<int> {
        self.desc_sets@[id.0 as int]
    }

    /// The ib-siblings reachable from `id` through `next_ib_sibling`.
    pub closed spec fn ib_chain(self, id: LayoutNodeId) -> Seq<LayoutNodeId> {
        self.ib_chains@[id.0 as int]
    }

    pub closed spec fn spec_root(self) -> LayoutNodeId {
        self.root
    }

    // Well-formedness, split into named pieces.

    /// The ghost maps cover every live box.
    pub closed spec fn wf_ghost_dom(self) -> bool {
        forall|id: LayoutNodeId|
            #[trigger] self.is_node(id) ==> {
                &&& self.desc_sets@.contains_key(id.0 as int)
                &&& self.ib_chains@.contains_key(id.0 as int)
                &&& self.node_at(id).spec_is_container() ==> self.children_order@.contains_key(
                    id.0 as int,
                )
            }
    }

    /// The root is a live block container with no parent or siblings.
    pub open spec fn wf_root(self) -> bool {
        &&& self.is_node(self.spec_root())
        &&& self.node_at(self.spec_root()).spec_is_block_container()
        &&& self.node_at(self.spec_root()).spec_detached()
        &&& self.node_at(self.spec_root()).style.pseudo == Some(PseudoElement::Viewport)
    }

    /// One container's links agree with its ghost child order.
    pub open spec fn wf_container(self, c: LayoutNodeId) -> bool {
        let s = self.kids(c);
        &&& forall|i: int|
            0 <= i < s.len() ==> {
                &&& self.is_node(#[trigger] s[i])
                &&& self.node_at(s[i]).parent == Some(c)
                &&& self.node_at(s[i]).prev_sibling == (if i == 0 {
                    None
                } else {
                    Some(s[i - 1])
                })
                &&& self.node_at(s[i]).next_sibling == (if i == s.len() - 1 {
                    None
                } else {
                    Some(s[i + 1])
                })
            }
        &&& forall|i: int, j: int| 0 <= i < j < s.len() ==> s[i] != s[j]
        &&& self.node_at(c).spec_first_child() == (if s.len() == 0 {
            None
        } else {
            Some(s[0])
        })
        &&& self.node_at(c).spec_last_child() == (if s.len() == 0 {
            None
        } else {
            Some(s[s.len() - 1])
        })
    }

    /// Parent/child/sibling links are mutually consistent everywhere.
    pub open spec fn wf_links(self) -> bool {
        &&& forall|c: LayoutNodeId| #[trigger] self.is_container_node(c) ==> self.wf_container(c)
        &&& forall|x: LayoutNodeId|
            #[trigger] self.is_node(x) ==> match self.node_at(x).parent {
                Some(p) => self.is_container_node(p) && self.kids(p).contains(x),
                None => self.node_at(x).prev_sibling is None && self.node_at(x).next_sibling
                    is None,
            }
    }

    /// Descendant sets are exact: each box is in its own set, the set
    /// of a child is inside the set of its parent (which is not in the
    /// child's set), and every strict member comes from some child.
    pub open spec fn wf_desc(self) -> bool {
        &&& forall|x: LayoutNodeId|
            #![trigger self.descs(x)]
            self.is_node(x) ==> {
                &&& self.descs(x).contains(x.0 as int)
                &&& self.descs(x).finite()
                &&& forall|y: int|
                    #[trigger] self.descs(x).contains(y) ==> 0 <= y && self.is_node(
                        LayoutNodeId(y as usize),
                    )
                &&& match self.node_at(x).parent {
                    Some(p) => self.descs(x).subset_of(self.descs(p)) && !self.descs(x).contains(
                        p.0 as int,
                    ),
                    None => true,
                }
            }
        &&& forall|x: LayoutNodeId, y: int|
            self.is_node(x) && #[trigger] self.descs(x).contains(y) && y != x.0 as int
                ==> self.is_container_node(x) && exists|i: int|
                0 <= i < self.kids(x).len() && #[trigger] self.descs(self.kids(x)[i]).contains(y)
    }

    /// The ib chains follow the `next_ib_sibling` links exactly, and
    /// each link joins a block container to an inline container.
    pub closed spec fn wf_ib(self) -> bool {
        &&& forall|x: LayoutNodeId|
            #![trigger self.ib_chain(x)]
            self.is_node(x) ==> match self.node_at(x).spec_next_ib_sibling() {
                None => self.ib_chain(x).len() == 0,
                Some(y) => {
                    &&& self.is_node(y)
                    &&& self.ib_chain(x) == seq![y] + self.ib_chain(y)
                    &&& self.node_at(x).spec_is_container()
                    &&& y.0 != x.0
                    &&& self.node_at(y).spec_is_container()
                    &&& self.node_at(y).spec_prev_ib_sibling() == Some(x)
                    &&& self.node_at(x).spec_is_block_container()
                        != self.node_at(y).spec_is_block_container()
                },
            }
    }

    /// The underlying arena's own consistency.
    pub closed spec fn wf_arena(self) -> bool {
        self.nodes.wf()
    }

    /// Full structural well-formedness.
    pub open spec fn wf(self) -> bool {
        &&& self.wf_arena()
        &&& self.wf_ghost_dom()
        &&& self.wf_root()
        &&& self.wf_links()
        &&& self.wf_desc()
        &&& self.wf_ib()
    }

    /// A new tree holding only the viewport root box.
    pub fn new() -> (r: LayoutTree)
        ensures
            r.wf(),
            r.is_node(r.spec_root()),
            r.node_at(r.spec_root()) == (LayoutNode {
                style: ComputedStyle::spec_new_anonymous(
                    PseudoElement::Viewport,
                    crate::style::Display {
                        outside: crate::style::DisplayOutside::Block,
                        inside: crate::style::DisplayInside::Flow,
                        is_list_item: false,
                    },
                ),
                parent: None,
                prev_sibling: None,
                next_sibling: None,
                kind: LayoutNodeKind::Container {
                    first_child: None,
                    last_child: None,
                    kind: ContainerKind::Block {
                        prev_ib_sibling: None,
                        next_ib_sibling: None,
                    },
                },
            }),
            r.kids(r.spec_root()).len() == 0,
            forall|x: LayoutNodeId| r.is_node(x) ==> x == r.spec_root(),
    {
        let root_node = LayoutNode::new_container(
            ComputedStyle::for_viewport(),
            ContainerKind::block(),
        );
        let mut nodes: Allocator<LayoutNode> = Default::default();
        let root_ix = nodes.allocate(root_node);
        let root = LayoutNodeId(root_ix);
        let tree = LayoutTree {
            nodes,
            root,
            children_order: Ghost(Map::empty().insert(root_ix as int, Seq::empty())),
            desc_sets: Ghost(
                Map::empty().insert(root_ix as int, Set::empty().insert(root_ix as int)),
            ),
            ib_chains: Ghost(Map::empty().insert(root_ix as int, Seq::empty())),
        };
        tree
    }

    /// The handle of the viewport root box.
    pub fn root(&self) -> (r: LayoutNodeId)
        ensures
            r == self.spec_root(),
    {
        self.root
    }

    /// A reference to the box behind a live handle.
    pub fn node(&self, id: LayoutNodeId) -> (r: &LayoutNode)
        requires
            self.is_node(id),
        ensures
            *r == self.node_at(id),
    {
        match self.nodes.get(id.0) {
            Some(n) => n,
            None => vstd::pervasive::unreached(),
        }
    }

    /// A reference to the root box.
    pub fn root_node(&self) -> (r: &LayoutNode)
        requires
            self.wf(),
        ensures
            *r == self.node_at(self.spec_root()),
    {
        self.node(self.root)
    }
}

} // verus!

verus! {

/// `s` with `v` inserted so that it lands at position `idx`.
pub open spec fn seq_insert<T>(s: Seq<T>, idx: int, v: T) -> Seq<T> {
    Seq::new(
        s.len() + 1,
        |i: int|
            if i < idx {
                s[i]
            } else if i == idx {
                v
            } else {
                s[i - 1]
            },
    )
}

/// `s` with the element at `idx` removed, stated pointwise.
pub open spec fn seq_remove<T>(s: Seq<T>, idx: int) -> Seq<T> {
    Seq::new(
        (s.len() - 1) as nat,
        |i: int|
            if i < idx {
                s[i]
            } else {
                s[i + 1]
            },
    )
}

/// The position a box inserted after `prev` takes in the child list
/// `s`: the front for `None`, else right after `prev`.
pub open spec fn child_insert_index(s: Seq<LayoutNodeId>, prev: Option<LayoutNodeId>) -> int {
    match prev {
        None => 0,
        Some(p) => s.index_of(p) + 1,
    }
}

impl LayoutTree {
    /// Compares two optional handles.
    fn eq_opt(a: Option<LayoutNodeId>, b: Option<LayoutNodeId>) -> (r: bool)
        ensures
            r == (a == b),
    {
        match (a, b) {
            (None, None) => true,
            (Some(x), Some(y)) => x.0 == y.0,
            _ => false,
        }
    }

    /// A mutable reference to the box behind a live handle. Only the
    /// arena changes; the ghost structure is untouched.
    fn node_mut(&mut self, id: LayoutNodeId) -> (r: &mut LayoutNode)
        requires
            old(self).wf_arena(),
            old(self).is_node(id),
        ensures
            *r == old(self).node_at(id),
            final(self).slots() == old(self).slots().update(id.0 as int, Some(*final(r))),
            final(self).wf_arena(),
            final(self).children_order == old(self).children_order,
            final(self).desc_sets == old(self).desc_sets,
            final(self).ib_chains == old(self).ib_chains,
            final(self).spec_root() == old(self).spec_root(),
    {
        self.nodes.get_mut(id.0)
    }

    /// Everything below a child is below its container.
    proof fn lemma_desc_transitive(self, x: LayoutNodeId, y: int)
        requires
            self.wf(),
            self.is_node(x),
            self.descs(x).contains(y),
        ensures
            self.is_node(LayoutNodeId(y as usize)),
            self.descs(LayoutNodeId(y as usize)).subset_of(self.descs(x)),
        decreases self.descs(x).len(),
    {
        if y == x.0 as int {
        } else {
            let i = choose|i: int|
                0 <= i < self.kids(x).len() && #[trigger] self.descs(self.kids(x)[i]).contains(y);
            let c = self.kids(x)[i];
            assert(self.is_container_node(x));
            assert(self.wf_container(x));
            assert(self.is_node(c));
            assert(self.node_at(c).parent == Some(x));
            assert(self.descs(c).subset_of(self.descs(x)));
            assert(!self.descs(c).contains(x.0 as int));
            self.descs(c).lemma_subset_not_in_lt(self.descs(x), x.0 as int);
            self.lemma_desc_transitive(c, y);
        }
    }

    /// Allocates a box inside the tree's arena. The box must then be
    /// linked in through the insertion path.
    #[verifier::rlimit(50)]
    pub fn alloc_node(&mut self, node: LayoutNode) -> (id: LayoutNodeId)
        requires
            old(self).wf(),
            node.spec_fresh(),
        ensures
            final(self).wf(),
            final(self).is_node(id),
            !old(self).is_node(id),
            final(self).node_at(id) == node,
            final(self).spec_root() == old(self).spec_root(),
            forall|x: LayoutNodeId|
                old(self).is_node(x) ==> #[trigger] final(self).is_node(x) && final(self).node_at(
                    x,
                ) == old(self).node_at(x),
            forall|x: LayoutNodeId| #[trigger] final(self).is_node(x) ==> old(self).is_node(x) || x == id,
            forall|c: LayoutNodeId|
                old(self).is_container_node(c) ==> #[trigger] final(self).kids(c) == old(
                    self,
                ).kids(c),
            node.spec_is_container() ==> final(self).kids(id) == Seq::<LayoutNodeId>::empty(),
            forall|x: LayoutNodeId|
                old(self).is_node(x) ==> #[trigger] final(self).descs(x) == old(self).descs(x),
            final(self).descs(id) == Set::empty().insert(id.0 as int),
            forall|x: LayoutNodeId|
                old(self).is_node(x) ==> #[trigger] final(self).ib_chain(x) == old(self).ib_chain(
                    x,
                ),
            final(self).ib_chain(id) == Seq::<LayoutNodeId>::empty(),
    {
        let ghost t0 = *self;
        let ix = self.nodes.allocate(node);
        let id = LayoutNodeId(ix);
        self.children_order = Ghost(self.children_order@.insert(ix as int, Seq::empty()));
        self.desc_sets = Ghost(self.desc_sets@.insert(ix as int, Set::empty().insert(ix as int)));
        self.ib_chains = Ghost(self.ib_chains@.insert(ix as int, Seq::empty()));
        proof {
            assert forall|x: LayoutNodeId| t0.is_node(x) implies #[trigger] self.is_node(x)
                && self.node_at(x) == t0.node_at(x) by {}
            assert forall|x: LayoutNodeId| #[trigger] self.is_node(x) && x != id implies t0
                .is_node(x) by {}
            assert(self.is_node(id) && self.node_at(id) == node);
            assert forall|c: LayoutNodeId| t0.is_container_node(c) implies #[trigger] self.kids(c)
                == t0.kids(c) by {}
            assert forall|x: LayoutNodeId| t0.is_node(x) implies #[trigger] self.descs(x) == t0
                .descs(x) by {}
            assert forall|x: LayoutNodeId| t0.is_node(x) implies #[trigger] self.ib_chain(x) == t0
                .ib_chain(x) by {}
            assert(self.wf_ghost_dom()) by {
                assert forall|x: LayoutNodeId| #[trigger] self.is_node(x) implies {
                    &&& self.desc_sets@.contains_key(x.0 as int)
                    &&& self.ib_chains@.contains_key(x.0 as int)
                    &&& (self.node_at(x).spec_is_container()
                        ==> self.children_order@.contains_key(x.0 as int))
                } by {
                    if x != id {
                        assert(t0.is_node(x));
                    }
                }
            }
            assert(self.wf_root());
            assert(self.wf_links()) by {
                assert forall|c: LayoutNodeId| #[trigger] self.is_container_node(c) implies self
                    .wf_container(c) by {
                    if c == id {
                        assert(self.kids(c).len() == 0);
                    } else {
                        assert(t0.is_container_node(c));
                        assert(t0.wf_container(c));
                        assert(self.kids(c) == t0.kids(c));
                        let s = self.kids(c);
                        assert forall|i: int| 0 <= i < s.len() implies {
                            &&& self.is_node(#[trigger] s[i])
                            &&& self.node_at(s[i]) == t0.node_at(s[i])
                        } by {
                            assert(t0.is_node(s[i]));
                        }
                    }
                }
                assert forall|x: LayoutNodeId| #[trigger] self.is_node(x) implies match self
                    .node_at(x).parent {
                    Some(p) => self.is_container_node(p) && self.kids(p).contains(x),
                    None => self.node_at(x).prev_sibling is None && self.node_at(x).next_sibling
                        is None,
                } by {
                    if x == id {
                        assert(self.node_at(x).parent is None);
                    } else {
                        assert(t0.is_node(x));
                        match t0.node_at(x).parent {
                            Some(p) => {
                                assert(t0.is_container_node(p));
                                assert(self.is_node(p));
                                assert(self.kids(p) == t0.kids(p));
                            },
                            None => {},
                        }
                    }
                }
            }
            assert(self.wf_desc()) by {
                assert forall|x: LayoutNodeId| #[trigger] self.is_node(x) implies {
                    &&& self.descs(x).contains(x.0 as int)
                    &&& self.descs(x).finite()
                    &&& forall|y: int|
                        #[trigger] self.descs(x).contains(y) ==> 0 <= y && self.is_node(
                            LayoutNodeId(y as usize),
                        )
                    &&& match self.node_at(x).parent {
                        Some(p) => self.descs(x).subset_of(self.descs(p)) && !self.descs(
                            x,
                        ).contains(p.0 as int),
                        None => true,
                    }
                } by {
                    if x == id {
                        assert(self.descs(id) == Set::empty().insert(ix as int));
                        assert(self.descs(id).contains(ix as int));
                    } else {
                        assert(t0.is_node(x));
                        assert(self.descs(x) == t0.descs(x));
                        assert forall|y: int| #[trigger] self.descs(x).contains(y) implies 0 <= y
                            && self.is_node(LayoutNodeId(y as usize)) by {
                            assert(t0.descs(x).contains(y));
                            assert(t0.is_node(LayoutNodeId(y as usize)));
                        }
                        match t0.node_at(x).parent {
                            Some(p) => {
                                assert(t0.is_container_node(p));
                                assert(self.descs(p) == t0.descs(p));
                            },
                            None => {},
                        }
                    }
                }
                assert forall|x: LayoutNodeId, y: int|
                    self.is_node(x) && #[trigger] self.descs(x).contains(y) && y != x.0 as int implies self.is_container_node(x) && exists|i: int|
                    0 <= i < self.kids(x).len() && #[trigger] self.descs(self.kids(x)[i]).contains(
                        y,
                    ) by {
                    assert(x != id);
                    assert(t0.is_node(x) && t0.descs(x).contains(y));
                    assert(t0.is_container_node(x));
                    let i = choose|i: int|
                        0 <= i < t0.kids(x).len() && #[trigger] t0.descs(t0.kids(x)[i]).contains(y);
                    assert(self.kids(x) == t0.kids(x));
                    assert(t0.is_node(t0.kids(x)[i]));
                    assert(self.descs(self.kids(x)[i]).contains(y));
                }
            }
            assert(self.wf_ib()) by {
                assert forall|x: LayoutNodeId| #[trigger] self.is_node(x) implies match self
                    .node_at(x).spec_next_ib_sibling() {
                    None => self.ib_chain(x).len() == 0,
                    Some(y) => {
                        &&& self.is_node(y)
                        &&& self.ib_chain(x) == seq![y] + self.ib_chain(y)
                        &&& self.node_at(x).spec_is_container()
                        &&& y.0 != x.0
                        &&& self.node_at(y).spec_is_container()
                        &&& self.node_at(y).spec_prev_ib_sibling() == Some(x)
                        &&& self.node_at(x).spec_is_block_container()
                            != self.node_at(y).spec_is_block_container()
                    },
                } by {
                    if x == id {
                        assert(self.node_at(x).spec_next_ib_sibling() is None);
                        assert(self.ib_chain(x).len() == 0);
                    } else {
                        assert(t0.is_node(x));
                        assert(t0.ib_chain(x).len() >= 0);
                        match t0.node_at(x).spec_next_ib_sibling() {
                            Some(y) => {
                                assert(t0.is_node(y));
                                assert(self.ib_chain(x) == t0.ib_chain(x));
                                assert(self.ib_chain(y) == t0.ib_chain(y));
                            },
                            None => {},
                        }
                    }
                }
            }
        }
        id
    }
}

} // verus!

verus! {

impl LayoutTree {
    /// The box shapes agree: same payload and same ib-sibling links.
    pub open spec fn shape_same(a: LayoutNode, b: LayoutNode) -> bool {
        &&& b.same_payload(a)
        &&& b.spec_prev_ib_sibling() == a.spec_prev_ib_sibling()
        &&& b.spec_next_ib_sibling() == a.spec_next_ib_sibling()
    }

    /// The box that would end up right after a box inserted at `ip`.
    pub open spec fn next_at(self, ip: InsertionPoint) -> Option<LayoutNodeId> {
        let s = self.kids(ip.parent);
        let idx = child_insert_index(s, ip.prev_sibling);
        if 0 <= idx && idx < s.len() {
            Some(s[idx])
        } else {
            None
        }
    }

    /// What `insert_unchecked` asks of its caller.
    pub open spec fn insert_pre(self, node_id: LayoutNodeId, ip: InsertionPoint) -> bool {
        &&& self.wf()
        &&& self.is_node(node_id)
        &&& self.node_at(node_id).spec_detached()
        &&& node_id != self.spec_root()
        &&& self.is_container_node(ip.parent)
        &&& !self.descs(node_id).contains(ip.parent.0 as int)
        &&& match ip.prev_sibling {
            Some(ps) => self.is_node(ps) && self.node_at(ps).parent == Some(ip.parent),
            None => true,
        }
    }

    /// The parent's first-child handle after an insertion at `ip`.
    pub open spec fn insert_f2(self, node_id: LayoutNodeId, ip: InsertionPoint) -> Option<
        LayoutNodeId,
    > {
        if child_insert_index(self.kids(ip.parent), ip.prev_sibling) == 0 {
            Some(node_id)
        } else {
            self.node_at(ip.parent).spec_first_child()
        }
    }

    /// The parent's last-child handle after an insertion at `ip`.
    pub open spec fn insert_l2(self, node_id: LayoutNodeId, ip: InsertionPoint) -> Option<
        LayoutNodeId,
    > {
        if child_insert_index(self.kids(ip.parent), ip.prev_sibling) == self.kids(ip.parent).len() {
            Some(node_id)
        } else {
            self.node_at(ip.parent).spec_last_child()
        }
    }

    /// How each box's fields change under `insert_unchecked`.
    pub open spec fn insert_delta_nodes(
        self,
        t1: LayoutTree,
        node_id: LayoutNodeId,
        ip: InsertionPoint,
    ) -> bool {
        let ns = self.next_at(ip);
        &&& forall|x: LayoutNodeId| #[trigger] t1.is_node(x) == self.is_node(x)
        &&& t1.spec_root() == self.spec_root()
        &&& t1.node_at(node_id) == self.node_at(node_id).with_links(
            Some(ip.parent),
            ip.prev_sibling,
            ns,
        )
        &&& match ip.prev_sibling {
            Some(ps) => ps != ip.parent && ps != node_id && t1.node_at(ps) == self.node_at(
                ps,
            ).with_links(
                self.node_at(ps).parent,
                self.node_at(ps).prev_sibling,
                Some(node_id),
            ),
            None => true,
        }
        &&& match ns {
            Some(n) => n != ip.parent && n != node_id && ip.prev_sibling != Some(n) && t1.node_at(
                n,
            ) == self.node_at(n).with_links(
                self.node_at(n).parent,
                Some(node_id),
                self.node_at(n).next_sibling,
            ),
            None => true,
        }
        &&& node_id != ip.parent
        &&& t1.node_at(ip.parent) == self.node_at(ip.parent).with_first_last(
            self.insert_f2(node_id, ip),
            self.insert_l2(node_id, ip),
        )
        &&& forall|x: LayoutNodeId|
            self.is_node(x) && x != node_id && x != ip.parent && Some(x) != ip.prev_sibling
                && Some(x) != ns ==> #[trigger] t1.node_at(x) == self.node_at(x)
    }

    /// How the child orders change under `insert_unchecked`.
    pub open spec fn insert_delta_kids(
        self,
        t1: LayoutTree,
        node_id: LayoutNodeId,
        ip: InsertionPoint,
    ) -> bool {
        &&& t1.kids(ip.parent) == seq_insert(
            self.kids(ip.parent),
            child_insert_index(self.kids(ip.parent), ip.prev_sibling),
            node_id,
        )
        &&& forall|c: LayoutNodeId|
            self.is_container_node(c) && c != ip.parent ==> #[trigger] t1.kids(c) == self.kids(c)
    }

    /// How the descendant sets change under `insert_unchecked`: the
    /// inserted subtree joins every set that holds the parent.
    pub open spec fn insert_delta_desc(
        self,
        t1: LayoutTree,
        node_id: LayoutNodeId,
        ip: InsertionPoint,
    ) -> bool {
        forall|x: LayoutNodeId|
            self.is_node(x) ==> #[trigger] t1.descs(x) == (if self.descs(x).contains(
                ip.parent.0 as int,
            ) {
                self.descs(x).union(self.descs(node_id))
            } else {
                self.descs(x)
            })
    }

    /// The exact state change `insert_unchecked` makes, from `self`
    /// to `t1`.
    pub open spec fn insert_delta(self, t1: LayoutTree, node_id: LayoutNodeId, ip: InsertionPoint)
        -> bool {
        &&& self.insert_delta_nodes(t1, node_id, ip)
        &&& self.insert_delta_kids(t1, node_id, ip)
        &&& self.insert_delta_desc(t1, node_id, ip)
        &&& forall|x: LayoutNodeId|
            self.is_node(x) ==> #[trigger] t1.ib_chain(x) == self.ib_chain(x)
    }

    /// After an insertion the stated previous sibling sits right
    /// before the inserted box.
    proof fn lemma_insert_pre_facts(self, node_id: LayoutNodeId, ip: InsertionPoint)
        requires
            self.insert_pre(node_id, ip),
        ensures
            match ip.prev_sibling {
                Some(ps) => {
                    let s = self.kids(ip.parent);
                    &&& s.contains(ps)
                    &&& 0 <= s.index_of(ps) < s.len()
                    &&& s[s.index_of(ps)] == ps
                    &&& ps != node_id
                    &&& ps != ip.parent
                },
                None => true,
            },
            !self.kids(ip.parent).contains(ip.parent),
            !self.kids(ip.parent).contains(node_id),
            node_id != ip.parent,
            match self.next_at(ip) {
                Some(n) => n != node_id && n != ip.parent && self.node_at(n).parent == Some(
                    ip.parent,
                ) && ip.prev_sibling != Some(n),
                None => true,
            },
    {
        let s = self.kids(ip.parent);
        assert(self.wf_container(ip.parent));
        if let Some(ps) = ip.prev_sibling {
            assert(s.contains(ps));
            assert(0 <= s.index_of(ps) < s.len() && s[s.index_of(ps)] == ps);
            assert(ps != ip.parent) by {
                if ps == ip.parent {
                    assert(self.node_at(ip.parent).parent == Some(ip.parent));
                    assert(self.descs(ip.parent).contains(ip.parent.0 as int));
                }
            }
        }
        if s.contains(ip.parent) {
            let j = choose|j: int| 0 <= j < s.len() && s[j] == ip.parent;
            assert(self.node_at(ip.parent).parent == Some(ip.parent));
            assert(self.descs(ip.parent).contains(ip.parent.0 as int));
            assert(false);
        }
        if s.contains(node_id) {
            let j = choose|j: int| 0 <= j < s.len() && s[j] == node_id;
            assert(self.node_at(node_id).parent == Some(ip.parent));
            assert(false);
        }
        assert(node_id != ip.parent) by {
            assert(self.descs(node_id).contains(node_id.0 as int));
        }
        if let Some(n) = self.next_at(ip) {
            let idx = child_insert_index(s, ip.prev_sibling);
            assert(s[idx] == n);
            if let Some(ps) = ip.prev_sibling {
                assert(s[idx - 1] == ps);
            }
        }
    }

    /// Insertion keeps every container's child links consistent.
    #[verifier::spinoff_prover]
    #[verifier::rlimit(100)]
    proof fn lemma_insert_wf_containers(
        self,
        t1: LayoutTree,
        node_id: LayoutNodeId,
        ip: InsertionPoint,
    )
        requires
            self.insert_pre(node_id, ip),
            self.insert_delta_nodes(t1, node_id, ip),
            self.insert_delta_kids(t1, node_id, ip),
        ensures
            forall|c: LayoutNodeId| #[trigger] t1.is_container_node(c) ==> t1.wf_container(c),
    {
        let t0 = self;
        let s = t0.kids(ip.parent);
        let idx = child_insert_index(s, ip.prev_sibling);
        let s2 = seq_insert(s, idx, node_id);
        let ns = t0.next_at(ip);
        t0.lemma_insert_pre_facts(node_id, ip);
        assert(t0.wf_container(ip.parent));
        assert(t1.wf_container(ip.parent)) by {
            assert forall|i: int| 0 <= i < s2.len() implies {
                &&& t1.is_node(#[trigger] s2[i])
                &&& t1.node_at(s2[i]).parent == Some(ip.parent)
                &&& t1.node_at(s2[i]).prev_sibling == (if i == 0 {
                    None
                } else {
                    Some(s2[i - 1])
                })
                &&& t1.node_at(s2[i]).next_sibling == (if i == s2.len() - 1 {
                    None
                } else {
                    Some(s2[i + 1])
                })
            } by {
                if i < idx - 1 {
                    assert(s2[i] == s[i]);
                    assert(Some(s[i]) != ip.prev_sibling && Some(s[i]) != ns && s[i] != node_id
                        && s[i] != ip.parent);
                    assert(t1.node_at(s[i]) == t0.node_at(s[i]));
                } else if i == idx - 1 {
                    assert(s2[i] == s[i] && Some(s[i]) == ip.prev_sibling);
                } else if i == idx {
                    assert(s2[i] == node_id);
                } else if i == idx + 1 {
                    assert(s2[i] == s[i - 1] && Some(s[i - 1]) == ns);
                } else {
                    assert(s2[i] == s[i - 1]);
                    assert(Some(s[i - 1]) != ip.prev_sibling && Some(s[i - 1]) != ns && s[i - 1]
                        != node_id && s[i - 1] != ip.parent);
                    assert(t1.node_at(s[i - 1]) == t0.node_at(s[i - 1]));
                }
            }
            assert forall|i: int, j: int| 0 <= i < j < s2.len() implies s2[i] != s2[j] by {
                if i == idx || j == idx {
                } else {
                    let i0 = if i < idx {
                        i
                    } else {
                        i - 1
                    };
                    let j0 = if j < idx {
                        j
                    } else {
                        j - 1
                    };
                    assert(s2[i] == s[i0] && s2[j] == s[j0]);
                }
            }
        }
        assert forall|c: LayoutNodeId| #[trigger] t1.is_container_node(c) implies t1.wf_container(
            c,
        ) by {
            if c == ip.parent {
            } else {
                assert(t0.is_container_node(c));
                assert(t0.wf_container(c));
                assert(t1.kids(c) == t0.kids(c));
                let sc = t1.kids(c);
                assert forall|i: int| 0 <= i < sc.len() implies {
                    &&& t1.is_node(#[trigger] sc[i])
                    &&& t1.node_at(sc[i]).parent == t0.node_at(sc[i]).parent
                    &&& t1.node_at(sc[i]).prev_sibling == t0.node_at(sc[i]).prev_sibling
                    &&& t1.node_at(sc[i]).next_sibling == t0.node_at(sc[i]).next_sibling
                } by {
                    assert(t0.node_at(sc[i]).parent == Some(c));
                    assert(sc[i] != node_id);
                    if Some(sc[i]) == ip.prev_sibling || Some(sc[i]) == ns {
                        assert(t0.node_at(sc[i]).parent == Some(ip.parent));
                        assert(c == ip.parent);
                        assert(false);
                    }
                    if sc[i] == ip.parent {
                        assert(t1.node_at(ip.parent) == t0.node_at(ip.parent).with_first_last(
                            t0.insert_f2(node_id, ip),
                            t0.insert_l2(node_id, ip),
                        ));
                    }
                }
                assert(t1.node_at(c).spec_first_child() == t0.node_at(c).spec_first_child()
                    && t1.node_at(c).spec_last_child() == t0.node_at(c).spec_last_child()) by {
                    if Some(c) == ip.prev_sibling || Some(c) == ns {
                    } else {
                        if c == node_id {
                            assert(t1.node_at(c) == t0.node_at(c).with_links(
                                Some(ip.parent),
                                ip.prev_sibling,
                                ns,
                            ));
                        }
                    }
                }
            }
        }
    }

    /// Insertion keeps every box's parent link consistent.
    #[verifier::spinoff_prover]
    #[verifier::rlimit(100)]
    proof fn lemma_insert_wf_parents(
        self,
        t1: LayoutTree,
        node_id: LayoutNodeId,
        ip: InsertionPoint,
    )
        requires
            self.insert_pre(node_id, ip),
            self.insert_delta_nodes(t1, node_id, ip),
            self.insert_delta_kids(t1, node_id, ip),
        ensures
            forall|x: LayoutNodeId|
                #[trigger] t1.is_node(x) ==> match t1.node_at(x).parent {
                    Some(p) => t1.is_container_node(p) && t1.kids(p).contains(x),
                    None => t1.node_at(x).prev_sibling is None && t1.node_at(x).next_sibling
                        is None,
                },
    {
        let t0 = self;
        let s = t0.kids(ip.parent);
        let idx = child_insert_index(s, ip.prev_sibling);
        let s2 = seq_insert(s, idx, node_id);
        let ns = t0.next_at(ip);
        t0.lemma_insert_pre_facts(node_id, ip);
        assert(t0.wf_container(ip.parent));
        assert forall|x: LayoutNodeId| #[trigger] t1.is_node(x) implies match t1.node_at(
            x,
        ).parent {
            Some(p) => t1.is_container_node(p) && t1.kids(p).contains(x),
            None => t1.node_at(x).prev_sibling is None && t1.node_at(x).next_sibling is None,
        } by {
            assert(t0.is_node(x));
            if x == node_id {
                assert(s2[idx] == node_id);
                assert(t1.kids(ip.parent).contains(node_id));
                assert(t1.is_container_node(ip.parent));
            } else {
                assert(t1.node_at(x).parent == t0.node_at(x).parent);
                match t0.node_at(x).parent {
                    Some(p) => {
                        assert(t0.is_container_node(p));
                        assert(t0.kids(p).contains(x));
                        assert(t1.is_container_node(p));
                        if p == ip.parent {
                            let j = choose|j: int| 0 <= j < s.len() && s[j] == x;
                            if j < idx {
                                assert(s2[j] == x);
                            } else {
                                assert(s2[j + 1] == x);
                            }
                            assert(t1.kids(p).contains(x));
                        } else {
                            assert(t1.kids(p) == t0.kids(p));
                        }
                    },
                    None => {
                        if Some(x) == ip.prev_sibling || Some(x) == ns {
                            assert(t0.node_at(x).parent is Some);
                            assert(false);
                        }
                        if x == ip.parent {
                            assert(t1.node_at(x).prev_sibling == t0.node_at(x).prev_sibling);
                            assert(t1.node_at(x).next_sibling == t0.node_at(x).next_sibling);
                        } else {
                            assert(t1.node_at(x) == t0.node_at(x));
                        }
                    },
                }
            }
        }
    }

    /// Insertion preserves the descendant-set part of
    /// well-formedness.
    #[verifier::spinoff_prover]
    #[verifier::rlimit(100)]
    proof fn lemma_insert_wf_desc(self, t1: LayoutTree, node_id: LayoutNodeId, ip: InsertionPoint)
        requires
            self.insert_pre(node_id, ip),
            self.insert_delta_nodes(t1, node_id, ip),
            self.insert_delta_kids(t1, node_id, ip),
            self.insert_delta_desc(t1, node_id, ip),
        ensures
            t1.wf_desc(),
    {
        let t0 = self;
        let s = t0.kids(ip.parent);
        let idx = child_insert_index(s, ip.prev_sibling);
        let s2 = seq_insert(s, idx, node_id);
        let pix = ip.parent.0 as int;
        let d = t0.descs(node_id);
        t0.lemma_insert_pre_facts(node_id, ip);
        assert(d.contains(node_id.0 as int));
        assert(!d.contains(pix));
        assert(t0.descs(ip.parent).contains(pix));
        assert forall|x: LayoutNodeId| #[trigger] t1.is_node(x) implies {
            &&& t1.descs(x).contains(x.0 as int)
            &&& t1.descs(x).finite()
            &&& forall|y: int|
                #[trigger] t1.descs(x).contains(y) ==> 0 <= y && t1.is_node(
                    LayoutNodeId(y as usize),
                )
            &&& match t1.node_at(x).parent {
                Some(p) => t1.descs(x).subset_of(t1.descs(p)) && !t1.descs(x).contains(p.0 as int),
                None => true,
            }
        } by {
            assert(t0.is_node(x));
            assert forall|y: int| #[trigger] t1.descs(x).contains(y) implies 0 <= y && t1.is_node(
                LayoutNodeId(y as usize),
            ) by {
                if t0.descs(x).contains(y) {
                    assert(t0.is_node(LayoutNodeId(y as usize)));
                } else {
                    assert(d.contains(y));
                    assert(t0.is_node(LayoutNodeId(y as usize)));
                }
            }
            if x == node_id {
                assert(t1.descs(node_id) == d);
                assert(t1.node_at(x).parent == Some(ip.parent));
                assert(t1.descs(ip.parent) == t0.descs(ip.parent).union(d));
            } else {
                assert(t1.node_at(x).parent == t0.node_at(x).parent);
                match t0.node_at(x).parent {
                    Some(p) => {
                        assert(t0.descs(x).subset_of(t0.descs(p)));
                        assert(!t0.descs(x).contains(p.0 as int));
                        if t0.descs(x).contains(pix) {
                            assert(t0.descs(p).contains(pix));
                            assert(t1.descs(x) == t0.descs(x).union(d));
                            assert(t1.descs(p) == t0.descs(p).union(d));
                            if d.contains(p.0 as int) {
                                t0.lemma_desc_transitive(node_id, p.0 as int);
                                assert(t0.descs(p).subset_of(d));
                                assert(d.contains(pix));
                                assert(false);
                            }
                        } else {
                            assert(t1.descs(x) == t0.descs(x));
                            if t0.descs(p).contains(pix) {
                                assert(t1.descs(p) == t0.descs(p).union(d));
                            } else {
                                assert(t1.descs(p) == t0.descs(p));
                            }
                        }
                    },
                    None => {},
                }
            }
        }
        assert forall|x: LayoutNodeId, y: int|
            t1.is_node(x) && #[trigger] t1.descs(x).contains(y) && y
                != x.0 as int implies t1.is_container_node(x) && exists|i: int|
            0 <= i < t1.kids(x).len() && #[trigger] t1.descs(t1.kids(x)[i]).contains(y) by {
            assert(t0.is_node(x));
            if t0.descs(x).contains(pix) {
                assert(t1.descs(x) == t0.descs(x).union(d));
                assert(t1.is_container_node(x)) by {
                    if x == ip.parent {
                        assert(t0.is_container_node(x));
                    } else {
                        assert(pix != x.0 as int) by {
                            if pix == x.0 as int {
                                assert(x == ip.parent) by {
                                    assert(t0.is_node(LayoutNodeId(pix as usize)));
                                }
                            }
                        }
                        assert(t0.is_container_node(x));
                    }
                    assert(t1.node_at(x).spec_is_container() == t0.node_at(
                        x,
                    ).spec_is_container()) by {
                        if x == ip.parent {
                            assert(t1.node_at(x) == t0.node_at(x).with_first_last(
                                t0.insert_f2(node_id, ip),
                                t0.insert_l2(node_id, ip),
                            ));
                        } else if Some(x) == ip.prev_sibling || Some(x) == t0.next_at(ip) || x
                            == node_id {
                        } else {
                            assert(t1.node_at(x) == t0.node_at(x));
                        }
                    }
                }
                if t0.descs(x).contains(y) {
                    if y == x.0 as int {
                        assert(false);
                    }
                    let i = choose|i: int|
                        0 <= i < t0.kids(x).len() && #[trigger] t0.descs(t0.kids(x)[i]).contains(y);
                    let c = t0.kids(x)[i];
                    assert(t0.wf_container(x));
                    assert(t0.is_node(c));
                    if x == ip.parent {
                        let i2 = if i < idx {
                            i
                        } else {
                            i + 1
                        };
                        assert(s2[i2] == c);
                        assert(t1.descs(c).contains(y)) by {
                            if t0.descs(c).contains(pix) {
                                assert(t1.descs(c) == t0.descs(c).union(d));
                            } else {
                                assert(t1.descs(c) == t0.descs(c));
                            }
                        }
                        assert(0 <= i2 < t1.kids(x).len() && t1.descs(t1.kids(x)[i2]).contains(y));
                    } else {
                        assert(t1.kids(x) == t0.kids(x));
                        assert(t1.descs(c).contains(y)) by {
                            if t0.descs(c).contains(pix) {
                                assert(t1.descs(c) == t0.descs(c).union(d));
                            } else {
                                assert(t1.descs(c) == t0.descs(c));
                            }
                        }
                    }
                } else {
                    assert(d.contains(y));
                    if x == ip.parent {
                        assert(s2[idx] == node_id);
                        assert(t1.descs(node_id) == d);
                        assert(0 <= idx < t1.kids(x).len() && t1.descs(t1.kids(x)[idx]).contains(
                            y,
                        ));
                    } else {
                        assert(pix != x.0 as int) by {
                            if pix == x.0 as int {
                                assert(x == ip.parent) by {
                                    assert(t0.is_node(LayoutNodeId(pix as usize)));
                                }
                            }
                        }
                        let i = choose|i: int|
                            0 <= i < t0.kids(x).len() && #[trigger] t0.descs(t0.kids(x)[i]).contains(
                                pix,
                            );
                        let c = t0.kids(x)[i];
                        assert(t0.wf_container(x));
                        assert(t1.kids(x) == t0.kids(x));
                        assert(t1.descs(c) == t0.descs(c).union(d));
                        assert(0 <= i < t1.kids(x).len() && t1.descs(t1.kids(x)[i]).contains(y));
                    }
                }
            } else {
                assert(t1.descs(x) == t0.descs(x));
                assert(t0.is_container_node(x));
                assert(t1.is_container_node(x)) by {
                    assert(x != ip.parent) by {
                        assert(t0.descs(ip.parent).contains(pix));
                    }
                    if Some(x) == ip.prev_sibling || Some(x) == t0.next_at(ip) || x == node_id {
                    } else {
                        assert(t1.node_at(x) == t0.node_at(x));
                    }
                }
                let i = choose|i: int|
                    0 <= i < t0.kids(x).len() && #[trigger] t0.descs(t0.kids(x)[i]).contains(y);
                let c = t0.kids(x)[i];
                assert(t0.wf_container(x));
                assert(x != ip.parent) by {
                    assert(t0.descs(ip.parent).contains(pix));
                }
                assert(t1.kids(x) == t0.kids(x));
                assert(t1.descs(c).contains(y)) by {
                    if t0.descs(c).contains(pix) {
                        assert(t0.descs(c).subset_of(t0.descs(x)));
                        assert(false);
                    }
                    assert(t1.descs(c) == t0.descs(c));
                }
            }
        }
    }

    /// A change that touches no ib link or chain keeps them
    /// well-formed.
    #[verifier::spinoff_prover]
    proof fn lemma_preserve_wf_ib(self, t1: LayoutTree)
        requires
            self.wf(),
            forall|x: LayoutNodeId| #[trigger] t1.is_node(x) == self.is_node(x),
            forall|x: LayoutNodeId|
                self.is_node(x) ==> #[trigger] t1.ib_chain(x) == self.ib_chain(x),
            forall|x: LayoutNodeId|
                self.is_node(x) ==> Self::shape_same(
                    self.node_at(x),
                    #[trigger] t1.node_at(x),
                ),
        ensures
            t1.wf_ib(),
    {
        let t0 = self;
        assert forall|x: LayoutNodeId| #[trigger] t1.is_node(x) implies match t1.node_at(
            x,
        ).spec_next_ib_sibling() {
            None => t1.ib_chain(x).len() == 0,
            Some(y) => {
                &&& t1.is_node(y)
                &&& t1.ib_chain(x) == seq![y] + t1.ib_chain(y)
                &&& t1.node_at(x).spec_is_container()
                &&& y.0 != x.0
                &&& t1.node_at(y).spec_is_container()
                &&& t1.node_at(y).spec_prev_ib_sibling() == Some(x)
                &&& t1.node_at(x).spec_is_block_container() != t1.node_at(
                    y,
                ).spec_is_block_container()
            },
        } by {
            assert(t0.is_node(x));
            assert(t0.ib_chain(x).len() >= 0);
            assert(Self::shape_same(t0.node_at(x), t1.node_at(x)));
            match t0.node_at(x).spec_next_ib_sibling() {
                Some(y) => {
                    assert(t0.is_node(y));
                    assert(t1.ib_chain(x) == t0.ib_chain(x));
                    assert(t1.ib_chain(y) == t0.ib_chain(y));
                    assert(Self::shape_same(t0.node_at(y), t1.node_at(y)));
                },
                None => {
                    assert(t1.ib_chain(x) == t0.ib_chain(x));
                },
            }
        }
    }

    /// Splices a detached box into the sibling list at `ip`, with no
    /// legalization: the raw structural mutation primitive.
    #[verifier::rlimit(100)]
    pub fn insert_unchecked(&mut self, node_id: LayoutNodeId, ip: InsertionPoint)
        requires
            old(self).insert_pre(node_id, ip),
        ensures
            final(self).wf(),
            old(self).insert_delta(*final(self), node_id, ip),
            forall|x: LayoutNodeId|
                old(self).is_node(x) ==> Self::shape_same(
                    old(self).node_at(x),
                    #[trigger] final(self).node_at(x),
                ),
            final(self).kids(ip.parent) == seq_insert(
                old(self).kids(ip.parent),
                child_insert_index(old(self).kids(ip.parent), ip.prev_sibling),
                node_id,
            ),
    {
        let ghost t0 = *self;
        let ghost s = t0.kids(ip.parent);
        let ghost pix = ip.parent.0 as int;
        let ghost d = t0.descs(node_id);
        proof {
            t0.lemma_insert_pre_facts(node_id, ip);
        }
        let ghost idx = child_insert_index(s, ip.prev_sibling);
        let ghost s2 = seq_insert(s, idx, node_id);

        let new_next: Option<LayoutNodeId> = match ip.prev_sibling {
            Some(ps) => self.node(ps).next_sibling,
            None => self.node(ip.parent).first_child(),
        };
        proof {
            assert(t0.wf_container(ip.parent));
            if let Some(ps) = ip.prev_sibling {
                assert(0 <= s.index_of(ps) < s.len() && s[s.index_of(ps)] == ps);
            }
            assert(new_next == t0.next_at(ip));
        }

        {
            let n = self.node_mut(node_id);
            n.parent = Some(ip.parent);
            n.prev_sibling = ip.prev_sibling;
            n.next_sibling = new_next;
        }
        if let Some(ps) = ip.prev_sibling {
            let n = self.node_mut(ps);
            n.next_sibling = Some(node_id);
        }
        if let Some(ns) = new_next {
            let n = self.node_mut(ns);
            n.prev_sibling = Some(node_id);
        }
        let prev_is_none = ip.prev_sibling.is_none();
        {
            let pn = self.node_mut(ip.parent);
            match &mut pn.kind {
                LayoutNodeKind::Container { first_child, last_child, .. } => {
                    if prev_is_none {
                        *first_child = Some(node_id);
                    }
                    if Self::eq_opt(*last_child, ip.prev_sibling) {
                        *last_child = Some(node_id);
                    }
                },
                LayoutNodeKind::Leaf { .. } => {},
            }
        }

        self.children_order = Ghost(self.children_order@.insert(pix, s2));
        self.desc_sets = Ghost(
            Map::new(
                |k: int| t0.desc_sets@.contains_key(k),
                |k: int|
                    if t0.desc_sets@[k].contains(pix) {
                        t0.desc_sets@[k].union(d)
                    } else {
                        t0.desc_sets@[k]
                    },
            ),
        );

        proof {
            let ns = t0.next_at(ip);
            assert(self.node_at(node_id) == t0.node_at(node_id).with_links(
                Some(ip.parent),
                ip.prev_sibling,
                ns,
            ));
            assert(t0.node_at(ip.parent).spec_last_child() == ip.prev_sibling <==> idx
                == s.len()) by {
                if let Some(ps) = ip.prev_sibling {
                    let i = s.index_of(ps);
                    if i == s.len() - 1 {
                        assert(t0.node_at(ip.parent).spec_last_child() == Some(ps));
                    } else {
                        if t0.node_at(ip.parent).spec_last_child() == Some(ps) {
                            assert(s[s.len() - 1] == ps);
                            assert(s[i] == ps);
                            assert(false);
                        }
                    }
                } else {
                    if s.len() != 0 && t0.node_at(ip.parent).spec_last_child() is None {
                        assert(false);
                    }
                }
            }
            assert(self.node_at(ip.parent) == t0.node_at(ip.parent).with_first_last(
                t0.insert_f2(node_id, ip),
                t0.insert_l2(node_id, ip),
            ));
            assert forall|x: LayoutNodeId| #[trigger] self.is_node(x) == t0.is_node(x) by {}
            assert forall|x: LayoutNodeId|
                t0.is_node(x) && x != node_id && x != ip.parent && Some(x) != ip.prev_sibling
                    && Some(x) != ns implies #[trigger] self.node_at(x) == t0.node_at(x) by {}
            assert forall|x: LayoutNodeId| t0.is_node(x) implies #[trigger] self.descs(x) == (
            if t0.descs(x).contains(pix) {
                t0.descs(x).union(d)
            } else {
                t0.descs(x)
            }) by {}
            assert forall|x: LayoutNodeId| t0.is_node(x) implies #[trigger] self.ib_chain(x) == t0
                .ib_chain(x) by {}
            assert forall|c: LayoutNodeId|
                t0.is_container_node(c) && c != ip.parent implies #[trigger] self.kids(c) == t0
                .kids(c) by {}
            assert(self.kids(ip.parent) == s2);
            assert(t0.insert_delta(*self, node_id, ip));
            assert forall|x: LayoutNodeId|
                t0.is_node(x) implies Self::shape_same(
                t0.node_at(x),
                #[trigger] self.node_at(x),
            ) by {
                if x == node_id {
                } else if x == ip.parent {
                } else if Some(x) == ip.prev_sibling || Some(x) == ns {
                } else {
                    assert(self.node_at(x) == t0.node_at(x));
                }
            }

            t0.lemma_insert_wf_containers(*self, node_id, ip);
            t0.lemma_insert_wf_parents(*self, node_id, ip);
            assert(self.wf_links());
            t0.lemma_insert_wf_desc(*self, node_id, ip);
            t0.lemma_preserve_wf_ib(*self);
            assert(self.wf_ghost_dom()) by {
                assert forall|x: LayoutNodeId| #[trigger] self.is_node(x) implies {
                    &&& self.desc_sets@.contains_key(x.0 as int)
                    &&& self.ib_chains@.contains_key(x.0 as int)
                    &&& (self.node_at(x).spec_is_container()
                        ==> self.children_order@.contains_key(x.0 as int))
                } by {
                    assert(t0.is_node(x));
                    assert(self.node_at(x).spec_is_container() == t0.node_at(
                        x,
                    ).spec_is_container());
                }
            }
            assert(self.wf_root()) by {
                let rt = t0.spec_root();
                assert(t0.node_at(rt).parent is None);
                if Some(rt) == ip.prev_sibling || Some(rt) == ns {
                    assert(t0.node_at(rt).parent is Some);
                    assert(false);
                }
                if rt == ip.parent {
                    assert(self.node_at(rt) == t0.node_at(rt).with_first_last(
                        t0.insert_f2(node_id, ip),
                        t0.insert_l2(node_id, ip),
                    ));
                }
            }
        }
    }
}

} // verus!


verus! {

impl LayoutTree {
    /// What `detach_unchecked` does to the fields of each box when
    /// the detached box has a parent.
    pub open spec fn detach_delta_nodes(self, t1: LayoutTree, node_id: LayoutNodeId) -> bool {
        let p = self.node_at(node_id).parent->0;
        let prev = self.node_at(node_id).prev_sibling;
        let next = self.node_at(node_id).next_sibling;
        let s = self.kids(p);
        let i = s.index_of(node_id);
        &&& forall|x: LayoutNodeId| #[trigger] t1.is_node(x) == self.is_node(x)
        &&& t1.spec_root() == self.spec_root()
        &&& t1.node_at(node_id) == self.node_at(node_id).with_links(None, None, None)
        &&& match prev {
            Some(pv) => pv != p && pv != node_id && t1.node_at(pv) == self.node_at(pv).with_links(
                self.node_at(pv).parent,
                self.node_at(pv).prev_sibling,
                next,
            ),
            None => true,
        }
        &&& match next {
            Some(nx) => nx != p && nx != node_id && prev != Some(nx) && t1.node_at(nx)
                == self.node_at(nx).with_links(self.node_at(nx).parent, prev, self.node_at(
                nx,
            ).next_sibling),
            None => true,
        }
        &&& node_id != p
        &&& t1.node_at(p) == self.node_at(p).with_first_last(
            if i == 0 {
                next
            } else {
                self.node_at(p).spec_first_child()
            },
            if i == s.len() - 1 {
                prev
            } else {
                self.node_at(p).spec_last_child()
            },
        )
        &&& forall|x: LayoutNodeId|
            self.is_node(x) && x != node_id && x != p && Some(x) != prev && Some(x) != next
                ==> #[trigger] t1.node_at(x) == self.node_at(x)
    }

    /// How the child orders change: the box leaves its parent's list.
    pub open spec fn detach_delta_kids(self, t1: LayoutTree, node_id: LayoutNodeId) -> bool {
        let p = self.node_at(node_id).parent->0;
        let s = self.kids(p);
        &&& t1.kids(p) == seq_remove(s, s.index_of(node_id))
        &&& forall|c: LayoutNodeId|
            self.is_container_node(c) && c != p ==> #[trigger] t1.kids(c) == self.kids(c)
    }

    /// The detached subtree leaves every set that held the parent.
    pub open spec fn detach_delta_desc(self, t1: LayoutTree, node_id: LayoutNodeId) -> bool {
        let p = self.node_at(node_id).parent->0;
        forall|x: LayoutNodeId|
            self.is_node(x) ==> #[trigger] t1.descs(x) == (if self.descs(x).contains(p.0 as int) {
                self.descs(x).difference(self.descs(node_id))
            } else {
                self.descs(x)
            })
    }

    /// The exact state change `detach_unchecked` makes when the box
    /// has a parent.
    pub open spec fn detach_delta(self, t1: LayoutTree, node_id: LayoutNodeId) -> bool {
        &&& self.detach_delta_nodes(t1, node_id)
        &&& self.detach_delta_kids(t1, node_id)
        &&& self.detach_delta_desc(t1, node_id)
        &&& forall|x: LayoutNodeId|
            self.is_node(x) ==> #[trigger] t1.ib_chain(x) == self.ib_chain(x)
    }

    /// Positions of the detached box and its neighbours.
    proof fn lemma_detach_pre_facts(self, node_id: LayoutNodeId)
        requires
            self.wf(),
            self.is_node(node_id),
            self.node_at(node_id).parent is Some,
        ensures
            ({
                let p = self.node_at(node_id).parent->0;
                let s = self.kids(p);
                let i = s.index_of(node_id);
                &&& self.is_container_node(p)
                &&& s.contains(node_id)
                &&& 0 <= i < s.len() && s[i] == node_id
                &&& node_id != p
                &&& self.node_at(node_id).prev_sibling == (if i == 0 {
                    None::<LayoutNodeId>
                } else {
                    Some(s[i - 1])
                })
                &&& self.node_at(node_id).next_sibling == (if i == s.len() - 1 {
                    None::<LayoutNodeId>
                } else {
                    Some(s[i + 1])
                })
                &&& match self.node_at(node_id).prev_sibling {
                    Some(pv) => pv != p && pv != node_id,
                    None => true,
                }
                &&& match self.node_at(node_id).next_sibling {
                    Some(nx) => nx != p && nx != node_id && self.node_at(node_id).prev_sibling
                        != Some(nx),
                    None => true,
                }
                &&& !self.descs(node_id).contains(p.0 as int)
                &&& self.descs(node_id).contains(node_id.0 as int)
            }),
    {
        let p = self.node_at(node_id).parent->0;
        let s = self.kids(p);
        assert(self.is_container_node(p));
        assert(self.wf_container(p));
        assert(s.contains(node_id));
        assert(0 <= s.index_of(node_id) < s.len() && s[s.index_of(node_id)] == node_id);
        let i = s.index_of(node_id);
        assert(node_id != p) by {
            if node_id == p {
                assert(self.descs(p).contains(p.0 as int));
            }
        }
        if let Some(pv) = self.node_at(node_id).prev_sibling {
            assert(pv == s[i - 1]);
            if pv == p {
                assert(self.node_at(pv).parent == Some(p));
                assert(self.descs(p).contains(p.0 as int));
                assert(false);
            }
        }
        if let Some(nx) = self.node_at(node_id).next_sibling {
            assert(nx == s[i + 1]);
            if nx == p {
                assert(self.node_at(nx).parent == Some(p));
                assert(self.descs(p).contains(p.0 as int));
                assert(false);
            }
            if self.node_at(node_id).prev_sibling == Some(nx) {
                assert(s[i - 1] == s[i + 1]);
                assert(false);
            }
        }
    }

    /// Detaching keeps the old parent's own child links consistent.
    #[verifier::spinoff_prover]
    #[verifier::rlimit(100)]
    proof fn lemma_detach_wf_parent_container(self, t1: LayoutTree, node_id: LayoutNodeId)
        requires
            self.wf(),
            self.is_node(node_id),
            self.node_at(node_id).parent is Some,
            self.detach_delta_nodes(t1, node_id),
            self.detach_delta_kids(t1, node_id),
        ensures
            t1.wf_container(self.node_at(node_id).parent->0),
    {
        let t0 = self;
        let p = t0.node_at(node_id).parent->0;
        let prev = t0.node_at(node_id).prev_sibling;
        let next = t0.node_at(node_id).next_sibling;
        let s = t0.kids(p);
        let i = s.index_of(node_id);
        let s2 = seq_remove(s, i);
        t0.lemma_detach_pre_facts(node_id);
        assert(t0.wf_container(p));
        assert forall|j: int| 0 <= j < s2.len() implies {
            &&& t1.is_node(#[trigger] s2[j])
            &&& t1.node_at(s2[j]).parent == Some(p)
            &&& t1.node_at(s2[j]).prev_sibling == (if j == 0 {
                None
            } else {
                Some(s2[j - 1])
            })
            &&& t1.node_at(s2[j]).next_sibling == (if j == s2.len() - 1 {
                None
            } else {
                Some(s2[j + 1])
            })
        } by {
            if j < i - 1 {
                assert(s2[j] == s[j]);
                assert(Some(s[j]) != prev && Some(s[j]) != next && s[j] != node_id && s[j] != p);
                assert(t1.node_at(s[j]) == t0.node_at(s[j]));
            } else if j == i - 1 {
                assert(s2[j] == s[j] && Some(s[j]) == prev);
            } else if j == i {
                assert(s2[j] == s[j + 1] && Some(s[j + 1]) == next);
            } else {
                assert(s2[j] == s[j + 1]);
                assert(Some(s[j + 1]) != prev && Some(s[j + 1]) != next && s[j + 1] != node_id
                    && s[j + 1] != p);
                assert(t1.node_at(s[j + 1]) == t0.node_at(s[j + 1]));
            }
        }
        assert forall|j1: int, j2: int| 0 <= j1 < j2 < s2.len() implies s2[j1] != s2[j2] by {
            let a = if j1 < i {
                j1
            } else {
                j1 + 1
            };
            let b = if j2 < i {
                j2
            } else {
                j2 + 1
            };
            assert(s2[j1] == s[a] && s2[j2] == s[b]);
        }
    }

    /// Detaching keeps every container's child links consistent.
    #[verifier::spinoff_prover]
    #[verifier::rlimit(100)]
    proof fn lemma_detach_wf_containers(self, t1: LayoutTree, node_id: LayoutNodeId)
        requires
            self.wf(),
            self.is_node(node_id),
            self.node_at(node_id).parent is Some,
            self.detach_delta_nodes(t1, node_id),
            self.detach_delta_kids(t1, node_id),
        ensures
            forall|c: LayoutNodeId| #[trigger] t1.is_container_node(c) ==> t1.wf_container(c),
    {
        let t0 = self;
        let p = t0.node_at(node_id).parent->0;
        let prev = t0.node_at(node_id).prev_sibling;
        let next = t0.node_at(node_id).next_sibling;
        let s = t0.kids(p);
        let i = s.index_of(node_id);
        t0.lemma_detach_pre_facts(node_id);
        assert(t0.wf_container(p));
        t0.lemma_detach_wf_parent_container(t1, node_id);
        assert forall|c: LayoutNodeId| #[trigger] t1.is_container_node(c) implies t1.wf_container(
            c,
        ) by {
            if c == p {
            } else {
                assert(t0.is_container_node(c));
                assert(t0.wf_container(c));
                assert(t1.kids(c) == t0.kids(c));
                let sc = t1.kids(c);
                assert forall|j: int| 0 <= j < sc.len() implies {
                    &&& t1.is_node(#[trigger] sc[j])
                    &&& t1.node_at(sc[j]).parent == t0.node_at(sc[j]).parent
                    &&& t1.node_at(sc[j]).prev_sibling == t0.node_at(sc[j]).prev_sibling
                    &&& t1.node_at(sc[j]).next_sibling == t0.node_at(sc[j]).next_sibling
                } by {
                    assert(t0.node_at(sc[j]).parent == Some(c));
                    if sc[j] == node_id || Some(sc[j]) == prev || Some(sc[j]) == next {
                        assert(t0.node_at(sc[j]).parent == Some(p));
                        assert(c == p);
                        assert(false);
                    }
                    if sc[j] == p {
                        assert(t1.node_at(p) == t0.node_at(p).with_first_last(
                            if i == 0 {
                                next
                            } else {
                                t0.node_at(p).spec_first_child()
                            },
                            if i == s.len() - 1 {
                                prev
                            } else {
                                t0.node_at(p).spec_last_child()
                            },
                        ));
                    }
                }
                assert(t1.node_at(c).spec_first_child() == t0.node_at(c).spec_first_child()
                    && t1.node_at(c).spec_last_child() == t0.node_at(c).spec_last_child()) by {
                    if c == node_id || Some(c) == prev || Some(c) == next {
                    } else {
                        assert(t1.node_at(c) == t0.node_at(c));
                    }
                }
            }
        }
    }

    /// Detaching keeps every box's parent link consistent.
    #[verifier::spinoff_prover]
    #[verifier::rlimit(100)]
    proof fn lemma_detach_wf_parents(self, t1: LayoutTree, node_id: LayoutNodeId)
        requires
            self.wf(),
            self.is_node(node_id),
            self.node_at(node_id).parent is Some,
            self.detach_delta_nodes(t1, node_id),
            self.detach_delta_kids(t1, node_id),
        ensures
            forall|x: LayoutNodeId|
                #[trigger] t1.is_node(x) ==> match t1.node_at(x).parent {
                    Some(q) => t1.is_container_node(q) && t1.kids(q).contains(x),
                    None => t1.node_at(x).prev_sibling is None && t1.node_at(x).next_sibling
                        is None,
                },
    {
        let t0 = self;
        let p = t0.node_at(node_id).parent->0;
        let prev = t0.node_at(node_id).prev_sibling;
        let next = t0.node_at(node_id).next_sibling;
        let s = t0.kids(p);
        let i = s.index_of(node_id);
        let s2 = seq_remove(s, i);
        t0.lemma_detach_pre_facts(node_id);
        assert(t0.wf_container(p));
        assert forall|x: LayoutNodeId| #[trigger] t1.is_node(x) implies match t1.node_at(
            x,
        ).parent {
            Some(q) => t1.is_container_node(q) && t1.kids(q).contains(x),
            None => t1.node_at(x).prev_sibling is None && t1.node_at(x).next_sibling is None,
        } by {
            assert(t0.is_node(x));
            if x == node_id {
            } else {
                assert(t1.node_at(x).parent == t0.node_at(x).parent);
                match t0.node_at(x).parent {
                    Some(q) => {
                        assert(t0.is_container_node(q));
                        assert(t0.kids(q).contains(x));
                        assert(t1.is_container_node(q)) by {
                            if q == p {
                                assert(t1.node_at(p).spec_is_container() == t0.node_at(
                                    p,
                                ).spec_is_container());
                            } else if q == node_id || Some(q) == prev || Some(q) == next {
                            } else {
                                assert(t1.node_at(q) == t0.node_at(q));
                            }
                        }
                        if q == p {
                            let j = choose|j: int| 0 <= j < s.len() && s[j] == x;
                            assert(j != i) by {
                                if j == i {
                                    assert(x == node_id);
                                }
                            }
                            if j < i {
                                assert(s2[j] == x);
                            } else {
                                assert(s2[j - 1] == x);
                            }
                            assert(t1.kids(q).contains(x));
                        } else {
                            assert(t1.kids(q) == t0.kids(q));
                        }
                    },
                    None => {
                        if Some(x) == prev || Some(x) == next {
                            assert(t0.node_at(x).parent is Some);
                            assert(false);
                        }
                        if x == p {
                            assert(t1.node_at(x).prev_sibling == t0.node_at(x).prev_sibling);
                            assert(t1.node_at(x).next_sibling == t0.node_at(x).next_sibling);
                        } else {
                            assert(t1.node_at(x) == t0.node_at(x));
                        }
                    },
                }
            }
        }
    }
}

} // verus!

verus! {

impl LayoutTree {
    /// Two subtrees sharing a box are nested one way or the other.
    proof fn lemma_desc_meet(self, a: LayoutNodeId, b: LayoutNodeId, y: int)
        requires
            self.wf(),
            self.is_node(a),
            self.is_node(b),
            self.descs(a).contains(y),
            self.descs(b).contains(y),
        ensures
            self.descs(a).contains(b.0 as int) || self.descs(b).contains(a.0 as int),
        decreases self.descs(a).len(),
    {
        if y == a.0 as int {
        } else if y == b.0 as int {
        } else {
            let i = choose|i: int|
                0 <= i < self.kids(a).len() && #[trigger] self.descs(self.kids(a)[i]).contains(y);
            let ca = self.kids(a)[i];
            assert(self.wf_container(a));
            assert(self.node_at(ca).parent == Some(a));
            self.descs(ca).lemma_subset_not_in_lt(self.descs(a), a.0 as int);
            self.lemma_desc_meet(ca, b, y);
            if self.descs(ca).contains(b.0 as int) {
                assert(self.descs(a).contains(b.0 as int));
            } else {
                assert(self.descs(b).contains(ca.0 as int));
                if ca == b {
                    assert(self.descs(a).contains(b.0 as int));
                } else {
                    self.lemma_on_path(b, ca, a);
                    if b == a {
                        assert(self.descs(a).contains(b.0 as int));
                    }
                }
            }
        }
    }

    /// If `x`'s subtree strictly holds `node`, it holds `node`'s
    /// parent too (or `x` is that parent).
    proof fn lemma_on_path(self, x: LayoutNodeId, node: LayoutNodeId, parent: LayoutNodeId)
        requires
            self.wf(),
            self.is_node(x),
            self.is_node(node),
            self.node_at(node).parent == Some(parent),
            self.descs(x).contains(node.0 as int),
            x != node,
        ensures
            x == parent || self.descs(x).contains(parent.0 as int),
        decreases self.descs(x).len(),
    {
        let i = choose|i: int|
            0 <= i < self.kids(x).len() && #[trigger] self.descs(self.kids(x)[i]).contains(
                node.0 as int,
            );
        let c = self.kids(x)[i];
        assert(self.wf_container(x));
        assert(self.node_at(c).parent == Some(x));
        if c == node {
            assert(x == parent) by {
                assert(self.node_at(node).parent == Some(x));
            }
        } else {
            self.descs(c).lemma_subset_not_in_lt(self.descs(x), x.0 as int);
            self.lemma_on_path(c, node, parent);
            if c == parent {
                assert(self.descs(x).contains(parent.0 as int)) by {
                    assert(self.descs(c).contains(c.0 as int));
                }
            } else {
                assert(self.descs(c).contains(parent.0 as int));
            }
        }
    }

    /// Detaching keeps the descendant sets exact.
    #[verifier::spinoff_prover]
    #[verifier::rlimit(100)]
    proof fn lemma_detach_wf_desc(self, t1: LayoutTree, node_id: LayoutNodeId)
        requires
            self.wf(),
            self.is_node(node_id),
            self.node_at(node_id).parent is Some,
            self.detach_delta_nodes(t1, node_id),
            self.detach_delta_kids(t1, node_id),
            self.detach_delta_desc(t1, node_id),
        ensures
            t1.wf_desc(),
    {
        let t0 = self;
        let p = t0.node_at(node_id).parent->0;
        let s = t0.kids(p);
        let i = s.index_of(node_id);
        let s2 = seq_remove(s, i);
        let pix = p.0 as int;
        let d = t0.descs(node_id);
        t0.lemma_detach_pre_facts(node_id);
        assert(t0.wf_container(p));
        assert(t0.descs(p).contains(pix));
        assert forall|x: LayoutNodeId| #[trigger] t1.is_node(x) implies {
            &&& t1.descs(x).contains(x.0 as int)
            &&& t1.descs(x).finite()
            &&& forall|y: int|
                #[trigger] t1.descs(x).contains(y) ==> 0 <= y && t1.is_node(
                    LayoutNodeId(y as usize),
                )
            &&& match t1.node_at(x).parent {
                Some(q) => t1.descs(x).subset_of(t1.descs(q)) && !t1.descs(x).contains(q.0 as int),
                None => true,
            }
        } by {
            assert(t0.is_node(x));
            assert forall|y: int| #[trigger] t1.descs(x).contains(y) implies 0 <= y && t1.is_node(
                LayoutNodeId(y as usize),
            ) by {
                assert(t0.descs(x).contains(y));
            }
            assert(t1.descs(x).contains(x.0 as int)) by {
                if t0.descs(x).contains(pix) {
                    if d.contains(x.0 as int) {
                        t0.lemma_desc_transitive(node_id, x.0 as int);
                        assert(t0.descs(x).subset_of(d));
                        assert(d.contains(pix));
                        assert(false);
                    }
                }
            }
            if x == node_id {
                assert(t1.node_at(x).parent is None);
            } else {
                assert(t1.node_at(x).parent == t0.node_at(x).parent);
                match t0.node_at(x).parent {
                    Some(q) => {
                        assert(t0.descs(x).subset_of(t0.descs(q)));
                        assert(!t0.descs(x).contains(q.0 as int));
                        if t0.descs(x).contains(pix) {
                            assert(t0.descs(q).contains(pix));
                            assert(t1.descs(x) == t0.descs(x).difference(d));
                            assert(t1.descs(q) == t0.descs(q).difference(d));
                        } else {
                            assert(t1.descs(x) == t0.descs(x));
                            if t0.descs(q).contains(pix) {
                                assert(t1.descs(q) == t0.descs(q).difference(d));
                                // descs(x) avoids the detached cone.
                                if t0.descs(x).contains(node_id.0 as int) {
                                    t0.lemma_on_path(x, node_id, p);
                                    assert(false);
                                }
                                assert forall|y: int|
                                    #[trigger] t0.descs(x).contains(y) implies !d.contains(y) by {
                                    if d.contains(y) {
                                        t0.lemma_desc_meet(x, node_id, y);
                                        if d.contains(x.0 as int) {
                                            t0.lemma_on_path(node_id, x, q);
                                            if node_id == q {
                                                assert(t0.descs(q).contains(pix));
                                                assert(d.contains(pix));
                                                assert(false);
                                            } else {
                                                assert(d.contains(q.0 as int));
                                                t0.lemma_desc_transitive(node_id, q.0 as int);
                                                assert(t0.descs(q).subset_of(d));
                                                assert(d.contains(pix));
                                                assert(false);
                                            }
                                        }
                                    }
                                }
                            } else {
                                assert(t1.descs(q) == t0.descs(q));
                            }
                        }
                    },
                    None => {},
                }
            }
        }
        assert forall|x: LayoutNodeId, y: int|
            t1.is_node(x) && #[trigger] t1.descs(x).contains(y) && y
                != x.0 as int implies t1.is_container_node(x) && exists|j: int|
            0 <= j < t1.kids(x).len() && #[trigger] t1.descs(t1.kids(x)[j]).contains(y) by {
            assert(t0.is_node(x));
            assert(t0.descs(x).contains(y));
            assert(t0.is_container_node(x));
            assert(t1.is_container_node(x)) by {
                assert(t1.node_at(x).spec_is_container() == t0.node_at(x).spec_is_container());
            }
            let j = choose|j: int|
                0 <= j < t0.kids(x).len() && #[trigger] t0.descs(t0.kids(x)[j]).contains(y);
            let c = t0.kids(x)[j];
            assert(t0.wf_container(x));
            assert(t0.node_at(c).parent == Some(x));
            if t0.descs(x).contains(pix) {
                assert(t1.descs(x) == t0.descs(x).difference(d));
                assert(!d.contains(y));
                if x == p {
                    assert(c != node_id) by {
                        if c == node_id {
                            assert(t0.descs(node_id).contains(y));
                        }
                    }
                    let j2 = choose|j2: int| 0 <= j2 < s.len() && s[j2] == c;
                    assert(j2 != i) by {
                        if j2 == i {
                            assert(c == node_id);
                        }
                    }
                    let jj = if j2 < i {
                        j2
                    } else {
                        j2 - 1
                    };
                    assert(s2[jj] == c);
                    assert(t1.descs(c).contains(y)) by {
                        if t0.descs(c).contains(pix) {
                            assert(t0.descs(c).subset_of(t0.descs(p)));
                            assert(!t0.descs(c).contains(pix));
                            assert(false);
                        }
                        assert(t1.descs(c) == t0.descs(c));
                    }
                    assert(0 <= jj < t1.kids(x).len() && t1.descs(t1.kids(x)[jj]).contains(y));
                } else {
                    assert(t1.kids(x) == t0.kids(x));
                    assert(t1.descs(c).contains(y)) by {
                        if t0.descs(c).contains(pix) {
                            assert(t1.descs(c) == t0.descs(c).difference(d));
                            assert(!d.contains(y));
                        } else {
                            assert(t1.descs(c) == t0.descs(c));
                        }
                    }
                    assert(0 <= j < t1.kids(x).len() && t1.descs(t1.kids(x)[j]).contains(y));
                }
            } else {
                assert(t1.descs(x) == t0.descs(x));
                assert(x != p) by {
                    assert(t0.descs(p).contains(pix));
                }
                assert(t1.kids(x) == t0.kids(x));
                assert(t1.descs(c).contains(y)) by {
                    if t0.descs(c).contains(pix) {
                        assert(t0.descs(c).subset_of(t0.descs(x)));
                        assert(false);
                    }
                    assert(t1.descs(c) == t0.descs(c));
                }
                assert(0 <= j < t1.kids(x).len() && t1.descs(t1.kids(x)[j]).contains(y));
            }
        }
    }

    /// Assembles full well-formedness after a detach.
    #[verifier::spinoff_prover]
    #[verifier::rlimit(100)]
    proof fn lemma_detach_finish(self, t1: LayoutTree, node_id: LayoutNodeId)
        requires
            self.wf(),
            self.is_node(node_id),
            self.node_at(node_id).parent is Some,
            self.detach_delta(t1, node_id),
            t1.wf_arena(),
            t1.wf_ghost_dom(),
            forall|x: LayoutNodeId|
                self.is_node(x) ==> Self::shape_same(
                    self.node_at(x),
                    #[trigger] t1.node_at(x),
                ),
        ensures
            t1.wf(),
    {
        let t0 = self;
        let p = t0.node_at(node_id).parent->0;
        let prev = t0.node_at(node_id).prev_sibling;
        let next = t0.node_at(node_id).next_sibling;
        t0.lemma_detach_pre_facts(node_id);
        t0.lemma_detach_wf_containers(t1, node_id);
        t0.lemma_detach_wf_parents(t1, node_id);
        assert(t1.wf_links());
        t0.lemma_detach_wf_desc(t1, node_id);
        t0.lemma_preserve_wf_ib(t1);
        assert(t1.wf_root()) by {
            let rt = t0.spec_root();
            if rt == node_id || Some(rt) == prev || Some(rt) == next {
                assert(t0.node_at(rt).parent is Some);
                assert(false);
            }
            if rt == p {
                assert(t1.node_at(rt).parent == t0.node_at(rt).parent);
                assert(t1.node_at(rt).prev_sibling == t0.node_at(rt).prev_sibling);
                assert(t1.node_at(rt).next_sibling == t0.node_at(rt).next_sibling);
                assert(t1.node_at(rt).spec_is_block_container() == t0.node_at(
                    rt,
                ).spec_is_block_container());
            } else {
                assert(t1.node_at(rt) == t0.node_at(rt));
            }
        }
    }

    /// Rewrites the four boxes' link fields for a detach. Only the
    /// arena changes; the ghost structure is untouched.
    fn detach_relink(
        &mut self,
        node_id: LayoutNodeId,
        parent: LayoutNodeId,
        prev: Option<LayoutNodeId>,
        next: Option<LayoutNodeId>,
    )
        requires
            old(self).wf_arena(),
            old(self).is_node(node_id),
            old(self).is_node(parent),
            node_id != parent,
            match prev {
                Some(pv) => old(self).is_node(pv) && pv != node_id && pv != parent,
                None => true,
            },
            match next {
                Some(nx) => old(self).is_node(nx) && nx != node_id && nx != parent && prev != Some(
                    nx,
                ),
                None => true,
            },
        ensures
            final(self).wf_arena(),
            final(self).children_order == old(self).children_order,
            final(self).desc_sets == old(self).desc_sets,
            final(self).ib_chains == old(self).ib_chains,
            final(self).spec_root() == old(self).spec_root(),
            forall|x: LayoutNodeId| #[trigger] final(self).is_node(x) == old(self).is_node(x),
            final(self).node_at(node_id) == old(self).node_at(node_id).with_links(
                None,
                None,
                None,
            ),
            match prev {
                Some(pv) => final(self).node_at(pv) == old(self).node_at(pv).with_links(
                    old(self).node_at(pv).parent,
                    old(self).node_at(pv).prev_sibling,
                    next,
                ),
                None => true,
            },
            match next {
                Some(nx) => final(self).node_at(nx) == old(self).node_at(nx).with_links(
                    old(self).node_at(nx).parent,
                    prev,
                    old(self).node_at(nx).next_sibling,
                ),
                None => true,
            },
            final(self).node_at(parent) == old(self).node_at(parent).with_first_last(
                if prev is None {
                    next
                } else {
                    old(self).node_at(parent).spec_first_child()
                },
                if next is None {
                    prev
                } else {
                    old(self).node_at(parent).spec_last_child()
                },
            ),
            forall|x: LayoutNodeId|
                old(self).is_node(x) && x != node_id && x != parent && Some(x) != prev && Some(x)
                    != next ==> #[trigger] final(self).node_at(x) == old(self).node_at(x),
    {
        {
            let n = self.node_mut(node_id);
            n.parent = None;
            n.prev_sibling = None;
            n.next_sibling = None;
        }
        if let Some(pv) = prev {
            let n = self.node_mut(pv);
            n.next_sibling = next;
        }
        if let Some(nx) = next {
            let n = self.node_mut(nx);
            n.prev_sibling = prev;
        }
        let pn = self.node_mut(parent);
        match &mut pn.kind {
            LayoutNodeKind::Container { first_child, last_child, .. } => {
                if prev.is_none() {
                    *first_child = next;
                }
                if next.is_none() {
                    *last_child = prev;
                }
            },
            LayoutNodeKind::Leaf { .. } => {},
        }
    }

    /// Unlinks a box from its position without freeing it or touching
    /// its children, and returns the insertion point that would put it
    /// back in the same logical slot. A box with no parent is already
    /// detached and nothing changes.
    #[verifier::spinoff_prover]
    #[verifier::rlimit(100)]
    pub fn detach_unchecked(&mut self, node_id: LayoutNodeId) -> (r: Option<InsertionPoint>)
        requires
            old(self).wf(),
            old(self).is_node(node_id),
        ensures
            final(self).wf(),
            forall|x: LayoutNodeId|
                old(self).is_node(x) ==> Self::shape_same(
                    old(self).node_at(x),
                    #[trigger] final(self).node_at(x),
                ),
            match old(self).node_at(node_id).parent {
                None => r is None && *final(self) == *old(self),
                Some(p) => {
                    &&& r == Some(
                        InsertionPoint {
                            parent: p,
                            prev_sibling: old(self).node_at(node_id).prev_sibling,
                        },
                    )
                    &&& old(self).detach_delta(*final(self), node_id)
                    &&& final(self).node_at(node_id).spec_detached()
                },
            },
    {
        let ghost t0 = *self;
        let parent_opt = self.node(node_id).parent;
        let parent = match parent_opt {
            None => {
                return None;
            },
            Some(p) => p,
        };
        proof {
            t0.lemma_detach_pre_facts(node_id);
            assert(t0.wf_container(parent));
        }
        let ghost s = t0.kids(parent);
        let ghost pix = parent.0 as int;
        let ghost d = t0.descs(node_id);
        let ghost i = s.index_of(node_id);
        let prev = self.node(node_id).prev_sibling;
        let next = self.node(node_id).next_sibling;

        self.detach_relink(node_id, parent, prev, next);
        let ghost t_mid = *self;

        let ghost s2 = seq_remove(s, i);
        self.children_order = Ghost(self.children_order@.insert(pix, s2));
        self.desc_sets = Ghost(
            Map::new(
                |k: int| t0.desc_sets@.contains_key(k),
                |k: int|
                    if t0.desc_sets@[k].contains(pix) {
                        t0.desc_sets@[k].difference(d)
                    } else {
                        t0.desc_sets@[k]
                    },
            ),
        );

        proof {
            assert(self.nodes == t_mid.nodes);
            assert(self.slots() == t_mid.slots());
            assert(t0.detach_delta_nodes(*self, node_id)) by {
                assert((i == 0) == (prev is None));
                assert((i == s.len() - 1) == (next is None));
                assert(self.node_at(node_id) == t0.node_at(node_id).with_links(None, None, None));
                assert(self.node_at(parent) == t0.node_at(parent).with_first_last(
                    if i == 0 {
                        next
                    } else {
                        t0.node_at(parent).spec_first_child()
                    },
                    if i == s.len() - 1 {
                        prev
                    } else {
                        t0.node_at(parent).spec_last_child()
                    },
                ));
                assert forall|x: LayoutNodeId| #[trigger] self.is_node(x) == t0.is_node(x) by {
                    assert(t_mid.is_node(x) == t0.is_node(x));
                }
                assert forall|x: LayoutNodeId|
                    t0.is_node(x) && x != node_id && x != parent && Some(x) != prev && Some(x)
                        != next implies #[trigger] self.node_at(x) == t0.node_at(x) by {
                    assert(t_mid.node_at(x) == t0.node_at(x));
                }
            }
            assert(t0.detach_delta_desc(*self, node_id)) by {
                assert forall|x: LayoutNodeId| t0.is_node(x) implies #[trigger] self.descs(x) == (
                if t0.descs(x).contains(pix) {
                    t0.descs(x).difference(d)
                } else {
                    t0.descs(x)
                }) by {}
            }
            assert(t0.detach_delta_kids(*self, node_id)) by {
                assert forall|c: LayoutNodeId|
                    t0.is_container_node(c) && c != parent implies #[trigger] self.kids(c) == t0
                    .kids(c) by {}
                assert(self.kids(parent) == s2);
            }
            assert forall|x: LayoutNodeId| t0.is_node(x) implies #[trigger] self.ib_chain(x) == t0
                .ib_chain(x) by {}
            assert forall|x: LayoutNodeId|
                t0.is_node(x) implies Self::shape_same(
                t0.node_at(x),
                #[trigger] self.node_at(x),
            ) by {
                if x == node_id || x == parent {
                } else if Some(x) == prev || Some(x) == next {
                } else {
                    assert(self.node_at(x) == t0.node_at(x));
                }
            }
            assert(self.wf_ghost_dom()) by {
                assert forall|x: LayoutNodeId| #[trigger] self.is_node(x) implies {
                    &&& self.desc_sets@.contains_key(x.0 as int)
                    &&& self.ib_chains@.contains_key(x.0 as int)
                    &&& (self.node_at(x).spec_is_container()
                        ==> self.children_order@.contains_key(x.0 as int))
                } by {
                    assert(t_mid.is_node(x) == t0.is_node(x));
                    assert(t0.is_node(x));
                    assert(self.node_at(x).spec_is_container() == t0.node_at(
                        x,
                    ).spec_is_container()) by {
                        if x == node_id || x == parent || Some(x) == prev || Some(x) == next {
                        } else {
                            assert(t_mid.node_at(x) == t0.node_at(x));
                        }
                    }
                }
            }
            t0.lemma_detach_finish(*self, node_id);
        }
        Some(InsertionPoint { parent, prev_sibling: prev })
    }
}

} // verus!

verus! {

impl LayoutNode {
    /// An in-flow box: neither floated nor absolutely positioned.
    pub open spec fn spec_in_flow(self) -> bool {
        !self.style.spec_is_out_of_flow()
    }
}

impl LayoutTree {
    /// The box-generation invariant at one container: a block
    /// container never mixes block-outside and inline-outside in-flow
    /// children, and an inline container holds no block-outside
    /// in-flow child at all.
    pub open spec fn flow_ok_at(self, c: LayoutNodeId) -> bool {
        let s = self.kids(c);
        &&& (self.node_at(c).spec_is_block_container() ==> forall|i: int, j: int|
            0 <= i < s.len() && 0 <= j < s.len() && self.node_at(#[trigger] s[i]).spec_in_flow()
                && self.node_at(#[trigger] s[j]).spec_in_flow()
                ==> self.node_at(s[i]).style.display.spec_is_block_outside() == self.node_at(
                s[j],
            ).style.display.spec_is_block_outside())
        &&& (self.node_at(c).spec_is_inline() ==> forall|i: int|
            0 <= i < s.len() && self.node_at(#[trigger] s[i]).spec_in_flow() ==> !self.node_at(
                s[i],
            ).style.display.spec_is_block_outside())
    }

    /// The box-generation invariant over the whole tree.
    pub open spec fn flow_ok(self) -> bool {
        forall|c: LayoutNodeId| self.is_container_node(c) ==> #[trigger] self.flow_ok_at(c)
    }

    /// The ordered child handles of a container, front to back.
    pub fn children_ids(&self, c: LayoutNodeId) -> (r: Vec<LayoutNodeId>)
        requires
            self.wf(),
            self.is_container_node(c),
        ensures
            r@ == self.kids(c),
    {
        proof {
            assert(self.wf_container(c));
        }
        let ghost s = self.kids(c);
        let mut out: Vec<LayoutNodeId> = Vec::new();
        let mut cur = self.node(c).first_child();
        while cur.is_some()
            invariant
                self.wf(),
                self.is_container_node(c),
                s == self.kids(c),
                out@.len() <= s.len(),
                out@ == s.take(out@.len() as int),
                cur == (if out@.len() < s.len() {
                    Some(s[out@.len() as int])
                } else {
                    None::<LayoutNodeId>
                }),
            decreases s.len() - out@.len(),
        {
            let id = cur.unwrap();
            proof {
                assert(self.wf_container(c));
                assert(s[out@.len() as int] == id);
                assert(self.is_node(id));
            }
            out.push(id);
            cur = self.node(id).next_sibling;
            proof {
                assert(out@ =~= s.take(out@.len() as int));
            }
        }
        proof {
            assert(out@ =~= s);
        }
        out
    }

    /// Checks one container against the box-generation invariant.
    pub fn container_flow_consistent(&self, c: LayoutNodeId) -> (r: bool)
        requires
            self.wf(),
            self.is_container_node(c),
        ensures
            r == self.flow_ok_at(c),
    {
        let ghost s = self.kids(c);
        let kids = self.children_ids(c);
        let mut saw_block = false;
        let mut saw_inline_level = false;
        let mut k: usize = 0;
        while k < kids.len()
            invariant
                self.wf(),
                self.is_container_node(c),
                s == self.kids(c),
                kids@ == s,
                k <= s.len(),
                saw_block == exists|i: int|
                    0 <= i < k && self.node_at(#[trigger] s[i]).spec_in_flow() && self.node_at(
                        s[i],
                    ).style.display.spec_is_block_outside(),
                saw_inline_level == exists|i: int|
                    0 <= i < k && self.node_at(#[trigger] s[i]).spec_in_flow() && !self.node_at(
                        s[i],
                    ).style.display.spec_is_block_outside(),
            decreases s.len() - k,
        {
            let id = kids[k];
            proof {
                assert(self.wf_container(c));
                assert(self.is_node(id));
            }
            let child = self.node(id);
            if !child.style.is_out_of_flow() {
                if child.style.display.is_block_outside() {
                    saw_block = true;
                    proof {
                        assert(self.node_at(s[k as int]).spec_in_flow() && self.node_at(
                            s[k as int],
                        ).style.display.spec_is_block_outside());
                    }
                } else {
                    saw_inline_level = true;
                    proof {
                        assert(self.node_at(s[k as int]).spec_in_flow() && !self.node_at(
                            s[k as int],
                        ).style.display.spec_is_block_outside());
                    }
                }
            }
            k = k + 1;
        }
        let node = self.node(c);
        let r = if node.is_block_container() {
            !(saw_block && saw_inline_level)
        } else {
            !saw_block
        };
        proof {
            if node.spec_is_block_container() {
                if saw_block && saw_inline_level {
                    let i = choose|i: int|
                        0 <= i < s.len() && self.node_at(#[trigger] s[i]).spec_in_flow()
                            && self.node_at(s[i]).style.display.spec_is_block_outside();
                    let j = choose|j: int|
                        0 <= j < s.len() && self.node_at(#[trigger] s[j]).spec_in_flow()
                            && !self.node_at(s[j]).style.display.spec_is_block_outside();
                    assert(!self.flow_ok_at(c));
                } else {
                    assert(self.flow_ok_at(c));
                }
            } else {
                if saw_block {
                    assert(!self.flow_ok_at(c));
                } else {
                    assert(self.flow_ok_at(c));
                }
            }
        }
        r
    }

    /// Checks the whole tree against the box-generation invariant.
    /// The link consistency the original checker also walked is a
    /// static guarantee here (`wf`), so only homogeneity is dynamic.
    pub fn assert_consistent(&self) -> (r: bool)
        requires
            self.wf(),
        ensures
            r == self.flow_ok(),
    {
        let total = self.nodes.slot_count();
        let mut ok = true;
        let mut k: usize = 0;
        while k < total
            invariant
                self.wf(),
                total == self.slots().len(),
                k <= total,
                ok == forall|c: LayoutNodeId|
                    c.0 < k && self.is_container_node(c) ==> #[trigger] self.flow_ok_at(c),
            decreases total - k,
        {
            let id = LayoutNodeId(k);
            let is_cont = match self.nodes.get(k) {
                Some(n) => n.is_container(),
                None => false,
            };
            if is_cont {
                let good = self.container_flow_consistent(id);
                proof {
                    assert forall|c: LayoutNodeId|
                        c.0 < k + 1 && self.is_container_node(c) implies ((ok && good)
                        == false) || #[trigger] self.flow_ok_at(c) by {
                        if c.0 < k {
                        } else {
                            assert(c == id);
                        }
                    }
                }
                ok = ok && good;
            } else {
                proof {
                    assert forall|c: LayoutNodeId|
                        c.0 < k + 1 && self.is_container_node(c) implies (ok == false)
                            || #[trigger] self.flow_ok_at(c) by {
                        if c.0 < k {
                        } else {
                            assert(c == id);
                            assert(!self.is_container_node(id));
                        }
                    }
                }
            }
            k = k + 1;
        }
        proof {
            if ok {
                assert forall|c: LayoutNodeId| self.is_container_node(c) implies #[trigger] self
                    .flow_ok_at(c) by {
                    assert(c.0 < total);
                }
            }
        }
        ok
    }

    /// Law: detaching a box and inserting it back at the returned
    /// insertion point restores the original position exactly: every
    /// box's fields, every child order and every descendant set are
    /// as before.
    #[verifier::spinoff_prover]
    #[verifier::rlimit(100)]
    pub proof fn lemma_detach_then_insert_restores(
        t0: LayoutTree,
        t1: LayoutTree,
        t2: LayoutTree,
        node_id: LayoutNodeId,
        ip: InsertionPoint,
    )
        requires
            t0.wf(),
            t0.is_node(node_id),
            t0.node_at(node_id).parent is Some,
            ip.parent == t0.node_at(node_id).parent->0,
            ip.prev_sibling == t0.node_at(node_id).prev_sibling,
            t0.detach_delta(t1, node_id),
            t1.wf(),
            t1.insert_delta(t2, node_id, ip),
        ensures
            forall|x: LayoutNodeId|
                t0.is_node(x) ==> t2.is_node(x) && #[trigger] t2.node_at(x) == t0.node_at(x),
            forall|c: LayoutNodeId|
                t0.is_container_node(c) ==> #[trigger] t2.kids(c) == t0.kids(c),
            forall|x: LayoutNodeId| t0.is_node(x) ==> #[trigger] t2.descs(x) == t0.descs(x),
    {
        let p = ip.parent;
        let prev = t0.node_at(node_id).prev_sibling;
        let next = t0.node_at(node_id).next_sibling;
        let s = t0.kids(p);
        let i = s.index_of(node_id);
        let s1 = seq_remove(s, i);
        let d = t0.descs(node_id);
        let pix = p.0 as int;
        t0.lemma_detach_pre_facts(node_id);
        assert(t0.wf_container(p));
        assert(t1.kids(p) == s1);
        assert(t1.is_container_node(p)) by {
            assert(t1.node_at(p) == t0.node_at(p).with_first_last(
                if i == 0 {
                    next
                } else {
                    t0.node_at(p).spec_first_child()
                },
                if i == s.len() - 1 {
                    prev
                } else {
                    t0.node_at(p).spec_last_child()
                },
            ));
        }
        assert(t1.wf_container(p));
        // The re-insertion lands at the original index.
        let idx = child_insert_index(s1, prev);
        assert(idx == i) by {
            match prev {
                None => {
                    assert(i == 0);
                },
                Some(ps) => {
                    assert(ps == s[i - 1]);
                    assert(s1[i - 1] == ps);
                    assert(s1.contains(ps));
                    let k = s1.index_of(ps);
                    assert(0 <= k < s1.len() && s1[k] == ps);
                    if k != i - 1 {
                        assert(s1[k] == s1[i - 1]);
                        assert(false);
                    }
                },
            }
        }
        // The box that follows is the original next sibling.
        let ns = t1.next_at(ip);
        assert(ns == next) by {
            if i < s1.len() {
                assert(s1[i] == s[i + 1]);
            }
        }
        // The original next sibling's index argument.
        assert(t2.kids(p) == seq_insert(s1, i, node_id));
        assert(t2.kids(p) =~= s);
        assert forall|c: LayoutNodeId|
            t0.is_container_node(c) implies #[trigger] t2.kids(c) == t0.kids(c) by {
            if c == p {
            } else {
                assert(t1.is_container_node(c)) by {
                    if c == node_id || Some(c) == prev || Some(c) == next {
                        assert(LayoutTree::shape_same(t0.node_at(c), t1.node_at(c)) || true);
                        assert(t1.node_at(c).spec_is_container()) by {
                            if c == node_id {
                                assert(t1.node_at(c) == t0.node_at(c).with_links(
                                    None,
                                    None,
                                    None,
                                ));
                            } else if Some(c) == prev {
                                assert(t1.node_at(c) == t0.node_at(c).with_links(
                                    t0.node_at(c).parent,
                                    t0.node_at(c).prev_sibling,
                                    next,
                                ));
                            } else {
                                assert(t1.node_at(c) == t0.node_at(c).with_links(
                                    t0.node_at(c).parent,
                                    prev,
                                    t0.node_at(c).next_sibling,
                                ));
                            }
                        }
                    } else {
                        assert(t1.node_at(c) == t0.node_at(c));
                    }
                }
                assert(t1.kids(c) == t0.kids(c));
                assert(t2.kids(c) == t1.kids(c));
            }
        }
        // Every box's fields return to their original values.
        assert forall|x: LayoutNodeId|
            t0.is_node(x) implies t2.is_node(x) && #[trigger] t2.node_at(x) == t0.node_at(x) by {
            assert(t1.is_node(x) && t2.is_node(x));
            if x == node_id {
                assert(t2.node_at(x) == t1.node_at(x).with_links(Some(p), prev, ns));
                assert(t1.node_at(x) == t0.node_at(x).with_links(None, None, None));
                assert(t2.node_at(x) == t0.node_at(x));
            } else if Some(x) == prev {
                assert(t2.node_at(x) == t1.node_at(x).with_links(
                    t1.node_at(x).parent,
                    t1.node_at(x).prev_sibling,
                    Some(node_id),
                ));
                assert(t1.node_at(x) == t0.node_at(x).with_links(
                    t0.node_at(x).parent,
                    t0.node_at(x).prev_sibling,
                    next,
                ));
                assert(t0.node_at(x).next_sibling == Some(node_id));
                assert(t2.node_at(x) == t0.node_at(x));
            } else if Some(x) == next {
                assert(t2.node_at(x) == t1.node_at(x).with_links(
                    t1.node_at(x).parent,
                    Some(node_id),
                    t1.node_at(x).next_sibling,
                ));
                assert(t1.node_at(x) == t0.node_at(x).with_links(
                    t0.node_at(x).parent,
                    prev,
                    t0.node_at(x).next_sibling,
                ));
                assert(t0.node_at(x).prev_sibling == Some(node_id));
                assert(t2.node_at(x) == t0.node_at(x));
            } else if x == p {
                assert(t2.node_at(x) == t1.node_at(x).with_first_last(
                    t1.insert_f2(node_id, ip),
                    t1.insert_l2(node_id, ip),
                ));
                assert(t1.insert_f2(node_id, ip) == t0.node_at(p).spec_first_child()) by {
                    if idx == 0 {
                        assert(i == 0);
                        assert(t0.node_at(p).spec_first_child() == Some(s[0]));
                        assert(s[0] == node_id);
                    } else {
                        assert(t1.node_at(p).spec_first_child() == t0.node_at(
                            p,
                        ).spec_first_child());
                    }
                }
                assert(t1.insert_l2(node_id, ip) == t0.node_at(p).spec_last_child()) by {
                    if idx == s1.len() {
                        assert(i == s.len() - 1);
                        assert(t0.node_at(p).spec_last_child() == Some(s[s.len() - 1]));
                        assert(s[s.len() - 1] == node_id);
                    } else {
                        assert(i < s.len() - 1);
                        assert(t1.node_at(p).spec_last_child() == t0.node_at(
                            p,
                        ).spec_last_child());
                    }
                }
                assert(t2.node_at(x) == t0.node_at(x));
            } else {
                assert(t1.node_at(x) == t0.node_at(x));
                assert(t2.node_at(x) == t1.node_at(x));
            }
        }
        // The descendant sets return to their original values.
        assert(t1.descs(node_id) == d);
        assert forall|x: LayoutNodeId|
            t0.is_node(x) implies #[trigger] t2.descs(x) == t0.descs(x) by {
            assert(t1.is_node(x));
            if t0.descs(x).contains(pix) {
                assert(t1.descs(x) == t0.descs(x).difference(d));
                assert(t1.descs(x).contains(pix));
                assert(t2.descs(x) == t1.descs(x).union(t1.descs(node_id)));
                assert(d.subset_of(t0.descs(x))) by {
                    t0.lemma_desc_transitive(x, pix);
                    assert(LayoutNodeId(pix as usize) == p);
                    assert(t0.descs(p).subset_of(t0.descs(x)));
                    assert(d.subset_of(t0.descs(p)));
                }
                assert(t2.descs(x) =~= t0.descs(x));
            } else {
                assert(t1.descs(x) == t0.descs(x));
                assert(!t1.descs(x).contains(pix));
                assert(t2.descs(x) == t1.descs(x));
            }
        }
    }
}

} // verus!

