//! The invariant of the acceleration structure: every leaf's bounding box is
//! contained in the box of each of its ancestors.
//!
//! The structure is built outside this library, so the library cannot prove
//! the invariant of the builder. It states the invariant on the finished
//! structure, read as plain values, and decides it: `is_nested` tests a
//! condition on every node and its parent, and `lemma_leaf_within_ancestors`
//! shows that the condition carries up the whole chain of ancestors. A
//! `Hierarchy` is a structure that has passed the test.
//!
//! Coordinates are held as order keys (see `keys`).

use vstd::prelude::*;

verus! {

/// A corner of a box, by the order keys of its three coordinates.
#[derive(Clone, Copy, Debug, PartialEq, Eq, Structural)]
pub struct Corner {
    pub x: u64,
    pub y: u64,
    pub z: u64,
}

/// An axis-aligned box, by its least and its greatest corner.
#[derive(Clone, Copy, Debug, PartialEq, Eq, Structural)]
pub struct Bounds {
    pub min: Corner,
    pub max: Corner,
}

/// A node of the hierarchy. An inner node records the boxes of its two subtrees.
#[derive(Clone, Copy, Debug, PartialEq, Eq, Structural)]
pub enum Node {
    Leaf { parent: usize, shape: usize },
    Inner { parent: usize, left: usize, left_bounds: Bounds, right: usize, right_bounds: Bounds },
}

/// The lesser of two keys.
pub open spec fn lesser(a: u64, b: u64) -> u64 {
    if a <= b {
        a
    } else {
        b
    }
}

/// The greater of two keys.
pub open spec fn greater(a: u64, b: u64) -> u64 {
    if a >= b {
        a
    } else {
        b
    }
}

impl Bounds {
    /// `inner` lies within this box, borders included.
    pub open spec fn contains(self, inner: Bounds) -> bool {
        &&& self.min.x <= inner.min.x && inner.max.x <= self.max.x
        &&& self.min.y <= inner.min.y && inner.max.y <= self.max.y
        &&& self.min.z <= inner.min.z && inner.max.z <= self.max.z
    }

    /// The least box that contains both boxes.
    pub open spec fn join(self, other: Bounds) -> Bounds {
        Bounds {
            min: Corner {
                x: lesser(self.min.x, other.min.x),
                y: lesser(self.min.y, other.min.y),
                z: lesser(self.min.z, other.min.z),
            },
            max: Corner {
                x: greater(self.max.x, other.max.x),
                y: greater(self.max.y, other.max.y),
                z: greater(self.max.z, other.max.z),
            },
        }
    }

    /// Whether `inner` lies within this box, borders included.
    pub fn holds(&self, inner: &Bounds) -> (b: bool)
        ensures
            b == self.contains(*inner),
    {
        self.min.x <= inner.min.x && inner.max.x <= self.max.x && self.min.y <= inner.min.y
            && inner.max.y <= self.max.y && self.min.z <= inner.min.z && inner.max.z
            <= self.max.z
    }

    /// The least box that contains both boxes.
    pub fn joined(&self, other: &Bounds) -> (b: Bounds)
        ensures
            b == self.join(*other),
    {
        Bounds {
            min: Corner {
                x: if self.min.x <= other.min.x {
                    self.min.x
                } else {
                    other.min.x
                },
                y: if self.min.y <= other.min.y {
                    self.min.y
                } else {
                    other.min.y
                },
                z: if self.min.z <= other.min.z {
                    self.min.z
                } else {
                    other.min.z
                },
            },
            max: Corner {
                x: if self.max.x >= other.max.x {
                    self.max.x
                } else {
                    other.max.x
                },
                y: if self.max.y >= other.max.y {
                    self.max.y
                } else {
                    other.max.y
                },
                z: if self.max.z >= other.max.z {
                    self.max.z
                } else {
                    other.max.z
                },
            },
        }
    }
}

/// The parent of a node.
pub open spec fn parent_of(node: Node) -> usize {
    match node {
        Node::Leaf { parent, .. } => parent,
        Node::Inner { parent, .. } => parent,
    }
}

/// The node has a box of its own: a leaf names a shape that exists.
pub open spec fn has_box(shapes: Seq<Bounds>, node: Node) -> bool {
    match node {
        Node::Leaf { shape, .. } => shape < shapes.len(),
        Node::Inner { .. } => true,
    }
}

/// The box of a node: the box of its shape for a leaf, and the join of the
/// boxes of its two subtrees for an inner node.
pub open spec fn box_of(shapes: Seq<Bounds>, node: Node) -> Bounds {
    match node {
        Node::Leaf { shape, .. } => shapes[shape as int],
        Node::Inner { left_bounds, right_bounds, .. } => left_bounds.join(right_bounds),
    }
}

/// Node `i` sits well under its parent: the parent is an inner node that
/// names `i` as one of its children, and the box that it records for that
/// child contains the box of `i`. The root, node 0, has no parent.
pub open spec fn sits_under_parent(nodes: Seq<Node>, shapes: Seq<Bounds>, i: int) -> bool {
    &&& has_box(shapes, nodes[i])
    &&& i != 0 ==> {
        &&& parent_of(nodes[i]) < nodes.len()
        &&& nodes[parent_of(nodes[i]) as int] matches Node::Inner {
            left,
            left_bounds,
            right,
            right_bounds,
            ..
        }
        &&& (left == i && left_bounds.contains(box_of(shapes, nodes[i]))) || (right == i
            && right_bounds.contains(box_of(shapes, nodes[i])))
    }
}

/// Every node sits well under its parent.
pub open spec fn nested(nodes: Seq<Node>, shapes: Seq<Bounds>) -> bool {
    forall|i: int| 0 <= i < nodes.len() ==> #[trigger] sits_under_parent(nodes, shapes, i)
}

/// The `k`-th ancestor of node `i`: the node itself for `k = 0`, then its
/// parent, and so on. The root is its own ancestor from there on.
pub open spec fn ancestor(nodes: Seq<Node>, i: int, k: nat) -> int
    decreases k,
{
    if k == 0 || i == 0 {
        i
    } else {
        ancestor(nodes, parent_of(nodes[i]) as int, (k - 1) as nat)
    }
}

/// A box that contains a second box contains every box within the second.
pub proof fn lemma_contains_is_transitive(a: Bounds, b: Bounds, c: Bounds)
    requires
        a.contains(b),
        b.contains(c),
    ensures
        a.contains(c),
{
}

/// The join of two boxes contains both.
pub proof fn lemma_join_contains_both(a: Bounds, b: Bounds)
    ensures
        a.join(b).contains(a),
        a.join(b).contains(b),
{
}

/// In a nested hierarchy the box of every node, and so of every leaf, lies
/// within the box of each of its ancestors.
pub proof fn lemma_leaf_within_ancestors(nodes: Seq<Node>, shapes: Seq<Bounds>, i: int, k: nat)
    requires
        nested(nodes, shapes),
        0 <= i < nodes.len(),
    ensures
        0 <= ancestor(nodes, i, k) < nodes.len(),
        box_of(shapes, nodes[ancestor(nodes, i, k)]).contains(box_of(shapes, nodes[i])),
    decreases k,
{
    if k == 0 || i == 0 {
    } else {
        assert(sits_under_parent(nodes, shapes, i));
        let p = parent_of(nodes[i]) as int;
        lemma_leaf_within_ancestors(nodes, shapes, p, (k - 1) as nat);
        let own = box_of(shapes, nodes[i]);
        match nodes[p] {
            Node::Inner { left_bounds, right_bounds, .. } => {
                lemma_join_contains_both(left_bounds, right_bounds);
                if left_bounds.contains(own) {
                    lemma_contains_is_transitive(box_of(shapes, nodes[p]), left_bounds, own);
                } else {
                    lemma_contains_is_transitive(box_of(shapes, nodes[p]), right_bounds, own);
                }
            },
            Node::Leaf { .. } => {},
        }
        lemma_contains_is_transitive(
            box_of(shapes, nodes[ancestor(nodes, p, (k - 1) as nat)]),
            box_of(shapes, nodes[p]),
            own,
        );
    }
}

/// The box of node `i`, or `None` where the node is a leaf that names no shape.
fn own_box(nodes: &Vec<Node>, shapes: &Vec<Bounds>, i: usize) -> (b: Option<Bounds>)
    requires
        i < nodes@.len(),
    ensures
        has_box(shapes@, nodes@[i as int]) ==> b == Some(box_of(shapes@, nodes@[i as int])),
        !has_box(shapes@, nodes@[i as int]) ==> b is None,
{
    match nodes[i] {
        Node::Leaf { shape, .. } => {
            if shape < shapes.len() {
                Some(shapes[shape])
            } else {
                None
            }
        },
        Node::Inner { left_bounds, right_bounds, .. } => Some(left_bounds.joined(&right_bounds)),
    }
}

/// Whether node `i` sits well under its parent.
fn sits(nodes: &Vec<Node>, shapes: &Vec<Bounds>, i: usize) -> (b: bool)
    requires
        i < nodes@.len(),
    ensures
        b == sits_under_parent(nodes@, shapes@, i as int),
{
    let own = match own_box(nodes, shapes, i) {
        None => {
            return false;
        },
        Some(own) => own,
    };
    if i == 0 {
        return true;
    }
    let parent: usize = match nodes[i] {
        Node::Leaf { parent, .. } => parent,
        Node::Inner { parent, .. } => parent,
    };
    if parent >= nodes.len() {
        return false;
    }
    match nodes[parent] {
        Node::Leaf { .. } => false,
        Node::Inner { left, left_bounds, right, right_bounds, .. } => {
            (left == i && left_bounds.holds(&own)) || (right == i && right_bounds.holds(&own))
        },
    }
}

/// Decides whether the hierarchy is nested: whether every node sits well
/// under its parent. An empty hierarchy is nested.
pub fn is_nested(nodes: &Vec<Node>, shapes: &Vec<Bounds>) -> (b: bool)
    ensures
        b == nested(nodes@, shapes@),
{
    let mut i: usize = 0;
    while i < nodes.len()
        invariant
            i <= nodes@.len(),
            forall|j: int| 0 <= j < i ==> #[trigger] sits_under_parent(nodes@, shapes@, j),
        decreases nodes@.len() - i,
    {
        if !sits(nodes, shapes, i) {
            return false;
        }
        i = i + 1;
    }
    true
}

/// A structure as its builder hands it over: the structure itself, which
/// this library does not look into, and beside it the nodes and the boxes
/// of the shapes, read off as plain values. Nothing is known of it yet.
pub struct Described<A> {
    pub structure: A,
    pub nodes: Vec<Node>,
    pub shapes: Vec<Bounds>,
}

/// What a `Hierarchy` stands for.
pub struct HierarchyView<A> {
    pub structure: A,
    pub nodes: Seq<Node>,
    pub shapes: Seq<Bounds>,
}

/// A structure whose description has been checked: its nodes are nested, so
/// every leaf's box lies within the box of each of its ancestors.
pub struct Hierarchy<A> {
    structure: A,
    nodes: Vec<Node>,
    shapes: Vec<Bounds>,
}

impl<A> View for Hierarchy<A> {
    type V = HierarchyView<A>;

    closed spec fn view(&self) -> HierarchyView<A> {
        HierarchyView { structure: self.structure, nodes: self.nodes@, shapes: self.shapes@ }
    }
}

impl<A> Hierarchy<A> {
    #[verifier::type_invariant]
    pub open spec fn wf(self) -> bool {
        nested(self@.nodes, self@.shapes)
    }

    /// Checks a description and keeps the structure where its nodes are
    /// nested. Returns `None` where they are not.
    pub fn new(described: Described<A>) -> (h: Option<Hierarchy<A>>)
        ensures
            nested(described.nodes@, described.shapes@) ==> h is Some && h->Some_0@ == (
            HierarchyView {
                structure: described.structure,
                nodes: described.nodes@,
                shapes: described.shapes@,
            }),
            !nested(described.nodes@, described.shapes@) ==> h is None,
    {
        if is_nested(&described.nodes, &described.shapes) {
            Some(
                Hierarchy {
                    structure: described.structure,
                    nodes: described.nodes,
                    shapes: described.shapes,
                },
            )
        } else {
            None
        }
    }

    /// The structure.
    pub fn structure(&self) -> (a: &A)
        ensures
            *a == self@.structure,
    {
        &self.structure
    }

    /// The nodes of the structure. They are nested.
    pub fn nodes(&self) -> (nodes: &Vec<Node>)
        ensures
            nodes@ == self@.nodes,
            nested(self@.nodes, self@.shapes),
    {
        proof {
            use_type_invariant(self);
        }
        &self.nodes
    }

    /// The boxes of the shapes that the leaves name.
    pub fn shapes(&self) -> (shapes: &Vec<Bounds>)
        ensures
            shapes@ == self@.shapes,
            nested(self@.nodes, self@.shapes),
    {
        proof {
            use_type_invariant(self);
        }
        &self.shapes
    }
}

} // verus!
