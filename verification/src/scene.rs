//! The objects of a scene and the acceleration structure built over them.
//!
//! Objects are kept in one list and referred to by their index in it. A
//! `Scene` can grow; building the structure consumes it and yields a
//! `Snapshot`, which holds the structure together with exactly the objects
//! it was built from and cannot grow. To add an object the snapshot is
//! turned back into a scene, which drops the structure: a query never meets
//! a structure that is older than the objects.
//!
//! A snapshot keeps a structure only if it is nested and has one box for
//! every object. Without a structure every object is a candidate of every
//! ray: the render goes on, only slower.

use vstd::prelude::*;
use crate::hierarchy::ancestor;
use crate::hierarchy::box_of;
use crate::hierarchy::lemma_leaf_within_ancestors;
use crate::hierarchy::nested;
use crate::hierarchy::Described;
use crate::hierarchy::Hierarchy;
use crate::hierarchy::HierarchyView;

verus! {

/// One object of the scene: a shape and the material of its surface.
pub struct SceneObject<G, M> {
    pub geometry: G,
    pub material: M,
}

/// The objects of a scene, before a structure is built over them.
pub struct Scene<G, M> {
    objects: Vec<SceneObject<G, M>>,
}

/// The objects of a scene with the structure that was built over them.
pub struct Snapshot<G, M, A> {
    objects: Vec<SceneObject<G, M>>,
    hierarchy: Option<Hierarchy<A>>,
}

/// What a `Snapshot` stands for.
pub struct SnapshotView<G, M, A> {
    pub objects: Seq<SceneObject<G, M>>,
    pub hierarchy: Option<HierarchyView<A>>,
}

/// The objects that a list of candidate indices names, in the order of the
/// list. An index that names no object is passed over.
pub open spec fn candidates<T>(objects: Seq<T>, indices: Seq<usize>) -> Seq<T>
    decreases indices.len(),
{
    if indices.len() == 0 {
        Seq::empty()
    } else if indices.last() < objects.len() {
        candidates(objects, indices.drop_last()).push(objects[indices.last() as int])
    } else {
        candidates(objects, indices.drop_last())
    }
}

/// The references refer to the given objects, one for one and in order.
pub open spec fn refers_to<T>(found: Seq<&T>, objects: Seq<T>) -> bool {
    &&& found.len() == objects.len()
    &&& forall|k: int| 0 <= k < found.len() ==> *(#[trigger] found[k]) == objects[k]
}

/// The description is fit to be kept for a scene of `count` objects: its
/// nodes are nested and it has one box for every object, so that every leaf
/// names an object of the scene.
pub open spec fn fits_scene<A>(described: Described<A>, count: nat) -> bool {
    &&& nested(described.nodes@, described.shapes@)
    &&& described.shapes@.len() == count
}

/// In the hierarchy every node's box, and so every leaf's, lies within the
/// box of each of its ancestors.
pub open spec fn leaves_within_ancestors<A>(h: HierarchyView<A>) -> bool {
    forall|i: int, k: nat|
        0 <= i < h.nodes.len() ==> 0 <= #[trigger] ancestor(h.nodes, i, k) < h.nodes.len()
            && box_of(h.shapes, h.nodes[ancestor(h.nodes, i, k)]).contains(
            box_of(h.shapes, h.nodes[i]),
        )
}

/// A nested hierarchy has every leaf within all its ancestors.
pub proof fn lemma_nested_has_leaves_within_ancestors<A>(h: HierarchyView<A>)
    requires
        nested(h.nodes, h.shapes),
    ensures
        leaves_within_ancestors(h),
{
    assert forall|i: int, k: nat| 0 <= i < h.nodes.len() implies 0 <= #[trigger] ancestor(
        h.nodes,
        i,
        k,
    ) < h.nodes.len() && box_of(h.shapes, h.nodes[ancestor(h.nodes, i, k)]).contains(
        box_of(h.shapes, h.nodes[i]),
    ) by {
        lemma_leaf_within_ancestors(h.nodes, h.shapes, i, k);
    }
}

/// Where every index names an object, the candidates are the named objects, one for one.
pub proof fn lemma_candidates_of_valid_indices<T>(objects: Seq<T>, indices: Seq<usize>)
    requires
        forall|k: int| 0 <= k < indices.len() ==> (#[trigger] indices[k]) < objects.len(),
    ensures
        candidates(objects, indices).len() == indices.len(),
        forall|k: int|
            0 <= k < indices.len() ==> (#[trigger] candidates(objects, indices)[k])
                == objects[indices[k] as int],
    decreases indices.len(),
{
    if indices.len() > 0 {
        lemma_candidates_of_valid_indices(objects, indices.drop_last());
    }
}

/// Every candidate is an object of the scene: a query can leave objects
/// out, but it cannot bring in anything that the scene does not hold.
pub proof fn lemma_candidates_are_objects<T>(objects: Seq<T>, indices: Seq<usize>, j: int)
    requires
        0 <= j < candidates(objects, indices).len(),
    ensures
        exists|i: int| 0 <= i < objects.len() && candidates(objects, indices)[j] == #[trigger] objects[i],
    decreases indices.len(),
{
    if indices.len() > 0 {
        let rest = candidates(objects, indices.drop_last());
        if j < rest.len() {
            lemma_candidates_are_objects(objects, indices.drop_last(), j);
            let i = choose|i: int| 0 <= i < objects.len() && rest[j] == #[trigger] objects[i];
            assert(candidates(objects, indices)[j] == objects[i]);
        } else {
            assert(candidates(objects, indices)[j] == objects[indices.last() as int]);
        }
    }
}

/// Without candidate indices there are no candidates, whatever the scene holds.
pub proof fn lemma_no_indices_no_candidates<T>(objects: Seq<T>)
    ensures
        candidates(objects, Seq::<usize>::empty()) == Seq::<T>::empty(),
{
}

/// An empty scene has no candidates, whatever indices a query names.
pub proof fn lemma_empty_scene_has_no_candidates<T>(indices: Seq<usize>)
    ensures
        candidates(Seq::<T>::empty(), indices) == Seq::<T>::empty(),
    decreases indices.len(),
{
    if indices.len() > 0 {
        lemma_empty_scene_has_no_candidates::<T>(indices.drop_last());
    }
}

impl<G, M> View for Scene<G, M> {
    type V = Seq<SceneObject<G, M>>;

    /// The objects, in the order in which they were added.
    open spec fn view(&self) -> Seq<SceneObject<G, M>> {
        self.list()@
    }
}

impl<G, M> Scene<G, M> {
    /// The list that holds the objects.
    pub closed spec fn list(&self) -> Vec<SceneObject<G, M>> {
        self.objects
    }

    /// A scene without objects.
    pub fn new() -> (s: Scene<G, M>)
        ensures
            s@ == Seq::<SceneObject<G, M>>::empty(),
    {
        Scene { objects: Vec::new() }
    }

    /// Appends an object. Its index is the number of objects that the scene held before.
    pub fn add(&mut self, object: SceneObject<G, M>)
        ensures
            final(self)@ == old(self)@.push(object),
    {
        self.objects.push(object);
    }

    /// The number of objects.
    pub fn len(&self) -> (n: usize)
        ensures
            n == self@.len(),
    {
        self.objects.len()
    }

    /// The object with the given index, or `None` where the scene has no such object.
    pub fn object(&self, index: usize) -> (o: Option<&SceneObject<G, M>>)
        ensures
            index < self@.len() ==> o == Some(&self@[index as int]),
            index >= self@.len() ==> o is None,
    {
        if index < self.objects.len() {
            Some(&self.objects[index])
        } else {
            None
        }
    }

    /// The objects, in the order in which they were added.
    pub fn objects(&self) -> (list: &Vec<SceneObject<G, M>>)
        ensures
            list == self.list(),
            list@ == self@,
    {
        &self.objects
    }

    /// Builds the acceleration structure over the objects that the scene
    /// holds now. The scene is used up: the snapshot holds the same objects
    /// in the same order. `construct` builds the structure from exactly that
    /// list and describes it; the snapshot keeps the structure if the
    /// description is nested and has one box for every object, and is
    /// without a structure otherwise. So in every structure that a snapshot
    /// holds, every leaf's box lies within the box of each of its ancestors.
    pub fn build_bvh<A, F: FnOnce(&Vec<SceneObject<G, M>>) -> Described<A>>(
        self,
        construct: F,
    ) -> (s: Snapshot<G, M, A>)
        requires
            call_requires(construct, (&self.list(),)),
        ensures
            s@.objects == self@,
            s@.hierarchy is Some ==> nested(s@.hierarchy->Some_0.nodes, s@.hierarchy->Some_0.shapes)
                && s@.hierarchy->Some_0.shapes.len() == s@.objects.len(),
            s@.hierarchy is Some ==> leaves_within_ancestors(s@.hierarchy->Some_0),
            exists|described: Described<A>| #[trigger]
                call_ensures(construct, (&self.list(),), described) && (fits_scene(
                    described,
                    self@.len(),
                ) ==> s@.hierarchy == Some(
                    HierarchyView {
                        structure: described.structure,
                        nodes: described.nodes@,
                        shapes: described.shapes@,
                    },
                )) && (!fits_scene(described, self@.len()) ==> s@.hierarchy is None),
    {
        let described = construct(&self.objects);
        let ghost handed = described;
        let hierarchy = if described.shapes.len() == self.objects.len() {
            Hierarchy::new(described)
        } else {
            None
        };
        proof {
            match &hierarchy {
                Some(h) => {
                    use_type_invariant(h);
                    lemma_nested_has_leaves_within_ancestors(h@);
                },
                None => {},
            }
            assert(call_ensures(construct, (&self.list(),), handed));
        }
        Snapshot { objects: self.objects, hierarchy }
    }
}

impl<G, M, A> View for Snapshot<G, M, A> {
    type V = SnapshotView<G, M, A>;

    closed spec fn view(&self) -> SnapshotView<G, M, A> {
        SnapshotView {
            objects: self.objects@,
            hierarchy: match self.hierarchy {
                Some(h) => Some(h@),
                None => None,
            },
        }
    }
}

impl<G, M, A> Snapshot<G, M, A> {
    /// A structure that the snapshot holds is nested and has one box for every object.
    #[verifier::type_invariant]
    pub open spec fn wf(self) -> bool {
        self@.hierarchy is Some ==> nested(
            self@.hierarchy->Some_0.nodes,
            self@.hierarchy->Some_0.shapes,
        ) && self@.hierarchy->Some_0.shapes.len() == self@.objects.len()
    }

    /// The number of objects.
    pub fn len(&self) -> (n: usize)
        ensures
            n == self@.objects.len(),
    {
        self.objects.len()
    }

    /// The object with the given index, or `None` where the snapshot has no such object.
    pub fn object(&self, index: usize) -> (o: Option<&SceneObject<G, M>>)
        ensures
            index < self@.objects.len() ==> o == Some(&self@.objects[index as int]),
            index >= self@.objects.len() ==> o is None,
    {
        if index < self.objects.len() {
            Some(&self.objects[index])
        } else {
            None
        }
    }

    /// The objects that the structure was built from.
    pub fn objects(&self) -> (list: &Vec<SceneObject<G, M>>)
        ensures
            list@ == self@.objects,
    {
        &self.objects
    }

    /// The checked structure, or `None` where the snapshot is without one.
    /// It is nested and has one box for every object.
    pub fn hierarchy(&self) -> (h: Option<&Hierarchy<A>>)
        ensures
            self@.hierarchy is None ==> h is None,
            self@.hierarchy is Some ==> h is Some && h->Some_0@ == self@.hierarchy->Some_0
                && nested(h->Some_0@.nodes, h->Some_0@.shapes) && h->Some_0@.shapes.len()
                == self@.objects.len(),
    {
        proof {
            use_type_invariant(self);
        }
        match &self.hierarchy {
            Some(h) => Some(h),
            None => None,
        }
    }

    /// The acceleration structure, or `None` where the snapshot is without one.
    pub fn structure(&self) -> (a: Option<&A>)
        ensures
            self@.hierarchy is None ==> a is None,
            self@.hierarchy is Some ==> a is Some && *a->Some_0 == self@.hierarchy->Some_0.structure,
    {
        match &self.hierarchy {
            Some(h) => Some(h.structure()),
            None => None,
        }
    }

    /// The candidates of one ray. Where the snapshot holds a structure,
    /// `query` walks it and names the candidates by index, in the order that
    /// the structure's heuristic gives them, and the result holds the named
    /// objects in that same order. Where it holds none, `query` is not asked
    /// and every object is a candidate, in the order of the scene. Either
    /// way the candidates are not ordered by true distance: the caller
    /// compares their distances to find the nearest hit.
    pub fn intersect<Q: FnOnce(&A) -> Vec<usize>>(&self, query: Q) -> (found: Vec<
        &SceneObject<G, M>,
    >)
        requires
            self@.hierarchy is Some ==> call_requires(query, (&self@.hierarchy->Some_0.structure,)),
        ensures
            self@.hierarchy is None ==> refers_to(found@, self@.objects),
            self@.hierarchy is Some ==> exists|indices: Vec<usize>| #[trigger]
                call_ensures(query, (&self@.hierarchy->Some_0.structure,), indices) && refers_to(
                    found@,
                    candidates(self@.objects, indices@),
                ),
    {
        let mut found: Vec<&SceneObject<G, M>> = Vec::new();
        match &self.hierarchy {
            None => {
                let mut k: usize = 0;
                while k < self.objects.len()
                    invariant
                        k <= self.objects@.len(),
                        found@.len() == k,
                        forall|j: int| 0 <= j < k ==> *(#[trigger] found@[j]) == self.objects@[j],
                    decreases self.objects@.len() - k,
                {
                    found.push(&self.objects[k]);
                    k = k + 1;
                }
            },
            Some(h) => {
                let indices = query(h.structure());
                let mut k: usize = 0;
                while k < indices.len()
                    invariant
                        k <= indices.len(),
                        refers_to(found@, candidates(self.objects@, indices@.take(k as int))),
                    decreases indices.len() - k,
                {
                    proof {
                        assert(indices@.take(k as int + 1).drop_last() == indices@.take(k as int));
                        assert(indices@.take(k as int + 1).last() == indices@[k as int]);
                    }
                    let index = indices[k];
                    if index < self.objects.len() {
                        found.push(&self.objects[index]);
                    }
                    k = k + 1;
                }
                proof {
                    assert(indices@.take(k as int) == indices@);
                    assert(call_ensures(query, (&self@.hierarchy->Some_0.structure,), indices));
                }
            },
        }
        found
    }

    /// Gives the objects back as a scene that can grow again. The structure is dropped.
    pub fn into_scene(self) -> (s: Scene<G, M>)
        ensures
            s@ == self@.objects,
    {
        Scene { objects: self.objects }
    }
}

} // verus!
