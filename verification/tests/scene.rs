use archer::hierarchy::{Bounds, Corner, Described, Node};
use archer::materials::{Material, PerfectMirror};
use archer::scene::{Scene, SceneObject, Snapshot};

fn object(geometry: u32) -> SceneObject<u32, PerfectMirror> {
    SceneObject { geometry, material: PerfectMirror }
}

fn scene(n: u32) -> Scene<u32, PerfectMirror> {
    let mut s = Scene::new();
    for g in 0..n {
        s.add(object(100 + g));
    }
    s
}

fn cube(low: u64, high: u64) -> Bounds {
    Bounds {
        min: Corner { x: low, y: low, z: low },
        max: Corner { x: high, y: high, z: high },
    }
}

/// A structure without nodes over one box for every object: it is nested.
fn flat<A>(structure: A, objects: usize) -> Described<A> {
    Described { structure, nodes: Vec::new(), shapes: vec![cube(0, 1); objects] }
}

fn built<A>(n: u32, structure: A) -> Snapshot<u32, PerfectMirror, A> {
    scene(n).build_bvh(|objects| flat(structure, objects.len()))
}

#[test]
fn a_new_scene_is_empty() {
    let s: Scene<u32, PerfectMirror> = Scene::new();
    assert_eq!(s.len(), 0);
    assert!(s.object(0).is_none());
    assert!(s.objects().is_empty());
}

#[test]
fn add_appends() {
    let s = scene(3);
    assert_eq!(s.len(), 3);
    assert_eq!(s.object(0).unwrap().geometry, 100);
    assert_eq!(s.object(2).unwrap().geometry, 102);
    assert!(s.object(3).is_none());
    assert!(!s.object(1).unwrap().material.is_terminal());
}

#[test]
fn build_hands_the_objects_to_the_constructor_and_keeps_them() {
    let snapshot = scene(3).build_bvh(|objects| {
        flat(objects.iter().map(|o| o.geometry).collect::<Vec<u32>>(), objects.len())
    });
    assert_eq!(snapshot.structure(), Some(&vec![100, 101, 102]));
    assert_eq!(snapshot.len(), 3);
    assert_eq!(snapshot.object(1).unwrap().geometry, 101);
    assert!(snapshot.object(3).is_none());
    assert_eq!(snapshot.objects().len(), 3);
}

#[test]
fn build_keeps_a_nested_structure_with_its_description() {
    let nodes = vec![
        Node::Inner { parent: 0, left: 1, left_bounds: cube(0, 2), right: 2, right_bounds: cube(5, 7) },
        Node::Leaf { parent: 0, shape: 0 },
        Node::Leaf { parent: 0, shape: 1 },
    ];
    let shapes = vec![cube(0, 2), cube(5, 7)];
    let snapshot = scene(2).build_bvh(|_| Described {
        structure: "tree",
        nodes: nodes.clone(),
        shapes: shapes.clone(),
    });
    let hierarchy = snapshot.hierarchy().unwrap();
    assert_eq!(hierarchy.structure(), &"tree");
    assert_eq!(hierarchy.nodes(), &nodes);
    assert_eq!(hierarchy.shapes(), &shapes);
}

#[test]
fn build_drops_a_structure_that_is_not_nested() {
    let nodes = vec![
        Node::Inner { parent: 0, left: 1, left_bounds: cube(0, 2), right: 2, right_bounds: cube(5, 7) },
        Node::Leaf { parent: 0, shape: 0 },
        Node::Leaf { parent: 0, shape: 1 },
    ];
    let shapes = vec![cube(0, 3), cube(5, 7)];
    let snapshot = scene(2).build_bvh(|_| Described { structure: "tree", nodes, shapes });
    assert!(snapshot.hierarchy().is_none());
    assert!(snapshot.structure().is_none());
    assert_eq!(snapshot.len(), 2);
}

#[test]
fn build_drops_a_structure_without_a_box_for_every_object() {
    let snapshot = scene(3).build_bvh(|_| flat("short", 2));
    assert!(snapshot.hierarchy().is_none());
    let snapshot = scene(3).build_bvh(|_| flat("long", 4));
    assert!(snapshot.hierarchy().is_none());
    let snapshot = scene(3).build_bvh(|_| flat("right", 3));
    assert!(snapshot.hierarchy().is_some());
}

#[test]
fn without_a_structure_every_object_is_a_candidate() {
    let snapshot = scene(3).build_bvh(|_| flat((), 0));
    assert!(snapshot.hierarchy().is_none());
    let found = snapshot.intersect(|_: &()| -> Vec<usize> { panic!("queried") });
    let geometries: Vec<u32> = found.iter().map(|o| o.geometry).collect();
    assert_eq!(geometries, vec![100, 101, 102]);
}

#[test]
fn an_empty_scene_can_be_built_and_has_no_candidates() {
    let snapshot = built(0, 0usize);
    assert_eq!(snapshot.structure(), Some(&0));
    assert!(snapshot.intersect(|_| vec![]).is_empty());
    assert!(snapshot.intersect(|_| vec![0, 1, 2]).is_empty());
}

#[test]
fn candidates_come_in_the_order_of_the_query() {
    let snapshot = built(4, ());
    let found = snapshot.intersect(|_| vec![2, 0, 3]);
    let geometries: Vec<u32> = found.iter().map(|o| o.geometry).collect();
    assert_eq!(geometries, vec![102, 100, 103]);
}

#[test]
fn a_candidate_may_be_named_twice() {
    let snapshot = built(2, ());
    let found = snapshot.intersect(|_| vec![1, 1, 0]);
    let geometries: Vec<u32> = found.iter().map(|o| o.geometry).collect();
    assert_eq!(geometries, vec![101, 101, 100]);
}

#[test]
fn an_index_that_names_no_object_is_passed_over() {
    let snapshot = built(2, ());
    let found = snapshot.intersect(|_| vec![5, 1, usize::MAX, 0, 2]);
    let geometries: Vec<u32> = found.iter().map(|o| o.geometry).collect();
    assert_eq!(geometries, vec![101, 100]);
}

#[test]
fn the_query_walks_the_structure_that_was_built() {
    let snapshot = scene(3).build_bvh(|objects| {
        flat((0..objects.len()).rev().collect::<Vec<usize>>(), objects.len())
    });
    let found = snapshot.intersect(|structure: &Vec<usize>| structure.clone());
    let geometries: Vec<u32> = found.iter().map(|o| o.geometry).collect();
    assert_eq!(geometries, vec![102, 101, 100]);
}

#[test]
fn a_snapshot_turns_back_into_a_scene_that_grows() {
    let snapshot = scene(2).build_bvh(|objects| flat(objects.len(), objects.len()));
    let mut s = snapshot.into_scene();
    assert_eq!(s.len(), 2);
    s.add(object(7));
    assert_eq!(s.len(), 3);
    let rebuilt = s.build_bvh(|objects| flat(objects.len(), objects.len()));
    assert_eq!(rebuilt.structure(), Some(&3));
    assert_eq!(rebuilt.object(2).unwrap().geometry, 7);
}
