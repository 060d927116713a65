use nalgebra::Isometry3;

use space_time_trees::FrameBuffer;
use space_time_trees::RigidTransform;
use space_time_trees::TransformStamped;
use space_time_trees::add_frames;
use space_time_trees::get_tree_root;
use space_time_trees::is_cyclic;
use space_time_trees::is_cyclic_all;
use space_time_trees::lookup_transform;
use space_time_trees::parent_to_root;
use space_time_trees::refresh_frames;

fn pose(iso: Isometry3<f64>) -> RigidTransform {
    RigidTransform::from_json(&serde_json::to_string(&iso).unwrap()).unwrap()
}

fn iso_of(t: &RigidTransform) -> Isometry3<f64> {
    serde_json::from_str(t.to_json()).unwrap()
}

fn create_transform(
    parent_frame_id: &str,
    child_frame_id: &str,
    transform: Isometry3<f64>,
) -> TransformStamped {
    TransformStamped {
        time_stamp: 0,
        parent_frame_id: parent_frame_id.to_string(),
        child_frame_id: child_frame_id.to_string(),
        transform: pose(transform),
        json_metadata: "".to_string(),
    }
}

#[test]
fn round_trip_recovers_relative_pose() {
    let mut buffer = FrameBuffer::new();
    buffer.insert_or_update(create_transform("root", "a", Isometry3::translation(1.0, 2.0, 3.0)));
    buffer.insert_or_update(create_transform("a", "b", Isometry3::translation(4.0, 5.0, 6.0)));

    let forward = lookup_transform("a", "b", "root", &buffer, 0).unwrap();
    let backward = lookup_transform("b", "a", "root", &buffer, 0).unwrap();

    // Re-deriving a from b through the inverse of the returned transform
    // recovers the original relative pose.
    let recovered = iso_of(&forward.transform).inverse();
    assert_eq!(recovered.translation, iso_of(&backward.transform).translation);
    assert_eq!(recovered.rotation, iso_of(&backward.transform).rotation);
}

#[test]
fn self_lookup_is_identity() {
    let mut buffer = FrameBuffer::new();
    buffer.insert_or_update(create_transform("root", "a", Isometry3::translation(1.0, 2.0, 3.0)));
    buffer.insert_or_update(create_transform("a", "b", Isometry3::translation(4.0, 5.0, 6.0)));

    let result = lookup_transform("b", "b", "root", &buffer, 0).unwrap();
    let iso = iso_of(&result.transform);
    assert_eq!(iso.translation, Isometry3::identity().translation);
    assert_eq!(iso.rotation, Isometry3::identity().rotation);
}

#[test]
fn root_self_lookup_is_identity() {
    let mut buffer = FrameBuffer::new();
    buffer.insert_or_update(create_transform("root", "a", Isometry3::translation(1.0, 2.0, 3.0)));

    // The root resolves against itself through itself with no walk at all,
    // even though "root" is not a held frame.
    let result = lookup_transform("root", "root", "root", &buffer, 0).unwrap();
    let iso = iso_of(&result.transform);
    assert_eq!(iso.translation, Isometry3::identity().translation);
    assert_eq!(iso.rotation, Isometry3::identity().rotation);

    let down = space_time_trees::root_to_child("root", "root", &buffer).unwrap();
    assert_eq!(iso_of(&down).translation, Isometry3::identity().translation);
}

#[test]
fn overflowing_composition_fails_gracefully() {
    let mut buffer = FrameBuffer::new();
    buffer.insert_or_update(create_transform("root", "a", Isometry3::translation(1.0e308, 0.0, 0.0)));
    buffer.insert_or_update(create_transform("a", "b", Isometry3::translation(1.0e308, 0.0, 0.0)));

    // The composite translation overflows the finite range; the query reports
    // failure instead of failing.
    assert!(lookup_transform("root", "b", "root", &buffer, 0).is_none());
    // The healthy prefix still resolves.
    assert!(lookup_transform("root", "a", "root", &buffer, 0).is_some());
}

#[test]
fn cycle_anywhere_fails_every_lookup() {
    let mut buffer = FrameBuffer::new();
    buffer.insert_or_update(create_transform("root", "a", Isometry3::translation(1.0, 0.0, 0.0)));
    buffer.insert_or_update(create_transform("a", "b", Isometry3::translation(0.0, 1.0, 0.0)));

    // A healthy snapshot answers.
    assert!(lookup_transform("a", "b", "root", &buffer, 0).is_some());

    // A cycle in a disconnected component poisons even queries that never
    // touch it.
    buffer.insert_or_update(create_transform("d", "c", Isometry3::default()));
    buffer.insert_or_update(create_transform("c", "d", Isometry3::default()));

    assert!(is_cyclic_all(&buffer));
    assert!(lookup_transform("a", "b", "root", &buffer, 0).is_none());
    assert!(lookup_transform("root", "b", "root", &buffer, 0).is_none());
}

#[test]
fn lookup_matches_manual_edge_composition() {
    let mut buffer = FrameBuffer::new();
    let t_x = Isometry3::translation(1.0, 0.0, 0.0);
    let t_y = Isometry3::translation(0.0, 2.0, 0.0);
    buffer.insert_or_update(create_transform("root", "x", t_x));
    buffer.insert_or_update(create_transform("x", "y", t_y));

    let result = lookup_transform("x", "y", "root", &buffer, 0).unwrap();

    // The unique tree path from x to y is the single edge x -> y, so the
    // answer equals the manual composition of the per-edge transforms:
    // inverse(t_x) * (t_x * t_y) == t_y.
    let manual = t_x.inverse() * (t_x * t_y);
    assert_eq!(iso_of(&result.transform).translation, manual.translation);
    assert_eq!(iso_of(&result.transform).translation, t_y.translation);
}

#[test]
fn chain_longer_than_budget_fails() {
    let mut frames = Vec::new();
    for i in 0..1001u64 {
        let parent = if i == 0 { "root".to_string() } else { format!("n{}", i - 1) };
        frames.push(create_transform(&parent, &format!("n{}", i), Isometry3::translation(1.0, 0.0, 0.0)));
    }
    let mut buffer = FrameBuffer::new();
    let rejected = add_frames(&mut buffer, &frames);
    assert!(rejected.is_empty());

    // A chain of exactly the budget still resolves...
    assert!(parent_to_root("n999", "root", &buffer).is_some());
    // ...one step past it fails instead of walking on.
    assert!(parent_to_root("n1000", "root", &buffer).is_none());
}

#[test]
fn two_frame_scenario_translations() {
    let mut buffer = FrameBuffer::new();
    buffer.insert_or_update(create_transform("root", "A", Isometry3::translation(1.0, 0.0, 0.0)));
    buffer.insert_or_update(create_transform("A", "B", Isometry3::translation(0.0, 1.0, 0.0)));

    let a_to_b = lookup_transform("A", "B", "root", &buffer, 0).unwrap();
    assert_eq!(
        iso_of(&a_to_b.transform).translation,
        Isometry3::translation(0.0, 1.0, 0.0).translation
    );

    let root_to_b = lookup_transform("root", "B", "root", &buffer, 0).unwrap();
    assert_eq!(
        iso_of(&root_to_b.transform).translation,
        Isometry3::translation(1.0, 1.0, 0.0).translation
    );
}

#[test]
fn reserved_world_name_is_rejected_not_fatal() {
    let mut buffer = FrameBuffer::new();
    let frames = vec![
        create_transform("a", "world", Isometry3::default()),
        create_transform("world", "a", Isometry3::translation(1.0, 0.0, 0.0)),
    ];
    let rejected = add_frames(&mut buffer, &frames);

    // The rejection is observable, the rest of the batch went through, and
    // no self-entry named "world" exists.
    assert_eq!(rejected, vec!["world".to_string()]);
    assert!(buffer.get_frame("world").is_none());
    assert!(buffer.get_frame("a").is_some());
}

#[test]
fn mutual_parents_are_cyclic() {
    let mut buffer = FrameBuffer::new();
    buffer.insert_or_update(create_transform("B", "A", Isometry3::default()));
    buffer.insert_or_update(create_transform("A", "B", Isometry3::default()));

    assert!(is_cyclic("A", &buffer));
    assert!(is_cyclic("B", &buffer));
}

#[test]
fn refresh_rewrites_only_freshness() {
    let mut buffer = FrameBuffer::new();
    buffer.insert_or_update(create_transform("root", "a", Isometry3::translation(1.0, 2.0, 3.0)));
    buffer.insert_or_update(create_transform("a", "b", Isometry3::default()));

    let refreshed = refresh_frames(&buffer, 42);

    assert_eq!(refreshed.len(), 2);
    let a = refreshed.get_frame("a").unwrap();
    assert_eq!(a.time_stamp, 42);
    assert_eq!(a.parent_frame_id, "root");
    assert_eq!(
        iso_of(&a.transform).translation,
        Isometry3::translation(1.0, 2.0, 3.0).translation
    );
    let b = refreshed.get_frame("b").unwrap();
    assert_eq!(b.time_stamp, 42);
    assert_eq!(b.parent_frame_id, "a");
}

#[test]
fn snapshot_is_a_faithful_copy() {
    let mut buffer = FrameBuffer::new();
    buffer.insert_or_update(create_transform("root", "a", Isometry3::translation(1.0, 0.0, 0.0)));

    let snap = buffer.snapshot();

    // Writing to the live buffer leaves the snapshot untouched.
    buffer.insert_or_update(create_transform("a", "b", Isometry3::default()));
    assert_eq!(snap.len(), 1);
    assert_eq!(buffer.len(), 2);
    assert_eq!(snap.get_frame("a").unwrap().parent_frame_id, "root");
}

#[test]
fn tree_root_is_found_by_dangling_parent() {
    let mut buffer = FrameBuffer::new();
    assert!(get_tree_root(&buffer).is_none());

    buffer.insert_or_update(create_transform("world", "dummy_1", Isometry3::default()));
    buffer.insert_or_update(create_transform("dummy_1", "dummy_2", Isometry3::default()));

    // The root is the dangling parent name itself, never a held frame's name.
    assert_eq!(get_tree_root(&buffer), Some("world".to_string()));
}

#[test]
fn malformed_pose_text_is_refused() {
    assert!(RigidTransform::from_json("not a pose").is_none());
    assert!(RigidTransform::from_json("{\"rotation\":[0,0,0,1]}").is_none());
}

#[test]
fn identity_encoding_parses_as_identity() {
    let id = RigidTransform::identity();
    let iso = iso_of(&id);
    assert_eq!(iso.translation, Isometry3::identity().translation);
    assert_eq!(iso.rotation, Isometry3::identity().rotation);
}

#[test]
fn from_json_normalizes_to_canonical_encoding() {
    // Integer components are accepted and re-encoded canonically, not echoed
    // back as the input text.
    let input = "{\"rotation\":[0,0,0,1],\"translation\":[7,0,0]}";
    let t = RigidTransform::from_json(input).unwrap();
    assert_ne!(t.to_json(), input);
    let iso = iso_of(&t);
    assert_eq!(iso.translation, Isometry3::translation(7.0, 0.0, 0.0).translation);

    let unresolved = lookup_transform("missing", "also_missing", "root", &FrameBuffer::new(), 0);
    assert!(unresolved.is_none());
}
