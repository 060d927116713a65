use nalgebra::Isometry3;

use space_time_trees::FrameBuffer;
use space_time_trees::RigidTransform;
use space_time_trees::TransformStamped;
use space_time_trees::is_cyclic;
use space_time_trees::is_cyclic_all;

fn pose(iso: Isometry3<f64>) -> RigidTransform {
    RigidTransform::from_json(&serde_json::to_string(&iso).unwrap()).unwrap()
}

fn frame(parent: &str, child: &str) -> TransformStamped {
    TransformStamped {
        time_stamp: 0,
        parent_frame_id: parent.to_string(),
        child_frame_id: child.to_string(),
        transform: pose(Isometry3::default()),
        json_metadata: String::default(),
    }
}

fn dummy_1_frame() -> TransformStamped {
    frame("world", "dummy_1")
}

fn dummy_2_frame() -> TransformStamped {
    frame("dummy_1", "dummy_2")
}

fn dummy_3_frame() -> TransformStamped {
    frame("dummy_2", "dummy_3")
}

#[test]
fn test_is_not_cyclic() {
    let mut buffer = FrameBuffer::new();
    buffer.insert_or_update(dummy_1_frame());

    let res = is_cyclic("dummy_1", &buffer);
    assert_eq!(res, false);

    buffer.insert_or_update(dummy_2_frame());

    let res = is_cyclic("world", &buffer);
    assert_eq!(res, false);
    let res = is_cyclic("dummy_1", &buffer);
    assert_eq!(res, false);
    let res = is_cyclic("dummy_2", &buffer);
    assert_eq!(res, false);
}

#[test]
fn test_is_cyclic() {
    let mut buffer = FrameBuffer::new();
    buffer.insert_or_update(dummy_1_frame());
    buffer.insert_or_update(dummy_2_frame());
    buffer.insert_or_update(frame("dummy_2", "dummy_1"));

    let res = is_cyclic("world", &buffer);
    assert_eq!(res, false);
    let res = is_cyclic("dummy_1", &buffer);
    assert_eq!(res, true);
    let res = is_cyclic("dummy_2", &buffer);
    assert_eq!(res, true);
}

#[test]
fn test_is_cyclic_triangle() {
    let mut buffer = FrameBuffer::new();
    buffer.insert_or_update(dummy_1_frame());
    buffer.insert_or_update(dummy_2_frame());
    buffer.insert_or_update(dummy_3_frame());

    let res = is_cyclic("world", &buffer);
    assert_eq!(res, false);
    let res = is_cyclic("dummy_1", &buffer);
    assert_eq!(res, false);
    let res = is_cyclic("dummy_2", &buffer);
    assert_eq!(res, false);
    let res = is_cyclic("dummy_3", &buffer);
    assert_eq!(res, false);

    buffer.insert_or_update(frame("dummy_3", "dummy_1"));

    let res = is_cyclic("world", &buffer);
    assert_eq!(res, false);
    let res = is_cyclic("dummy_1", &buffer);
    assert_eq!(res, true);
    let res = is_cyclic("dummy_2", &buffer);
    assert_eq!(res, true);
    let res = is_cyclic("dummy_3", &buffer);
    assert_eq!(res, true);
}

#[test]
fn test_is_cyclic_all() {
    let mut buffer = FrameBuffer::new();
    buffer.insert_or_update(dummy_1_frame());
    buffer.insert_or_update(dummy_2_frame());
    buffer.insert_or_update(dummy_3_frame());

    let res = is_cyclic_all(&buffer);
    assert_eq!(res, false);

    buffer.insert_or_update(frame("dummy_4", "dummy_5"));
    buffer.insert_or_update(frame("dummy_5", "dummy_6"));

    let res = is_cyclic_all(&buffer);
    assert_eq!(res, false);

    buffer.insert_or_update(frame("dummy_6", "dummy_4"));

    let res = is_cyclic_all(&buffer);
    assert_eq!(res, true);

    buffer.insert_or_update(frame("world", "dummy_4"));

    let res = is_cyclic_all(&buffer);
    assert_eq!(res, false);
}
