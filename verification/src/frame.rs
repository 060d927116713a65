use vstd::prelude::*;
use crate::pose::RigidTransform;

verus! {

/// The mathematical content of a frame record, every field a plain value.
pub struct FrameView {
    pub time_stamp: u64,
    pub parent_frame_id: Seq<char>,
    pub child_frame_id: Seq<char>,
    pub transform: Seq<char>,
    pub json_metadata: Seq<char>,
}

/// A named frame: where it sits relative to its parent frame (as a rigid
/// transform mapping points of the parent frame into this one), a freshness
/// timestamp, and an opaque metadata payload.
pub struct TransformStamped {
    pub time_stamp: u64,
    pub parent_frame_id: String,
    pub child_frame_id: String,
    pub transform: RigidTransform,
    pub json_metadata: String,
}

impl View for TransformStamped {
    type V = FrameView;

    open spec fn view(&self) -> FrameView {
        FrameView {
            time_stamp: self.time_stamp,
            parent_frame_id: self.parent_frame_id@,
            child_frame_id: self.child_frame_id@,
            transform: self.transform@,
            json_metadata: self.json_metadata@,
        }
    }
}

impl TransformStamped {
    /// A record equal to this one.
    pub fn duplicate(&self) -> (r: Self)
        ensures
            r@ == self@,
    {
        TransformStamped {
            time_stamp: self.time_stamp,
            parent_frame_id: self.parent_frame_id.clone(),
            child_frame_id: self.child_frame_id.clone(),
            transform: self.transform.duplicate(),
            json_metadata: self.json_metadata.clone(),
        }
    }
}

/// Relies on str's equality: two string slices are equal exactly when their
/// character sequences are.
#[verifier::external_body]
pub(crate) fn str_eq(a: &str, b: &str) -> (r: bool)
    ensures
        r == (a@ == b@),
{
    a == b
}

} // verus!
