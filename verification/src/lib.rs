use vstd::prelude::*;

pub mod pose;
pub mod frame;
pub mod buffer;
pub mod cycles;
pub mod lookup;
pub mod treeviz;
pub mod laws;

pub use crate::pose::RigidTransform;
pub use crate::pose::isometry_chain_product;
pub use crate::frame::TransformStamped;
pub use crate::buffer::FrameBuffer;
pub use crate::buffer::add_frames;
pub use crate::buffer::refresh_frames;
pub use crate::cycles::is_cyclic;
pub use crate::cycles::is_cyclic_all;
pub use crate::lookup::get_frame_children;
pub use crate::lookup::lookup_transform;
pub use crate::lookup::parent_to_root;
pub use crate::lookup::root_to_child;
pub use crate::treeviz::get_tree_root;

verus! {

/// The step budget of every upward or downward path resolution: a chain of
/// frames longer than this fails rather than walk on.
pub const MAX_TRANSFORM_CHAIN: u64 = 1000;

/// The depth budget of the tree rendering done around this library.
pub const MAX_RECURSION_DEPTH: u64 = 1000;

/// The run configuration handed in by whoever starts the process.
pub struct Args {
    pub visualize: bool,
}

} // verus!
