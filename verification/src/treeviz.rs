use vstd::prelude::*;
use crate::buffer::{FrameBuffer, has_frame};

verus! {

/// Finds a root of the forest for rendering: the first name that occurs as a
/// parent reference but is not itself a held frame. Every held frame's own
/// name is a key, so a true root — the reserved `"world"` among them — can
/// only stand among the dangling parent names, never among the keys. The
/// rendering of the tree below such a root is a concern of the callers of
/// this library.
pub fn get_tree_root(buffer: &FrameBuffer) -> (r: Option<String>)
    requires
        buffer.wf(),
    ensures
        match r {
            Some(n) => !has_frame(buffer@, n@) && exists|i: int|
                0 <= i < buffer@.len() && n@ == (#[trigger] buffer@[i]).parent_frame_id,
            None => forall|i: int|
                0 <= i < buffer@.len() ==> has_frame(
                    buffer@,
                    (#[trigger] buffer@[i]).parent_frame_id,
                ),
        },
{
    let ghost s = buffer@;
    let mut i: usize = 0;
    while i < buffer.frames.len()
        invariant
            buffer.wf(),
            s == buffer@,
            0 <= i <= s.len(),
            forall|j: int| 0 <= j < i ==> has_frame(s, (#[trigger] s[j]).parent_frame_id),
        decreases s.len() - i,
    {
        let f = &buffer.frames[i];
        if buffer.get_frame(f.parent_frame_id.as_str()).is_none() {
            proof {
                assert(s[i as int] == f@);
                assert(!has_frame(s, s[i as int].parent_frame_id));
            }
            return Some(f.parent_frame_id.clone());
        }
        i += 1;
    }
    None
}

} // verus!
