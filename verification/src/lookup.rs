use vstd::prelude::*;
use crate::buffer::{FrameBuffer, has_frame, frame_of};
use crate::frame::{FrameView, TransformStamped};
use crate::frame::str_eq;
use crate::pose::{RigidTransform, identity_enc, inverse_of, compose_seq, isometry_chain_product};
use crate::MAX_TRANSFORM_CHAIN;

verus! {

/// The poses of the frames visited by the upward walk from `cur`, in visit
/// order, ending with the first frame whose parent is `root`; `None` when a
/// frame along the way is absent or the walk exceeds its fuel.
pub open spec fn up_chain(
    s: Seq<FrameView>,
    cur: Seq<char>,
    root: Seq<char>,
    fuel: nat,
) -> Option<Seq<Seq<char>>>
    decreases fuel,
{
    if fuel == 0 {
        None
    } else if !has_frame(s, cur) {
        None
    } else {
        let f = frame_of(s, cur);
        if f.parent_frame_id == root {
            Some(seq![f.transform])
        } else {
            match up_chain(s, f.parent_frame_id, root, (fuel - 1) as nat) {
                Some(rest) => Some(seq![f.transform] + rest),
                None => None,
            }
        }
    }
}

/// The inversions of a walk's poses, in walk order; nothing as soon as one
/// inversion returns nothing.
pub open spec fn inverse_seq(c: Seq<Seq<char>>) -> Option<Seq<Seq<char>>>
    decreases c.len(),
{
    if c.len() == 0 {
        Some(Seq::empty())
    } else {
        match inverse_seq(c.drop_last()) {
            Some(rest) => match inverse_of(c.last()) {
                Some(inv) => Some(rest.push(inv)),
                None => None,
            },
            None => None,
        }
    }
}

/// Once a prefix of the inversions has failed, the whole sequence fails.
pub proof fn lemma_inverse_seq_none_prefix(c: Seq<Seq<char>>, j: int)
    requires
        0 <= j <= c.len(),
        inverse_seq(c.take(j)) is None,
    ensures
        inverse_seq(c) is None,
    decreases c.len() - j,
{
    if j == c.len() {
        assert(c.take(j) =~= c);
    } else {
        assert(c.take(j + 1).drop_last() =~= c.take(j));
        lemma_inverse_seq_none_prefix(c, j + 1);
    }
}

/// What `parent_to_root` returns: the identity for the root itself, else the
/// composite of the inverted poses along the upward walk, in walk order;
/// nothing when the walk, an inversion, or a composition fails.
pub open spec fn up_value(s: Seq<FrameView>, parent: Seq<char>, root: Seq<char>) -> Option<
    Seq<char>,
> {
    if parent == root {
        Some(identity_enc())
    } else {
        match up_chain(s, parent, root, MAX_TRANSFORM_CHAIN as nat) {
            Some(c) => match inverse_seq(c) {
                Some(invs) => compose_seq(invs),
                None => None,
            },
            None => None,
        }
    }
}

/// What `root_to_child` returns: the identity, with no walk at all, when the
/// child is the root itself; else the composite of the forward poses along
/// the unique path from the root down to the child — every frame holds
/// exactly one parent reference, so that path is the child's upward walk read
/// backwards. Nothing when the walk or a composition fails.
pub open spec fn down_value(s: Seq<FrameView>, child: Seq<char>, root: Seq<char>) -> Option<
    Seq<char>,
> {
    if child == root {
        Some(identity_enc())
    } else {
        match up_chain(s, child, root, MAX_TRANSFORM_CHAIN as nat) {
            Some(c) => compose_seq(c.reverse()),
            None => None,
        }
    }
}

/// The upward walk shared by both path resolutions: collects the pose of
/// every frame visited from `start` until one whose parent is `root`,
/// spending one unit of the step budget per frame.
fn walk_up_poses(start: &str, root: &str, buffer: &FrameBuffer) -> (r: Option<
    Vec<RigidTransform>,
>)
    requires
        buffer.wf(),
    ensures
        match r {
            Some(v) => up_chain(buffer@, start@, root@, MAX_TRANSFORM_CHAIN as nat) matches Some(c)
                && v@.map_values(|t: RigidTransform| t@) == c,
            None => up_chain(buffer@, start@, root@, MAX_TRANSFORM_CHAIN as nat) is None,
        },
{
    let ghost s = buffer@;
    let ghost target = up_chain(s, start@, root@, MAX_TRANSFORM_CHAIN as nat);
    let mut current: String = start.to_owned();
    let mut path: Vec<RigidTransform> = Vec::new();
    let ghost mut pref: Seq<Seq<char>> = Seq::empty();
    let mut length: u64 = 0;
    loop
        invariant
            buffer.wf(),
            s == buffer@,
            target == up_chain(s, start@, root@, MAX_TRANSFORM_CHAIN as nat),
            0 <= length <= MAX_TRANSFORM_CHAIN,
            path@.len() == length,
            pref.len() == length,
            path@.map_values(|t: RigidTransform| t@) == pref,
            up_chain(s, current@, root@, (MAX_TRANSFORM_CHAIN - length) as nat) matches Some(rc)
                ==> target == Some(pref + rc),
            up_chain(s, current@, root@, (MAX_TRANSFORM_CHAIN - length) as nat) is None
                ==> target is None,
        decreases MAX_TRANSFORM_CHAIN - length,
    {
        if length >= MAX_TRANSFORM_CHAIN {
            proof {
                assert(up_chain(s, current@, root@, 0) is None);
            }
            return None;
        }
        let ghost fuel = (MAX_TRANSFORM_CHAIN - length) as nat;
        match buffer.get_frame(current.as_str()) {
            Some(fr) => {
                let ghost pref0 = pref;
                let ghost pose = frame_of(s, current@).transform;
                path.push(fr.transform.duplicate());
                proof {
                    pref = pref.push(pose);
                    assert(path@.map_values(|t: RigidTransform| t@) =~= pref);
                }
                if str_eq(fr.parent_frame_id.as_str(), root) {
                    proof {
                        assert(frame_of(s, current@).parent_frame_id == root@);
                        assert(up_chain(s, current@, root@, fuel) == Some(seq![pose]));
                        assert(pref0 + seq![pose] =~= pref);
                        assert(target == Some(pref));
                    }
                    return Some(path);
                }
                let next = fr.parent_frame_id.clone();
                proof {
                    assert(frame_of(s, current@).parent_frame_id == next@);
                    match up_chain(s, next@, root@, (fuel - 1) as nat) {
                        Some(rc) => {
                            assert(up_chain(s, current@, root@, fuel) == Some(seq![pose] + rc));
                            assert(pref0 + (seq![pose] + rc) =~= pref + rc);
                        },
                        None => {
                            assert(up_chain(s, current@, root@, fuel) is None);
                        },
                    }
                }
                current = next;
                length += 1;
            },
            None => {
                proof {
                    assert(up_chain(s, current@, root@, fuel) is None);
                }
                return None;
            },
        }
    }
}

/// The upward resolution: the rigid transform mapping coordinates of
/// `parent_frame_id`'s frame into `root_frame_id`'s, obtained by composing
/// the inverse of every pose met on the walk up; the identity, with no walk
/// at all, when the two names coincide.
pub fn parent_to_root(parent_frame_id: &str, root_frame_id: &str, buffer: &FrameBuffer) -> (r:
    Option<RigidTransform>)
    requires
        buffer.wf(),
    ensures
        r.deep_view() == up_value(buffer@, parent_frame_id@, root_frame_id@),
{
    if str_eq(parent_frame_id, root_frame_id) {
        return Some(RigidTransform::identity());
    }
    match walk_up_poses(parent_frame_id, root_frame_id, buffer) {
        Some(poses) => {
            let ghost c = poses@.map_values(|t: RigidTransform| t@);
            let mut inverted: Vec<RigidTransform> = Vec::new();
            let mut i: usize = 0;
            while i < poses.len()
                invariant
                    0 <= i <= poses@.len(),
                    c == poses@.map_values(|t: RigidTransform| t@),
                    parent_frame_id@ != root_frame_id@,
                    up_chain(buffer@, parent_frame_id@, root_frame_id@, MAX_TRANSFORM_CHAIN as nat)
                        == Some(c),
                    inverse_seq(c.take(i as int)) == Some(
                        inverted@.map_values(|t: RigidTransform| t@),
                    ),
                decreases poses@.len() - i,
            {
                proof {
                    assert(c.take(i + 1).drop_last() =~= c.take(i as int));
                    assert(c.take(i + 1).last() == c[i as int]);
                }
                match crate::pose::inverse_pose(&poses[i]) {
                    Some(inv) => {
                        let ghost invs0 = inverted@.map_values(|t: RigidTransform| t@);
                        inverted.push(inv);
                        proof {
                            assert(inverted@.map_values(|t: RigidTransform| t@) =~= invs0.push(
                                inv@,
                            ));
                        }
                        i += 1;
                    },
                    None => {
                        proof {
                            assert(inverse_seq(c.take(i + 1)) is None);
                            lemma_inverse_seq_none_prefix(c, i + 1);
                        }
                        return None;
                    },
                }
            }
            proof {
                assert(c.take(c.len() as int) =~= c);
            }
            isometry_chain_product(inverted)
        },
        None => None,
    }
}

/// The downward resolution: the rigid transform mapping coordinates of
/// `root_frame_id`'s frame into `child_frame_id`'s, obtained by composing the
/// forward poses along the unique path from the root down to the child; the
/// identity, with no walk at all, when the two names coincide.
pub fn root_to_child(child_frame_id: &str, root_frame_id: &str, buffer: &FrameBuffer) -> (r:
    Option<RigidTransform>)
    requires
        buffer.wf(),
    ensures
        r.deep_view() == down_value(buffer@, child_frame_id@, root_frame_id@),
{
    if str_eq(child_frame_id, root_frame_id) {
        return Some(RigidTransform::identity());
    }
    match walk_up_poses(child_frame_id, root_frame_id, buffer) {
        Some(mut poses) => {
            let ghost c = poses@.map_values(|t: RigidTransform| t@);
            let mut forward: Vec<RigidTransform> = Vec::new();
            while poses.len() > 0
                invariant
                    forward@.len() + poses@.len() == c.len(),
                    forall|j: int|
                        0 <= j < poses@.len() ==> (#[trigger] poses@[j])@ == c[j],
                    forall|j: int|
                        0 <= j < forward@.len() ==> (#[trigger] forward@[j])@ == c[c.len() - 1 - j],
                decreases poses@.len(),
            {
                let p = poses.pop().unwrap();
                forward.push(p);
            }
            proof {
                assert(forward@.map_values(|t: RigidTransform| t@) =~= c.reverse());
            }
            isometry_chain_product(forward)
        },
        None => None,
    }
}

/// The children of `frame`: every held record whose parent reference names
/// it, in buffer order.
pub open spec fn children_of(s: Seq<FrameView>, name: Seq<char>) -> Seq<FrameView>
    decreases s.len(),
{
    if s.len() == 0 {
        Seq::empty()
    } else {
        let prev = children_of(s.drop_last(), name);
        if s.last().parent_frame_id == name {
            prev.push(s.last())
        } else {
            prev
        }
    }
}

/// What `lookup_transform` returns: nothing when any cycle exists anywhere in
/// the snapshot, either resolution fails, or the final composition fails,
/// else the upward and the downward composite folded into one transform, in
/// that order.
pub open spec fn lookup_value(
    s: Seq<FrameView>,
    parent: Seq<char>,
    child: Seq<char>,
    root: Seq<char>,
) -> Option<Seq<char>> {
    if crate::cycles::has_cycle(s) {
        None
    } else {
        match (up_value(s, parent, root), down_value(s, child, root)) {
            (Some(u), Some(d)) => compose_seq(seq![u, d]),
            _ => None,
        }
    }
}

/// Answers "what is the transform from `parent_frame_id` to `child_frame_id`,
/// expressed through `root_frame_id`, right now": refuses any snapshot with a
/// cycle anywhere, resolves the two paths, and folds them into a synthesized
/// frame stamped `now` with empty metadata.
pub fn lookup_transform(
    parent_frame_id: &str,
    child_frame_id: &str,
    root_frame_id: &str,
    buffer: &FrameBuffer,
    now: u64,
) -> (r: Option<TransformStamped>)
    requires
        buffer.wf(),
    ensures
        match r {
            Some(ts) => lookup_value(buffer@, parent_frame_id@, child_frame_id@, root_frame_id@)
                matches Some(v) && ts@.transform == v && ts@.parent_frame_id == parent_frame_id@
                && ts@.child_frame_id == child_frame_id@ && ts@.time_stamp == now
                && ts@.json_metadata == Seq::<char>::empty(),
            None => lookup_value(buffer@, parent_frame_id@, child_frame_id@, root_frame_id@)
                is None,
        },
{
    if crate::cycles::is_cyclic_all(buffer) {
        return None;
    }
    match parent_to_root(parent_frame_id, root_frame_id, buffer) {
        Some(up) => match root_to_child(child_frame_id, root_frame_id, buffer) {
            Some(down) => {
                let ghost u = up@;
                let ghost d = down@;
                let mut chain: Vec<RigidTransform> = Vec::new();
                chain.push(up);
                chain.push(down);
                proof {
                    assert(chain@.map_values(|t: RigidTransform| t@) =~= seq![u, d]);
                }
                match isometry_chain_product(chain) {
                    Some(composed) => Some(
                        TransformStamped {
                            time_stamp: now,
                            parent_frame_id: parent_frame_id.to_owned(),
                            child_frame_id: child_frame_id.to_owned(),
                            transform: composed,
                            json_metadata: String::new(),
                        },
                    ),
                    None => None,
                }
            },
            None => None,
        },
        None => None,
    }
}

/// Collects the children of `frame`: every held record whose parent reference
/// names it, paired with its own name, in buffer order. The frame asked about
/// need not itself be held.
pub fn get_frame_children(frame: &str, buffer: &FrameBuffer) -> (r: Vec<
    (String, TransformStamped),
>)
    ensures
        r@.map_values(|p: (String, TransformStamped)| p.1@) == children_of(buffer@, frame@),
        forall|j: int| 0 <= j < r@.len() ==> (#[trigger] r@[j]).0@ == r@[j].1@.child_frame_id,
{
    let ghost s = buffer@;
    let mut r: Vec<(String, TransformStamped)> = Vec::new();
    let mut i: usize = 0;
    while i < buffer.frames.len()
        invariant
            s == buffer@,
            0 <= i <= s.len(),
            r@.map_values(|p: (String, TransformStamped)| p.1@) == children_of(
                s.take(i as int),
                frame@,
            ),
            forall|j: int| 0 <= j < r@.len() ==> (#[trigger] r@[j]).0@ == r@[j].1@.child_frame_id,
        decreases s.len() - i,
    {
        proof {
            assert(s.take(i + 1).drop_last() =~= s.take(i as int));
            assert(s.take(i + 1).last() == s[i as int]);
        }
        let f = &buffer.frames[i];
        if str_eq(f.parent_frame_id.as_str(), frame) {
            r.push((f.child_frame_id.clone(), f.duplicate()));
            proof {
                assert(r@.map_values(|p: (String, TransformStamped)| p.1@) =~= children_of(
                    s.take(i as int),
                    frame@,
                ).push(s[i as int]));
            }
        }
        i += 1;
    }
    proof {
        assert(s.take(s.len() as int) =~= s);
    }
    r
}

} // verus!
