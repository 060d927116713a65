use vstd::prelude::*;
use crate::frame::{FrameView, TransformStamped};
use crate::frame::str_eq;

verus! {

/// The reserved root name: no frame may carry it as its own name.
pub open spec fn world_name() -> Seq<char> {
    "world"@
}

/// Whether `s` holds a frame named `name`.
pub open spec fn has_frame(s: Seq<FrameView>, name: Seq<char>) -> bool {
    exists|i: int| 0 <= i < s.len() && s[i].child_frame_id == name
}

/// The index of the frame named `name` (the only one, in a well-formed
/// buffer).
pub open spec fn idx_of(s: Seq<FrameView>, name: Seq<char>) -> int {
    choose|i: int| 0 <= i < s.len() && s[i].child_frame_id == name
}

/// The frame named `name`.
pub open spec fn frame_of(s: Seq<FrameView>, name: Seq<char>) -> FrameView {
    s[idx_of(s, name)]
}

/// Frame names are unique keys.
pub open spec fn wf_frames(s: Seq<FrameView>) -> bool {
    forall|i: int, j: int|
        0 <= i < j < s.len() ==> s[i].child_frame_id != s[j].child_frame_id
}

/// Insert-or-replace of one frame, keyed by its name: an existing record of
/// the same name is overwritten in place, a new name is appended.
pub open spec fn buf_insert(s: Seq<FrameView>, f: FrameView) -> Seq<FrameView> {
    if has_frame(s, f.child_frame_id) {
        s.update(idx_of(s, f.child_frame_id), f)
    } else {
        s.push(f)
    }
}

/// Insert-or-replace of a batch, in order, skipping every frame that carries
/// the reserved name.
pub open spec fn buf_add_all(s: Seq<FrameView>, fs: Seq<FrameView>) -> Seq<FrameView>
    decreases fs.len(),
{
    if fs.len() == 0 {
        s
    } else {
        let prev = buf_add_all(s, fs.drop_last());
        if fs.last().child_frame_id == world_name() {
            prev
        } else {
            buf_insert(prev, fs.last())
        }
    }
}

/// The names of the frames of a batch that the buffer refuses: those named
/// with the reserved root name, in batch order.
pub open spec fn rejected_names(fs: Seq<FrameView>) -> Seq<Seq<char>>
    decreases fs.len(),
{
    if fs.len() == 0 {
        Seq::empty()
    } else {
        let prev = rejected_names(fs.drop_last());
        if fs.last().child_frame_id == world_name() {
            prev.push(fs.last().child_frame_id)
        } else {
            prev
        }
    }
}

/// The frame buffer: a mapping from frame name to frame record, kept as a
/// vector of records keyed by their `child_frame_id`.
pub struct FrameBuffer {
    pub frames: Vec<TransformStamped>,
}

impl View for FrameBuffer {
    type V = Seq<FrameView>;

    open spec fn view(&self) -> Seq<FrameView> {
        self.frames@.map_values(|f: TransformStamped| f@)
    }
}

impl FrameBuffer {
    /// Well-formed: frame names are unique keys.
    pub open spec fn wf(&self) -> bool {
        wf_frames(self@)
    }

    /// An empty buffer.
    pub fn new() -> (r: Self)
        ensures
            r@ =~= Seq::<FrameView>::empty(),
            r.wf(),
    {
        FrameBuffer { frames: Vec::new() }
    }

    /// The number of frames held.
    pub fn len(&self) -> (r: usize)
        ensures
            r == self@.len(),
    {
        self.frames.len()
    }

    /// The frame named `name`, if one is held.
    pub fn get_frame<'a>(&'a self, name: &str) -> (r: Option<&'a TransformStamped>)
        requires
            self.wf(),
        ensures
            match r {
                Some(f) => has_frame(self@, name@) && f@ == frame_of(self@, name@),
                None => !has_frame(self@, name@),
            },
    {
        let mut i: usize = 0;
        while i < self.frames.len()
            invariant
                0 <= i <= self@.len(),
                self.wf(),
                forall|j: int| 0 <= j < i ==> self@[j].child_frame_id != name@,
            decreases self@.len() - i,
        {
            if str_eq(self.frames[i].child_frame_id.as_str(), name) {
                proof {
                    let k = idx_of(self@, name@);
                    assert(self@[i as int].child_frame_id == name@);
                    assert(0 <= k < self@.len() && self@[k].child_frame_id == name@);
                }
                return Some(&self.frames[i]);
            }
            i += 1;
        }
        None
    }

    /// Inserts one frame under its name, overwriting a record of the same
    /// name; a frame carrying the reserved root name is refused and the
    /// buffer left untouched.
    pub fn insert_or_update(&mut self, f: TransformStamped)
        requires
            old(self).wf(),
        ensures
            final(self).wf(),
            final(self)@ == (if f@.child_frame_id == world_name() {
                old(self)@
            } else {
                buf_insert(old(self)@, f@)
            }),
    {
        if str_eq(f.child_frame_id.as_str(), "world") {
            return;
        }
        let ghost s0 = self@;
        let ghost fv = f@;
        let mut i: usize = 0;
        while i < self.frames.len()
            invariant
                0 <= i <= self@.len(),
                self.wf(),
                self@ == s0,
                s0 == old(self)@,
                fv == f@,
                fv.child_frame_id != world_name(),
                forall|j: int| 0 <= j < i ==> self@[j].child_frame_id != fv.child_frame_id,
            decreases self@.len() - i,
        {
            if str_eq(self.frames[i].child_frame_id.as_str(), f.child_frame_id.as_str()) {
                proof {
                    let k = idx_of(s0, fv.child_frame_id);
                    assert(s0[i as int].child_frame_id == fv.child_frame_id);
                    assert(0 <= k < s0.len() && s0[k].child_frame_id == fv.child_frame_id);
                    assert(k == i);
                }
                self.frames.remove(i);
                self.frames.insert(i, f);
                proof {
                    assert(has_frame(s0, fv.child_frame_id));
                    assert(idx_of(s0, fv.child_frame_id) == i);
                    assert(self@ =~= s0.update(i as int, fv));
                    assert(self@ == buf_insert(s0, fv));
                }
                return;
            }
            i += 1;
        }
        self.frames.push(f);
        proof {
            assert(!has_frame(s0, fv.child_frame_id));
            assert(self@ =~= s0.push(fv));
        }
    }

    /// A point-in-time copy for a traversal to own.
    pub fn snapshot(&self) -> (r: Self)
        ensures
            r@ == self@,
    {
        let mut frames: Vec<TransformStamped> = Vec::new();
        let mut i: usize = 0;
        while i < self.frames.len()
            invariant
                0 <= i <= self.frames@.len(),
                frames@.len() == i,
                forall|j: int| 0 <= j < i ==> (#[trigger] frames@[j])@ == self.frames@[j]@,
            decreases self.frames@.len() - i,
        {
            frames.push(self.frames[i].duplicate());
            i += 1;
        }
        let r = FrameBuffer { frames };
        proof {
            assert(r@ =~= self@);
        }
        r
    }
}

/// Inserts a batch of frames, in order, overwriting records of the same name;
/// a frame named with the reserved root name is refused and reported, never
/// inserted, and never aborts the rest of the batch.
pub fn add_frames(buffer: &mut FrameBuffer, frames: &Vec<TransformStamped>) -> (rejected: Vec<
    String,
>)
    requires
        old(buffer).wf(),
    ensures
        final(buffer).wf(),
        final(buffer)@ == buf_add_all(old(buffer)@, frames@.map_values(|f: TransformStamped| f@)),
        rejected@.map_values(|n: String| n@) == rejected_names(
            frames@.map_values(|f: TransformStamped| f@),
        ),
{
    let ghost s0 = buffer@;
    let ghost fs = frames@.map_values(|f: TransformStamped| f@);
    let mut rejected: Vec<String> = Vec::new();
    let mut i: usize = 0;
    while i < frames.len()
        invariant
            0 <= i <= frames@.len(),
            fs == frames@.map_values(|f: TransformStamped| f@),
            buffer.wf(),
            buffer@ == buf_add_all(s0, fs.take(i as int)),
            rejected@.map_values(|n: String| n@) == rejected_names(fs.take(i as int)),
        decreases frames@.len() - i,
    {
        proof {
            assert(fs.take(i + 1).drop_last() =~= fs.take(i as int));
            assert(fs.take(i + 1).last() == fs[i as int]);
        }
        let f = &frames[i];
        if str_eq(f.child_frame_id.as_str(), "world") {
            rejected.push(f.child_frame_id.clone());
            proof {
                assert(rejected@.map_values(|n: String| n@) =~= rejected_names(fs.take(i as int)).push(
                    fs[i as int].child_frame_id,
                ));
            }
        } else {
            buffer.insert_or_update(f.duplicate());
        }
        i += 1;
    }
    proof {
        assert(fs.take(fs.len() as int) =~= fs);
    }
    rejected
}

/// One maintenance step: every frame is copied with its topology, transform
/// and metadata unchanged and its freshness stamp rewritten to `now`.
pub fn refresh_frames(buffer: &FrameBuffer, now: u64) -> (r: FrameBuffer)
    requires
        buffer.wf(),
    ensures
        r.wf(),
        r@.len() == buffer@.len(),
        forall|i: int|
            0 <= i < buffer@.len() ==> r@[i] == (FrameView {
                time_stamp: now,
                ..buffer@[i]
            }),
{
    let mut frames: Vec<TransformStamped> = Vec::new();
    let mut i: usize = 0;
    while i < buffer.frames.len()
        invariant
            0 <= i <= buffer@.len(),
            buffer.wf(),
            frames@.len() == i,
            forall|j: int|
                0 <= j < i ==> (#[trigger] frames@[j])@ == (FrameView {
                    time_stamp: now,
                    ..buffer@[j]
                }),
        decreases buffer@.len() - i,
    {
        let f = &buffer.frames[i];
        frames.push(
            TransformStamped {
                time_stamp: now,
                parent_frame_id: f.parent_frame_id.clone(),
                child_frame_id: f.child_frame_id.clone(),
                transform: f.transform.duplicate(),
                json_metadata: f.json_metadata.clone(),
            },
        );
        i += 1;
    }
    let r = FrameBuffer { frames };
    proof {
        assert(forall|i: int, j: int|
            0 <= i < j < r@.len() ==> r@[i].child_frame_id != r@[j].child_frame_id) by {
            assert(forall|k: int| 0 <= k < r@.len() ==> r@[k].child_frame_id == buffer@[k].child_frame_id);
        }
    }
    r
}

} // verus!
