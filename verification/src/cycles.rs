use vstd::prelude::*;
use crate::buffer::{FrameBuffer, has_frame, frame_of, idx_of};
use crate::frame::FrameView;
use crate::frame::str_eq;

verus! {

/// Whether following parent references upward from `from` for exactly `k`
/// steps stays inside the buffer and ends at `to`.
pub open spec fn reaches_up(s: Seq<FrameView>, from: Seq<char>, to: Seq<char>, k: nat) -> bool
    decreases k,
{
    if k == 0 {
        from == to
    } else {
        has_frame(s, from) && reaches_up(
            s,
            frame_of(s, from).parent_frame_id,
            to,
            (k - 1) as nat,
        )
    }
}

/// Whether `name` lies on a cycle: an upward walk of at most one full pass
/// over the buffer returns to it. Every frame holds exactly one parent
/// reference, so any cycle among the frames reachable downward from `name`
/// passes through `name` itself, and a cycle through `name` visits no frame
/// twice before closing, hence is no longer than the buffer.
pub open spec fn on_cycle(s: Seq<FrameView>, name: Seq<char>) -> bool {
    exists|k: nat| 1 <= k <= s.len() && reaches_up(s, name, name, k)
}

/// Whether any frame of the buffer lies on a cycle.
pub open spec fn has_cycle(s: Seq<FrameView>) -> bool {
    exists|i: int| 0 <= i < s.len() && on_cycle(s, s[i].child_frame_id)
}

/// An upward walk that has ended at a held frame can be extended by one step,
/// to that frame's parent.
pub proof fn lemma_reaches_up_extend(s: Seq<FrameView>, a: Seq<char>, b: Seq<char>, k: nat)
    requires
        reaches_up(s, a, b, k),
        has_frame(s, b),
    ensures
        reaches_up(s, a, frame_of(s, b).parent_frame_id, k + 1),
    decreases k,
{
    if k == 0 {
        assert(a == b);
        assert(reaches_up(s, frame_of(s, b).parent_frame_id, frame_of(s, b).parent_frame_id, 0));
        assert(reaches_up(s, a, frame_of(s, b).parent_frame_id, 1));
    } else {
        lemma_reaches_up_extend(s, frame_of(s, a).parent_frame_id, b, (k - 1) as nat);
        assert(reaches_up(s, a, frame_of(s, b).parent_frame_id, k + 1));
    }
}

/// The upward walk is deterministic: a longer walk from the same start passes
/// through the end of a shorter one and continues from there.
pub proof fn lemma_reaches_up_split(
    s: Seq<FrameView>,
    a: Seq<char>,
    b: Seq<char>,
    c: Seq<char>,
    k: nat,
    m: nat,
)
    requires
        reaches_up(s, a, b, k),
        reaches_up(s, a, c, m),
        k <= m,
    ensures
        reaches_up(s, b, c, (m - k) as nat),
    decreases k,
{
    if k == 0 {
    } else {
        lemma_reaches_up_split(
            s,
            frame_of(s, a).parent_frame_id,
            b,
            c,
            (k - 1) as nat,
            (m - 1) as nat,
        );
    }
}

/// The frame name reached after `i` upward steps from `name`.
pub open spec fn up_at(s: Seq<FrameView>, name: Seq<char>, i: nat) -> Seq<char>
    decreases i,
{
    if i == 0 {
        name
    } else {
        frame_of(s, up_at(s, name, (i - 1) as nat)).parent_frame_id
    }
}

proof fn lemma_up_at_shift(s: Seq<FrameView>, name: Seq<char>, i: nat)
    ensures
        up_at(s, name, i + 1) == up_at(s, frame_of(s, name).parent_frame_id, i),
    decreases i,
{
    let p = frame_of(s, name).parent_frame_id;
    if i == 0 {
        assert(up_at(s, name, 1) == frame_of(s, up_at(s, name, 0)).parent_frame_id);
    } else {
        lemma_up_at_shift(s, name, (i - 1) as nat);
        assert(up_at(s, name, i + 1) == frame_of(s, up_at(s, name, i)).parent_frame_id);
        assert(up_at(s, p, i) == frame_of(s, up_at(s, p, (i - 1) as nat)).parent_frame_id);
    }
}

/// An upward walk passes exactly through the iterated parents, every one of
/// them a held frame.
proof fn lemma_reaches_up_at(s: Seq<FrameView>, a: Seq<char>, b: Seq<char>, k: nat)
    requires
        reaches_up(s, a, b, k),
    ensures
        up_at(s, a, k) == b,
        forall|i: nat| i < k ==> has_frame(s, #[trigger] up_at(s, a, i)),
    decreases k,
{
    if k == 0 {
    } else {
        let p = frame_of(s, a).parent_frame_id;
        lemma_reaches_up_at(s, p, b, (k - 1) as nat);
        lemma_up_at_shift(s, a, (k - 1) as nat);
        assert forall|i: nat| i < k implies has_frame(s, #[trigger] up_at(s, a, i)) by {
            if i > 0 {
                lemma_up_at_shift(s, a, (i - 1) as nat);
            }
        }
    }
}

/// Conversely, a walk along iterated parents that are all held frames is an
/// upward walk.
proof fn lemma_up_at_reaches(s: Seq<FrameView>, a: Seq<char>, k: nat)
    requires
        forall|i: nat| i < k ==> has_frame(s, #[trigger] up_at(s, a, i)),
    ensures
        reaches_up(s, a, up_at(s, a, k), k),
    decreases k,
{
    if k == 0 {
    } else {
        let p = frame_of(s, a).parent_frame_id;
        assert(has_frame(s, up_at(s, a, 0)));
        assert forall|i: nat| i < k - 1 implies has_frame(s, #[trigger] up_at(s, p, i)) by {
            lemma_up_at_shift(s, a, i);
            assert(has_frame(s, up_at(s, a, i + 1)));
        }
        lemma_up_at_reaches(s, p, (k - 1) as nat);
        lemma_up_at_shift(s, a, (k - 1) as nat);
    }
}

/// Two upward walks compose end to end.
proof fn lemma_reaches_up_trans(
    s: Seq<FrameView>,
    a: Seq<char>,
    b: Seq<char>,
    c: Seq<char>,
    p: nat,
    q: nat,
)
    requires
        reaches_up(s, a, b, p),
        reaches_up(s, b, c, q),
    ensures
        reaches_up(s, a, c, p + q),
    decreases p,
{
    if p == 0 {
    } else {
        lemma_reaches_up_trans(s, frame_of(s, a).parent_frame_id, b, c, (p - 1) as nat, q);
    }
}

/// A walk that returns to its start, however long, yields one no longer than
/// the buffer: the walk is deterministic, so a shortest return visits no frame
/// twice, and the frames it visits are held, hence at most `s.len()` many.
/// The bounded quantifier in `on_cycle` therefore loses nothing.
pub proof fn lemma_cycle_is_bounded(s: Seq<FrameView>, name: Seq<char>, k: nat)
    requires
        1 <= k,
        reaches_up(s, name, name, k),
    ensures
        on_cycle(s, name),
    decreases k,
{
    if k <= s.len() {
        assert(on_cycle(s, name));
    } else {
        lemma_reaches_up_at(s, name, name, k);
        if exists|i: nat, j: nat|
            i < j < k && #[trigger] up_at(s, name, i) == #[trigger] up_at(s, name, j) {
            let (i, j) = choose|i: nat, j: nat|
                i < j < k && #[trigger] up_at(s, name, i) == #[trigger] up_at(s, name, j);
            lemma_up_at_reaches(s, name, i);
            lemma_up_at_reaches(s, name, j);
            lemma_reaches_up_split(s, name, up_at(s, name, j), name, j, k);
            lemma_reaches_up_trans(
                s,
                name,
                up_at(s, name, i),
                name,
                i,
                (k - j) as nat,
            );
            lemma_cycle_is_bounded(s, name, (i + k - j) as nat);
        } else {
            let f = |i: int| up_at(s, name, i as nat);
            let g = |x: Seq<char>| idx_of(s, x);
            let dom_set = vstd::set_lib::set_int_range(0, k as int);
            let names_set = dom_set.map(f);
            let idxs = names_set.map(g);
            vstd::set_lib::lemma_int_range(0, k as int);
            assert(vstd::relations::injective_on(f, dom_set)) by {
                assert forall|x: int, y: int|
                    dom_set.contains(x) && dom_set.contains(y) && #[trigger] f(x) == #[trigger] f(
                        y,
                    ) implies x == y by {
                    if x < y {
                        assert(up_at(s, name, x as nat) == up_at(s, name, y as nat));
                    }
                    if y < x {
                        assert(up_at(s, name, y as nat) == up_at(s, name, x as nat));
                    }
                }
            }
            vstd::set_lib::lemma_map_size(dom_set, names_set, f);
            assert forall|x: Seq<char>| names_set.contains(x) implies has_frame(s, x) && s[g(
                x,
            )].child_frame_id == x && 0 <= g(x) < s.len() by {
                let i = choose|i: int| dom_set.contains(i) && f(i) == x;
                assert(has_frame(s, up_at(s, name, i as nat)));
            }
            assert(vstd::relations::injective_on(g, names_set));
            vstd::set_lib::lemma_map_size(names_set, idxs, g);
            assert(idxs.subset_of(vstd::set_lib::set_int_range(0, s.len() as int))) by {
                assert forall|n: int| idxs.contains(n) implies 0 <= n < s.len() by {
                    let x = choose|x: Seq<char>| names_set.contains(x) && g(x) == n;
                }
            }
            vstd::set_lib::lemma_int_range(0, s.len() as int);
            vstd::set_lib::lemma_len_subset(
                idxs,
                vstd::set_lib::set_int_range(0, s.len() as int),
            );
        }
    }
}

/// A walk around a cycle can go around any number of times.
proof fn lemma_reaches_up_pump(s: Seq<FrameView>, z: Seq<char>, k: nat, c: nat)
    requires
        reaches_up(s, z, z, k),
        1 <= c,
    ensures
        reaches_up(s, z, z, c * k),
    decreases c,
{
    if c == 1 {
        assert(1 * k == k) by (nonlinear_arith);
    } else {
        lemma_reaches_up_pump(s, z, k, (c - 1) as nat);
        lemma_reaches_up_trans(s, z, z, z, ((c - 1) * k) as nat, k);
        assert((c - 1) * k + k == c * k) by (nonlinear_arith);
    }
}

/// The cycle check in terms of the descendant graph: a frame with a cyclic
/// frame anywhere among its descendants lies on that cycle itself. A
/// descendant path from `name` down to `z` is the upward walk from `z` back
/// to `name`, and every frame holds exactly one parent reference, so a cycle
/// cannot hang below a frame without running through it. Checking whether
/// `name` returns to itself therefore decides whether the subgraph reachable
/// downward from `name` loops back on itself anywhere.
pub proof fn lemma_descendant_cycle_passes_through(
    s: Seq<FrameView>,
    name: Seq<char>,
    z: Seq<char>,
    m: nat,
    k: nat,
)
    requires
        reaches_up(s, z, name, m),
        reaches_up(s, z, z, k),
        1 <= k,
    ensures
        on_cycle(s, name),
{
    let c = m + 1;
    lemma_reaches_up_pump(s, z, k, c);
    assert(c * k >= m + 1) by (nonlinear_arith)
        requires
            k >= 1,
            c == m + 1,
    ;
    lemma_reaches_up_split(s, z, name, z, m, (c * k) as nat);
    lemma_reaches_up_trans(s, name, z, name, (c * k - m) as nat, m);
    lemma_cycle_is_bounded(s, name, (c * k) as nat);
}

/// Whether the descendant graph reachable from `frame` loops back on itself:
/// exactly when `frame` lies on a cycle of parent references
/// (`lemma_descendant_cycle_passes_through`).
pub fn is_cyclic(frame: &str, buffer: &FrameBuffer) -> (r: bool)
    requires
        buffer.wf(),
    ensures
        r == on_cycle(buffer@, frame@),
{
    let ghost s = buffer@;
    let n = buffer.len();
    let mut current: String = frame.to_owned();
    let mut k: usize = 0;
    while k < n
        invariant
            buffer.wf(),
            s == buffer@,
            0 <= k <= n,
            n == s.len(),
            reaches_up(s, frame@, current@, k as nat),
            forall|j: nat| 1 <= j <= k ==> !reaches_up(s, frame@, frame@, j),
        decreases n - k,
    {
        match buffer.get_frame(current.as_str()) {
            Some(f) => {
                proof {
                    lemma_reaches_up_extend(s, frame@, current@, k as nat);
                }
                let next = f.parent_frame_id.clone();
                if str_eq(next.as_str(), frame) {
                    proof {
                        assert(reaches_up(s, frame@, frame@, (k + 1) as nat));
                    }
                    return true;
                }
                proof {
                    assert forall|j: nat| 1 <= j <= k + 1 implies !reaches_up(
                        s,
                        frame@,
                        frame@,
                        j,
                    ) by {
                        if j == k + 1 && reaches_up(s, frame@, frame@, j) {
                            lemma_reaches_up_split(s, frame@, next@, frame@, (k + 1) as nat, j);
                        }
                    }
                }
                current = next;
                k += 1;
            },
            None => {
                proof {
                    assert forall|j: nat| 1 <= j <= s.len() implies !reaches_up(
                        s,
                        frame@,
                        frame@,
                        j,
                    ) by {
                        if j > k {
                            if reaches_up(s, frame@, frame@, j) {
                                lemma_reaches_up_split(s, frame@, current@, frame@, k as nat, j);
                            }
                        }
                    }
                }
                return false;
            },
        }
    }
    false
}

/// Whether any cycle exists anywhere in the buffer, even in a component
/// disconnected from the one a particular query walks.
pub fn is_cyclic_all(buffer: &FrameBuffer) -> (r: bool)
    requires
        buffer.wf(),
    ensures
        r == has_cycle(buffer@),
{
    let ghost s = buffer@;
    let mut i: usize = 0;
    while i < buffer.frames.len()
        invariant
            buffer.wf(),
            s == buffer@,
            0 <= i <= s.len(),
            forall|j: int| 0 <= j < i ==> !on_cycle(s, s[j].child_frame_id),
        decreases s.len() - i,
    {
        if is_cyclic(buffer.frames[i].child_frame_id.as_str(), buffer) {
            return true;
        }
        i += 1;
    }
    false
}

} // verus!
