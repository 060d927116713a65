use vstd::prelude::*;
use crate::buffer::{has_frame, idx_of};
use crate::cycles::{reaches_up, on_cycle, has_cycle};
use crate::frame::FrameView;
use crate::lookup::{up_chain, up_value, down_value, lookup_value};
use crate::pose::compose_seq;
use crate::MAX_TRANSFORM_CHAIN;

verus! {

/// A cycle anywhere in the snapshot poisons every query: once any frame lies
/// on a cycle, the snapshot has a cycle and every lookup against it — between
/// any two frames, through any root, even frames far from the cycle — returns
/// nothing.
pub proof fn lemma_cycle_refuses_every_lookup(
    s: Seq<FrameView>,
    name: Seq<char>,
    parent: Seq<char>,
    child: Seq<char>,
    root: Seq<char>,
)
    requires
        on_cycle(s, name),
    ensures
        has_cycle(s),
        lookup_value(s, parent, child, root) is None,
{
    let k = choose|k: nat| 1 <= k <= s.len() && reaches_up(s, name, name, k);
    assert(reaches_up(s, name, name, k));
    assert(has_frame(s, name));
    let i = idx_of(s, name);
    assert(0 <= i < s.len() && s[i].child_frame_id == name);
    assert(on_cycle(s, s[i].child_frame_id));
}

/// A lookup is its two legs and nothing else: in a snapshot free of cycles,
/// once the upward and the downward resolution both return a composite, the
/// answer is exactly those two composites folded together, in that order.
pub proof fn lemma_lookup_composes_legs(
    s: Seq<FrameView>,
    parent: Seq<char>,
    child: Seq<char>,
    root: Seq<char>,
)
    requires
        !has_cycle(s),
        up_value(s, parent, root) is Some,
        down_value(s, child, root) is Some,
    ensures
        lookup_value(s, parent, child, root) == compose_seq(
            seq![up_value(s, parent, root)->Some_0, down_value(s, child, root)->Some_0],
        ),
{
}

/// A lookup of a frame against itself: both legs follow the frame's own
/// chain, and the answer is their fold — nothing but the resolutions and the
/// compositions themselves can fail it.
pub proof fn lemma_self_lookup_composes(s: Seq<FrameView>, x: Seq<char>, root: Seq<char>)
    requires
        !has_cycle(s),
        up_value(s, x, root) is Some,
        down_value(s, x, root) is Some,
    ensures
        lookup_value(s, x, x, root) == compose_seq(
            seq![up_value(s, x, root)->Some_0, down_value(s, x, root)->Some_0],
        ),
{
    lemma_lookup_composes_legs(s, x, x, root);
}

/// A lookup of the root against itself through itself: both legs are the
/// identity with no walk at all, and the answer is the fold of the two
/// identities.
pub proof fn lemma_root_self_lookup(s: Seq<FrameView>, root: Seq<char>)
    requires
        !has_cycle(s),
    ensures
        lookup_value(s, root, root, root) == compose_seq(
            seq![crate::pose::identity_enc(), crate::pose::identity_enc()],
        ),
{
    lemma_lookup_composes_legs(s, root, root, root);
}

/// The structural half of the round trip: a lookup that resolves pins both
/// endpoints' chains down, so the reverse lookup's walks resolve too — only
/// the composability of the reverse legs' values can distinguish the two
/// directions.
pub proof fn lemma_round_trip_chains(
    s: Seq<FrameView>,
    parent: Seq<char>,
    child: Seq<char>,
    root: Seq<char>,
)
    requires
        lookup_value(s, parent, child, root) is Some,
        parent != root,
        child != root,
    ensures
        !has_cycle(s),
        up_chain(s, parent, root, MAX_TRANSFORM_CHAIN as nat) is Some,
        up_chain(s, child, root, MAX_TRANSFORM_CHAIN as nat) is Some,
{
}

/// More fuel never changes a walk that already resolves.
pub proof fn lemma_up_chain_fuel_mono(
    s: Seq<FrameView>,
    cur: Seq<char>,
    root: Seq<char>,
    fuel1: nat,
    fuel2: nat,
)
    requires
        fuel1 <= fuel2,
        up_chain(s, cur, root, fuel1) is Some,
    ensures
        up_chain(s, cur, root, fuel2) == up_chain(s, cur, root, fuel1),
    decreases fuel1,
{
    if fuel1 == 0 {
    } else {
        let f = crate::buffer::frame_of(s, cur);
        if f.parent_frame_id == root {
        } else {
            lemma_up_chain_fuel_mono(
                s,
                f.parent_frame_id,
                root,
                (fuel1 - 1) as nat,
                (fuel2 - 1) as nat,
            );
        }
    }
}

/// A walk that resolves visits at least one and at most `fuel` frames.
pub proof fn lemma_up_chain_len(s: Seq<FrameView>, cur: Seq<char>, root: Seq<char>, fuel: nat)
    ensures
        up_chain(s, cur, root, fuel) matches Some(c) ==> 1 <= c.len() <= fuel,
    decreases fuel,
{
    if fuel == 0 {
    } else if !has_frame(s, cur) {
    } else {
        let f = crate::buffer::frame_of(s, cur);
        if f.parent_frame_id == root {
        } else {
            lemma_up_chain_len(s, f.parent_frame_id, root, (fuel - 1) as nat);
        }
    }
}

/// A chain of frames longer than the step budget fails resolution: if a walk
/// resolves only with a chain past `MAX_TRANSFORM_CHAIN`, then under the
/// budget it returns nothing, and so does every lookup whose upward leg
/// starts there.
pub proof fn lemma_overlong_chain_fails(
    s: Seq<FrameView>,
    start: Seq<char>,
    root: Seq<char>,
    fuel: nat,
    c: Seq<Seq<char>>,
    child: Seq<char>,
)
    requires
        up_chain(s, start, root, fuel) == Some(c),
        c.len() > MAX_TRANSFORM_CHAIN,
        start != root,
    ensures
        up_chain(s, start, root, MAX_TRANSFORM_CHAIN as nat) is None,
        up_value(s, start, root) is None,
        lookup_value(s, start, child, root) is None,
{
    lemma_up_chain_len(s, start, root, fuel);
    if up_chain(s, start, root, MAX_TRANSFORM_CHAIN as nat) is Some {
        lemma_up_chain_fuel_mono(s, start, root, MAX_TRANSFORM_CHAIN as nat, fuel);
        lemma_up_chain_len(s, start, root, MAX_TRANSFORM_CHAIN as nat);
    }
}

} // verus!
