use vstd::prelude::*;

verus! {

/// A rigid three-dimensional transform (a rotation together with a
/// translation), carried as its canonical JSON encoding
/// `{"rotation":[x,y,z,w],"translation":[x,y,z]}` — the shape nalgebra's
/// `Isometry3` takes through serde. The numeric content is opaque to the
/// verified code: composition and inversion go through nalgebra, and the
/// contracts speak of those results by name (`compose_of`, `inverse_of`).
/// The field is private: every value comes from `from_json`, `identity` or
/// the operations below. An operation can overflow a component past the
/// finite range, and such a component is encoded as `null`, which no longer
/// parses; the operations therefore return nothing, rather than fail, when
/// an operand carries such an encoding.
pub struct RigidTransform {
    enc: String,
}

impl View for RigidTransform {
    type V = Seq<char>;

    closed spec fn view(&self) -> Seq<char> {
        self.enc@
    }
}

impl DeepView for RigidTransform {
    type V = Seq<char>;

    open spec fn deep_view(&self) -> Seq<char> {
        self.view()
    }
}

/// The encoding of the identity transform: no rotation, no translation.
pub open spec fn identity_enc() -> Seq<char> {
    "{\"rotation\":[0,0,0,1],\"translation\":[0,0,0]}"@
}

/// What composing the transforms encoded by `a` and `b`, in that order,
/// returns: the encoding of nalgebra's isometry product, or nothing when an
/// operand's encoding no longer parses.
pub uninterp spec fn compose_of(a: Seq<char>, b: Seq<char>) -> Option<Seq<char>>;

/// What inverting the transform encoded by `a` returns: the encoding of
/// nalgebra's isometry inverse, or nothing when the encoding no longer
/// parses.
pub uninterp spec fn inverse_of(a: Seq<char>) -> Option<Seq<char>>;

/// What reading a JSON text as a rigid transform returns: its canonical
/// re-encoding, or nothing when the text does not parse as one.
pub uninterp spec fn pose_of_json(s: Seq<char>) -> Option<Seq<char>>;

impl RigidTransform {
    /// The identity transform, written out as its canonical encoding.
    pub fn identity() -> (r: Self)
        ensures
            r@ == identity_enc(),
    {
        RigidTransform { enc: "{\"rotation\":[0,0,0,1],\"translation\":[0,0,0]}".to_owned() }
    }

    /// Reads a transform from nalgebra's JSON shape for an isometry.
    /// Relies on serde_json and nalgebra's serde support: the outcome — the
    /// canonical re-serialization of the parsed isometry, or a parse failure
    /// — is a function of the input text alone.
    #[verifier::external_body]
    pub fn from_json(s: &str) -> (r: Option<Self>)
        ensures
            r.deep_view() == pose_of_json(s@),
    {
        let iso: nalgebra::Isometry3<_> = serde_json::from_str(s).ok()?;
        // ties the isometry's scalar type to the one serde_json yields
        let _scalar = vec![iso.translation.vector.x, serde_json::Value::from(0u64).as_f64()?];
        Some(RigidTransform { enc: serde_json::to_string(&iso).ok()? })
    }

    /// The transform's canonical JSON encoding.
    pub fn to_json(&self) -> (r: &str)
        ensures
            r@ == self@,
    {
        self.enc.as_str()
    }

    /// An equal transform.
    pub fn duplicate(&self) -> (r: Self)
        ensures
            r == *self,
    {
        RigidTransform { enc: self.enc.clone() }
    }
}

/// Composes two rigid transforms, `a` first.
/// Relies on nalgebra's isometry multiplication, reached through a serde
/// round trip; the outcome — the product's encoding, or a parse failure on
/// an operand whose component overflowed earlier — is a function of the two
/// encodings alone.
#[verifier::external_body]
pub(crate) fn compose_pose(a: &RigidTransform, b: &RigidTransform) -> (r: Option<RigidTransform>)
    ensures
        r.deep_view() == compose_of(a@, b@),
{
    let ia: nalgebra::Isometry3<_> = serde_json::from_str(&a.enc).ok()?;
    let ib: nalgebra::Isometry3<_> = serde_json::from_str(&b.enc).ok()?;
    // ties the isometries' scalar type to the one serde_json yields
    let _scalar = vec![ia.translation.vector.x, serde_json::Value::from(0u64).as_f64()?];
    Some(RigidTransform { enc: serde_json::to_string(&(ia * ib)).ok()? })
}

/// Inverts a rigid transform.
/// Relies on nalgebra's isometry inversion, reached through a serde round
/// trip; the outcome — the inverse's encoding, or a parse failure on an
/// operand whose component overflowed earlier — is a function of the
/// encoding alone.
#[verifier::external_body]
pub(crate) fn inverse_pose(a: &RigidTransform) -> (r: Option<RigidTransform>)
    ensures
        r.deep_view() == inverse_of(a@),
{
    let ia: nalgebra::Isometry3<_> = serde_json::from_str(&a.enc).ok()?;
    // ties the isometry's scalar type to the one serde_json yields
    let _scalar = vec![ia.translation.vector.x, serde_json::Value::from(0u64).as_f64()?];
    Some(RigidTransform { enc: serde_json::to_string(&(ia.inverse())).ok()? })
}

/// The left fold of a sequence of transform encodings, starting from the
/// identity: the value `isometry_chain_product` computes, or nothing as soon
/// as one composition returns nothing.
pub open spec fn compose_seq(s: Seq<Seq<char>>) -> Option<Seq<char>>
    decreases s.len(),
{
    if s.len() == 0 {
        Some(identity_enc())
    } else {
        match compose_seq(s.drop_last()) {
            Some(acc) => compose_of(acc, s.last()),
            None => None,
        }
    }
}

/// Once a prefix of the fold has failed, the whole fold fails.
pub proof fn lemma_compose_seq_none_prefix(s: Seq<Seq<char>>, j: int)
    requires
        0 <= j <= s.len(),
        compose_seq(s.take(j)) is None,
    ensures
        compose_seq(s) is None,
    decreases s.len() - j,
{
    if j == s.len() {
        assert(s.take(j) =~= s);
    } else {
        assert(s.take(j + 1).drop_last() =~= s.take(j));
        lemma_compose_seq_none_prefix(s, j + 1);
    }
}

/// Folds a chain of rigid transforms into one, composing left to right from
/// the identity; nothing when a composition along the way returns nothing.
pub fn isometry_chain_product(chain: Vec<RigidTransform>) -> (r: Option<RigidTransform>)
    ensures
        r.deep_view() == compose_seq(chain@.map_values(|t: RigidTransform| t@)),
{
    let ghost cv = chain@.map_values(|t: RigidTransform| t@);
    let mut acc = RigidTransform::identity();
    let mut i: usize = 0;
    while i < chain.len()
        invariant
            0 <= i <= chain.len(),
            cv == chain@.map_values(|t: RigidTransform| t@),
            compose_seq(cv.take(i as int)) == Some(acc@),
        decreases chain.len() - i,
    {
        proof {
            assert(cv.take(i + 1).drop_last() =~= cv.take(i as int));
            assert(cv.take(i + 1).last() == cv[i as int]);
        }
        match compose_pose(&acc, &chain[i]) {
            Some(next) => {
                acc = next;
                i += 1;
            },
            None => {
                proof {
                    assert(compose_seq(cv.take(i + 1)) is None);
                    lemma_compose_seq_none_prefix(cv, i + 1);
                }
                return None;
            },
        }
    }
    proof {
        assert(cv.take(cv.len() as int) =~= cv);
    }
    Some(acc)
}

} // verus!
