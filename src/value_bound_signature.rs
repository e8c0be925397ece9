//! A ring signature over value-commitment tuples `(S, V, A, B)`: the signer
//! re-randomises its own tuple and proves, with a one-time key image, that
//! the result is a multiple of one member of the ring.
use vstd::prelude::*;
use crate::scalar::{Scalar, ell, sum_values, sc_sub, sc_mul, sc_invert, scalar_inverse};
use crate::point::{edwards_mul, Point, CurveVector, VectorTuple, hash_to_curve, hash_to_edwards, point_mul};
use crate::zkplmt::{Proof, create_zkplmt, verify_zkplmt, accepts, made_for, well_shaped, tuple_views, pair_views, lemma_well_shaped};

verus! {

/// The public part of a value commitment: `S = s * G`, `V = v * s * K`,
/// and a one-time key `(A, B = p * A)`.
#[derive(Clone, Copy, Debug)]
#[allow(non_snake_case)]
pub struct ValueCommitmentPublic {
    pub S: Point,
    pub V: Point,
    pub A: Point,
    pub B: Point,
}

/// A value commitment with its openings `v` and `s`.
#[derive(Clone, Copy, Debug)]
#[allow(non_snake_case)]
pub struct ValueCommitment {
    pub value_commitment_public: ValueCommitmentPublic,
    pub v: Scalar,
    pub s: Scalar,
}

/// A ring signature: the re-randomised tuple, the proof, and the key image.
#[derive(Clone, Debug)]
#[allow(non_snake_case)]
pub struct BlindingSignature {
    pub value_commitment_public: ValueCommitmentPublic,
    pub proof: Proof,
    pub I_: Point,
}

/// The pairs of one ring member `c` against the re-randomised tuple `p`
/// and the key image `i`: `(c.S, S')`, `(c.V, V')`, `(c.A, A')`,
/// `(c.B, B')` and `(I, H(c.A))`, by encodings.
pub open spec fn member_pairs(c: ValueCommitmentPublic, p: ValueCommitmentPublic, i: Seq<u8>) -> Seq<(Seq<u8>, Seq<u8>)> {
    seq![(c.S@, p.S@), (c.V@, p.V@), (c.A@, p.A@), (c.B@, p.B@), (i, hash_to_curve(c.A@)->0)]
}

/// Every member's `A` hashes to a point.
pub open spec fn ring_hashable(inputs: Seq<ValueCommitmentPublic>) -> bool {
    forall|j: int| 0 <= j < inputs.len() ==> (#[trigger] hash_to_curve(inputs[j].A@)) is Some
}

/// The ring of `inputs`; `None` where some member's `A` hashes to no
/// point.
pub open spec fn blinding_ring(inputs: Seq<ValueCommitmentPublic>, p: ValueCommitmentPublic, i: Seq<u8>) -> Option<
    Seq<Seq<(Seq<u8>, Seq<u8>)>>,
> {
    if ring_hashable(inputs) {
        Some(Seq::new(inputs.len(), |j: int| member_pairs(inputs[j], p, i)))
    } else {
        None
    }
}

/// `sig` was made as member `k` of the ring of `inputs`: its proof is made
/// for tuple `k` of the ring, for some secret.
pub open spec fn ring_signed(inputs: Seq<ValueCommitmentPublic>, k: int, sig: BlindingSignature) -> bool {
    match blinding_ring(inputs, sig.value_commitment_public, sig.I_@) {
        Some(t) => exists|tv: nat| made_for(t, k, tv, sig.proof.cs(), sig.proof.ds()),
        None => false,
    }
}

/// What `create_blinding_signature` makes as member `k` with openings `s`
/// and re-randomiser `ss`: with `t = ss / s`, the public tuple is
/// `t (S, V, A, B)` of member `k`, the key image is `t^-1 H(A_k)`, and the
/// proof is made for tuple `k` of the ring with secret `t`.
pub open spec fn blinding_made(inputs: Seq<ValueCommitmentPublic>, k: int, s: nat, ss: nat, sig: BlindingSignature) -> bool {
    let t = (ss * scalar_inverse(s)) % ell();
    let c = inputs[k];
    let n = sig.value_commitment_public;
    &&& n.S@ == edwards_mul(t, c.S@)
    &&& n.V@ == edwards_mul(t, c.V@)
    &&& n.A@ == edwards_mul(t, c.A@)
    &&& n.B@ == edwards_mul(t, c.B@)
    &&& sig.I_@ == edwards_mul(scalar_inverse(t), hash_to_curve(c.A@)->0)
    &&& blinding_ring(inputs, n, sig.I_@) matches Some(ring) && made_for(ring, k, t, sig.proof.cs(), sig.proof.ds())
}

/// Multiplies the public tuple by `ss / s` and sets the opening `s` to `ss`.
fn transform_blinding_key(vc: ValueCommitment, ss: Scalar) -> (r: ValueCommitment)
    ensures
        r.v == vc.v,
        r.s == ss,
        ({
            let t = (ss.value() * scalar_inverse(vc.s.value())) % ell();
            let c = vc.value_commitment_public;
            let n = r.value_commitment_public;
            &&& n.S@ == edwards_mul(t, c.S@)
            &&& n.V@ == edwards_mul(t, c.V@)
            &&& n.A@ == edwards_mul(t, c.A@)
            &&& n.B@ == edwards_mul(t, c.B@)
        }),
{
    let t = sc_mul(ss, sc_invert(vc.s));
    let vcp = vc.value_commitment_public;
    ValueCommitment {
        value_commitment_public: ValueCommitmentPublic {
            S: point_mul(&t, &vcp.S),
            V: point_mul(&t, &vcp.V),
            A: point_mul(&t, &vcp.A),
            B: point_mul(&t, &vcp.B),
        },
        v: vc.v,
        s: ss,
    }
}

/// Builds the ring; `None` where some member's `A` hashes to no point.
fn build_ring(inputs: &[ValueCommitmentPublic], p: &ValueCommitmentPublic, i: &Point) -> (r: Option<Vec<VectorTuple>>)
    ensures
        r is Some <==> blinding_ring(inputs@, *p, i@) is Some,
        r is Some ==> tuple_views(r->0@) == blinding_ring(inputs@, *p, i@)->0,
        r is Some ==> forall|j: int| 0 <= j < r->0@.len() ==> (#[trigger] r->0@[j]).values@.len() == 5,
{
    let mut tuples: Vec<VectorTuple> = Vec::new();
    let mut j: usize = 0;
    while j < inputs.len()
        invariant
            j <= inputs@.len(),
            tuples@.len() == j,
            forall|q: int| 0 <= q < j ==> (#[trigger] hash_to_curve(inputs@[q].A@)) is Some,
            forall|q: int| 0 <= q < j ==> (#[trigger] tuples@[q]).values@.len() == 5,
            tuple_views(tuples@) =~= Seq::new(j as nat, |q: int| member_pairs(inputs@[q], *p, i@)),
        decreases inputs@.len() - j,
    {
        let c = inputs[j];
        let ab = c.A.to_bytes();
        let h = match hash_to_edwards(encoding_bytes(&ab).as_slice()) {
            Some(h) => h,
            None => {
                assert(!(forall|q: int| 0 <= q < inputs@.len() ==> (#[trigger] hash_to_curve(inputs@[q].A@)) is Some));
                return None;
            },
        };
        let values: Vec<CurveVector> = vec![
            CurveVector { x: c.S, y: p.S },
            CurveVector { x: c.V, y: p.V },
            CurveVector { x: c.A, y: p.A },
            CurveVector { x: c.B, y: p.B },
            CurveVector { x: *i, y: h },
        ];
        assert(pair_views(values@) =~= member_pairs(c, *p, i@));
        let ghost old_t = tuples@;
        tuples.push(VectorTuple { values });
        assert(tuple_views(tuples@) =~= tuple_views(old_t).push(member_pairs(c, *p, i@)));
        j = j + 1;
    }
    Some(tuples)
}

/// The 32 bytes of an encoding, as a vector.
fn encoding_bytes(b: &[u8; 32]) -> (r: Vec<u8>)
    ensures
        r@ == b@,
{
    crate::sort::to_vec(b.as_slice())
}

/// Checks a ring signature against the ring of `input_commitments`.
pub fn verify_blinding_signatures(input_commitments: &[ValueCommitmentPublic], signature: &BlindingSignature) -> (r: bool)
    ensures
        r == match blinding_ring(input_commitments@, signature.value_commitment_public, signature.I_@) {
            Some(t) => accepts(t, signature.proof.cs(), signature.proof.ds()),
            None => false,
        },
{
    match build_ring(input_commitments, &signature.value_commitment_public, &signature.I_) {
        Some(tuples) => verify_zkplmt(tuples.as_slice(), &signature.proof),
        None => false,
    }
}

/// Signs as member `k` of the ring, whose commitment opens with `v` and
/// `s`, re-randomising it with `ss`. `None` where some member's `A` hashes
/// to no point.
pub fn create_blinding_signature(
    input_commitments: &[ValueCommitmentPublic],
    v: Scalar,
    s: Scalar,
    ss: Scalar,
    k: usize,
) -> (r: Option<BlindingSignature>)
    requires
        k < input_commitments@.len(),
    ensures
        r is Some <==> ring_hashable(input_commitments@),
        r is Some ==> ring_signed(input_commitments@, k as int, r->0),
        r is Some ==> blinding_made(input_commitments@, k as int, s.value(), ss.value(), r->0),
{
    let transformed = transform_blinding_key(
        ValueCommitment { value_commitment_public: input_commitments[k], s, v },
        ss,
    );
    let t = sc_mul(ss, sc_invert(s));
    let ak = input_commitments[k].A.to_bytes();
    let hk = match hash_to_edwards(encoding_bytes(&ak).as_slice()) {
        Some(h) => h,
        None => {
            assert(!(forall|q: int| 0 <= q < input_commitments@.len() ==> (#[trigger] hash_to_curve(input_commitments@[q].A@)) is Some));
            return None;
        },
    };
    let i = point_mul(&sc_invert(t), &hk);
    let p = transformed.value_commitment_public;
    let tuples = match build_ring(input_commitments, &p, &i) {
        Some(t) => t,
        None => {
            return None;
        },
    };
    proof {
        assert(tuple_views(tuples@).len() == input_commitments@.len());
        lemma_well_shaped(tuples@, 5);
    }
    let proof = create_zkplmt(tuples.as_slice(), k, t);
    let r = BlindingSignature { value_commitment_public: p, proof, I_: i };
    assert(made_for(tuple_views(tuples@), k as int, t.value(), r.proof.cs(), r.proof.ds()));
    assert(ring_signed(input_commitments@, k as int, r));
    assert(blinding_made(input_commitments@, k as int, s.value(), ss.value(), r));
    Some(r)
}

/// Splits `sum` into `count` random scalars that add up to it.
pub fn create_random_divisions(sum: Scalar, count: usize) -> (r: Vec<Scalar>)
    requires
        count >= 1,
    ensures
        r@.len() == count,
        sum_values(r@) % (ell() as int) == sum.value() % ell(),
{
    let mut output: Vec<Scalar> = Vec::new();
    let mut s = sum;
    let mut i: usize = 0;
    while i < count - 1
        invariant
            count >= 1,
            i <= count - 1,
            output@.len() == i,
            (sum_values(output@) + s.value()) % (ell() as int) == sum.value() % ell(),
        decreases count - 1 - i,
    {
        let r = Scalar::random();
        let ghost prev = s.value();
        let ghost old_out = output@;
        s = sc_sub(s, r);
        output.push(r);
        proof {
            assert(output@.drop_last() =~= old_out);
            let a = sum_values(old_out);
            assert(sum_values(output@) == a + r.value());
            vstd::arithmetic::div_mod::lemma_add_mod_noop(a + r.value(), prev - r.value(), ell() as int);
            vstd::arithmetic::div_mod::lemma_mod_twice(prev - r.value(), ell() as int);
            vstd::arithmetic::div_mod::lemma_add_mod_noop(a + r.value(), s.value() as int, ell() as int);
            vstd::arithmetic::div_mod::lemma_mod_bound(prev - r.value(), ell() as int);
        }
        i = i + 1;
    }
    let ghost old_out = output@;
    output.push(s);
    proof {
        assert(output@.drop_last() =~= old_out);
    }
    output
}

} // verus!
