//! A proof that a new public key `(H, p * H)`, with `H` hashed from a tag
//! `T`, belongs to the owner of one of several source keys, together with
//! key material that the auditor can recover.
use vstd::prelude::*;
use crate::scalar::Scalar;
use crate::point::{Point, CurveVector, VectorTuple, hash_to_curve, hash_to_edwards, point_add, point_mul, edwards_mul, edwards_add, identity_encoding};
use crate::zkplmt::{Proof, create_zkplmt, verify_zkplmt, accepts, made_for, tuple_views, pair_views, lemma_well_shaped};

verus! {

/// The new public key, the auditor-recoverable keys, the proof, and the
/// random weights of the auditor bases.
pub struct KYCProof {
    pub new_public_key: CurveVector,
    pub ap_recoverable_keys: CurveVector,
    pub proof: Proof,
    pub r: Vec<Scalar>,
}

impl KYCProof {
    pub open spec fn new_key(&self) -> CurveVector {
        self.new_public_key
    }

    pub open spec fn weights(&self) -> Seq<Scalar> {
        self.r@
    }

    pub open spec fn zk_proof(&self) -> Proof {
        self.proof
    }

    pub open spec fn recoverable(&self) -> CurveVector {
        self.ap_recoverable_keys
    }

    /// The new public key `(H, p * H)`.
    pub fn new_public_key(&self) -> (r: CurveVector)
        ensures
            r == self.new_key(),
    {
        self.new_public_key
    }

    /// The keys `(A_a, B_a)` that the auditor can recover.
    pub fn recoverable_keys(&self) -> (r: CurveVector)
        ensures
            r == self.recoverable(),
    {
        self.ap_recoverable_keys
    }
}

/// `sum_i r_i * b_i` over the first `k` terms, added in order.
pub open spec fn weighted(r: Seq<Scalar>, b: Seq<Point>, k: nat) -> Seq<u8>
    decreases k,
{
    if k == 0 {
        identity_encoding()
    } else {
        edwards_add(weighted(r, b, (k - 1) as nat), edwards_mul(r[k - 1].value(), b[k - 1]@))
    }
}

/// The tuples `[source_j, new key, (A_a, B_a), fourth_j]`, by encodings.
pub open spec fn kyc_views(
    sources: Seq<CurveVector>,
    second: CurveVector,
    third: CurveVector,
    fourth: Seq<(Seq<u8>, Seq<u8>)>,
) -> Seq<Seq<(Seq<u8>, Seq<u8>)>> {
    Seq::new(
        sources.len(),
        |j: int| seq![(sources[j].x@, sources[j].y@), (second.x@, second.y@), (third.x@, third.y@), fourth[j]],
    )
}

/// What `verify_kyc` accepts: `H(T)` is the new key's base, there are
/// enough weights and `S` points, the weighted auditor bases give `A_a`,
/// and the proof holds for the tuples `[source_j, (H, pH), (A_a, B_a),
/// (S_j, U)]`.
pub open spec fn kyc_proof_accepts(
    sources: Seq<CurveVector>,
    sources_s: Seq<Point>,
    ap_bases: Seq<Point>,
    t: Seq<u8>,
    k: KYCProof,
    u: Point,
) -> bool {
    let h = hash_to_curve(t);
    &&& h is Some
    &&& h->0 == k.new_public_key.x@
    &&& k.r@.len() >= ap_bases.len()
    &&& sources_s.len() >= sources.len()
    &&& weighted(k.r@, ap_bases, ap_bases.len()) == k.ap_recoverable_keys.x@
    &&& accepts(
        kyc_views(
            sources,
            k.new_public_key,
            k.ap_recoverable_keys,
            Seq::new(sources.len(), |j: int| (sources_s[j]@, u@)),
        ),
        k.proof.cs(),
        k.proof.ds(),
    )
}

/// The tuples `[source, (H, pH), (Aa, Ba), (Sa, sBa)]`, one per source.
#[allow(non_snake_case)]
fn kyc_tuples(sources: &[CurveVector], second: &CurveVector, third: &CurveVector, fourth: &[CurveVector]) -> (r: Vec<VectorTuple>)
    requires
        fourth@.len() == sources@.len(),
    ensures
        r@.len() == sources@.len(),
        forall|j: int| 0 <= j < r@.len() ==> (#[trigger] r@[j]).values@.len() == 4,
        tuple_views(r@) == kyc_views(sources@, *second, *third, pair_views(fourth@)),
{
    let mut out: Vec<VectorTuple> = Vec::new();
    let mut j: usize = 0;
    while j < sources.len()
        invariant
            fourth@.len() == sources@.len(),
            j <= sources@.len(),
            out@.len() == j,
            forall|k: int| 0 <= k < j ==> (#[trigger] out@[k]).values@.len() == 4,
            forall|k: int| 0 <= k < j ==> #[trigger] pair_views(out@[k].values@) == kyc_views(sources@, *second, *third, pair_views(fourth@))[k],
        decreases sources@.len() - j,
    {
        let values: Vec<CurveVector> = vec![sources[j], *second, *third, fourth[j]];
        assert(pair_views(values@) =~= kyc_views(sources@, *second, *third, pair_views(fourth@))[j as int]);
        out.push(VectorTuple { values });
        j = j + 1;
    }
    assert(tuple_views(out@) =~= kyc_views(sources@, *second, *third, pair_views(fourth@)));
    out
}

/// `sum_i r_i * bases_i`.
fn weighted_sum(r: &[Scalar], bases: &[Point]) -> (s: Point)
    requires
        r@.len() == bases@.len(),
    ensures
        s@ == weighted(r@, bases@, bases@.len()),
{
    let mut acc = Point::identity();
    let mut i: usize = 0;
    while i < bases.len()
        invariant
            r@.len() == bases@.len(),
            i <= bases@.len(),
            acc@ == weighted(r@, bases@, i as nat),
        decreases bases@.len() - i,
    {
        acc = point_add(&acc, &point_mul(&r[i], &bases[i]));
        i = i + 1;
    }
    acc
}

/// The weighted sum depends on the weights it uses alone.
proof fn lemma_weighted_prefix(r: Seq<Scalar>, p: Seq<Scalar>, b: Seq<Point>, k: nat)
    requires
        k <= p.len(),
        k <= r.len(),
        forall|i: int| 0 <= i < k ==> r[i] == p[i],
    ensures
        weighted(r, b, k) == weighted(p, b, k),
    decreases k,
{
    if k > 0 {
        lemma_weighted_prefix(r, p, b, (k - 1) as nat);
    }
}

/// The 32 bytes of a point's encoding.
fn encoding_vec(p: &Point) -> (r: Vec<u8>)
    ensures
        r@ == p@,
{
    let b = p.to_bytes();
    crate::sort::to_vec(b.as_slice())
}

/// Proves that the spender, holding `secret`, owns source `hidden_index`,
/// and returns the blinding scalar `s` with the proof. `None` where `T`
/// hashes to no point.
#[allow(non_snake_case)]
pub fn create_kyc(
    sources: Vec<CurveVector>,
    hidden_index: usize,
    ap_bases: &mut [Point],
    T: Point,
    secret: Scalar,
) -> (r: Option<(Scalar, KYCProof)>)
    requires
        hidden_index < sources@.len(),
    ensures
        final(ap_bases)@ == old(ap_bases)@,
        r is Some <==> hash_to_curve(T@) is Some,
        r matches Some((_, k)) ==> k.new_key().x@ == hash_to_curve(T@)->0 && k.new_key().y@ == edwards_mul(
            secret.value(),
            hash_to_curve(T@)->0,
        ) && k.weights().len() == old(ap_bases)@.len(),
        r matches Some((_, k)) ==> k.recoverable().x@ == weighted(k.weights(), old(ap_bases)@, old(ap_bases)@.len())
            && k.recoverable().y@ == edwards_mul(secret.value(), k.recoverable().x@),
        r matches Some((s, k)) ==> made_for(
            kyc_views(
                sources@,
                k.new_key(),
                k.recoverable(),
                Seq::new(
                    sources@.len(),
                    |j: int|
                        (edwards_mul(s.value(), k.recoverable().x@), edwards_mul(s.value(), k.recoverable().y@)),
                ),
            ),
            hidden_index as int,
            secret.value(),
            k.zk_proof().cs(),
            k.zk_proof().ds(),
        ),
{
    let mut rs: Vec<Scalar> = Vec::new();
    let mut i: usize = 0;
    while i < ap_bases.len()
        invariant
            i <= ap_bases@.len(),
            rs@.len() == i,
            ap_bases@ == old(ap_bases)@,
        decreases ap_bases@.len() - i,
    {
        rs.push(Scalar::random());
        i = i + 1;
    }
    let Aa = weighted_sum(rs.as_slice(), ap_bases);
    let Ba = point_mul(&secret, &Aa);
    let H = match hash_to_edwards(encoding_vec(&T).as_slice()) {
        Some(h) => h,
        None => {
            return None;
        },
    };
    let pH = point_mul(&secret, &H);
    let s = Scalar::random();
    let Sa = point_mul(&s, &Aa);
    let sBa = point_mul(&s, &Ba);
    let new_public_key = CurveVector { x: H, y: pH };
    let ap_recoverable_keys = CurveVector { x: Aa, y: Ba };
    let mut fourth: Vec<CurveVector> = Vec::new();
    let mut j: usize = 0;
    while j < sources.len()
        invariant
            j <= sources@.len(),
            fourth@.len() == j,
            forall|q: int| 0 <= q < j ==> #[trigger] fourth@[q] == (CurveVector { x: Sa, y: sBa }),
        decreases sources@.len() - j,
    {
        fourth.push(CurveVector { x: Sa, y: sBa });
        j = j + 1;
    }
    assert(pair_views(fourth@) =~= Seq::new(sources@.len(), |q: int| (Sa@, sBa@)));
    let tuples = kyc_tuples(sources.as_slice(), &new_public_key, &ap_recoverable_keys, fourth.as_slice());
    proof {
        lemma_well_shaped(tuples@, 4);
    }
    let proof = create_zkplmt(tuples.as_slice(), hidden_index, secret);
    Some((s, KYCProof { new_public_key, ap_recoverable_keys, proof, r: rs }))
}

/// Checks a KYC proof against the sources, their `S` points, the auditor
/// bases, the tag `T` and the point `U`.
#[allow(non_snake_case)]
pub fn verify_kyc(
    sources: Vec<CurveVector>,
    sources_S: Vec<Point>,
    ap_bases: &mut [Point],
    T: Point,
    kyc_proof: KYCProof,
    U: Point,
) -> (r: bool)
    ensures
        final(ap_bases)@ == old(ap_bases)@,
        r == kyc_proof_accepts(sources@, sources_S@, old(ap_bases)@, T@, kyc_proof, U),
{
    let H = match hash_to_edwards(encoding_vec(&T).as_slice()) {
        Some(h) => h,
        None => {
            return false;
        },
    };
    if !H.equals(&kyc_proof.new_public_key.x) {
        return false;
    }
    if kyc_proof.r.len() < ap_bases.len() || sources_S.len() < sources.len() {
        return false;
    }
    let mut rs: Vec<Scalar> = Vec::new();
    let mut i: usize = 0;
    while i < ap_bases.len()
        invariant
            i <= ap_bases@.len(),
            kyc_proof.r@.len() >= ap_bases@.len(),
            rs@.len() == i,
            rs@ == kyc_proof.r@.take(i as int),
            ap_bases@ == old(ap_bases)@,
        decreases ap_bases@.len() - i,
    {
        rs.push(kyc_proof.r[i]);
        assert(rs@ =~= kyc_proof.r@.take(i as int + 1));
        i = i + 1;
    }
    let Aa = weighted_sum(rs.as_slice(), ap_bases);
    proof {
        lemma_weighted_prefix(kyc_proof.r@, rs@, ap_bases@, ap_bases@.len());
    }
    if !Aa.equals(&kyc_proof.ap_recoverable_keys.x) {
        return false;
    }
    let Ba = kyc_proof.ap_recoverable_keys.y;
    proof {
        let third = CurveVector { x: Aa, y: Ba };
        let fourth_s = Seq::new(sources@.len(), |q: int| (sources_S@[q]@, U@));
        assert(kyc_views(sources@, kyc_proof.new_public_key, third, fourth_s) =~= kyc_views(
            sources@,
            kyc_proof.new_public_key,
            kyc_proof.ap_recoverable_keys,
            fourth_s,
        ));
    }
    let mut fourth: Vec<CurveVector> = Vec::new();
    let mut j: usize = 0;
    while j < sources.len()
        invariant
            sources_S@.len() >= sources@.len(),
            j <= sources@.len(),
            fourth@.len() == j,
            forall|q: int| 0 <= q < j ==> #[trigger] fourth@[q] == (CurveVector { x: sources_S@[q], y: U }),
        decreases sources@.len() - j,
    {
        fourth.push(CurveVector { x: sources_S[j], y: U });
        j = j + 1;
    }
    assert(pair_views(fourth@) =~= Seq::new(sources@.len(), |q: int| (sources_S@[q]@, U@)));
    let tuples = kyc_tuples(
        sources.as_slice(),
        &kyc_proof.new_public_key,
        &CurveVector { x: Aa, y: Ba },
        fourth.as_slice(),
    );
    verify_zkplmt(tuples.as_slice(), &kyc_proof.proof)
}

} // verus!
