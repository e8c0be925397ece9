//! Transactions: a ring proof over candidate input sets, balanced output
//! commitments with a range proof, declarations to the auditing party, and
//! a spending-limit chain.
use vstd::prelude::*;
use crate::scalar::{Scalar, ell, sum_values, sum_scalars, sc_add, sc_sub, sc_mul, sc_from_u64};
use crate::point::{xand_bytes, Point, CurveVector, VectorTuple, lin2, edwards_mul, edwards_add, edwards_sub, hash_to_curve, hash_to_edwards, get_G, get_L, point_add, point_sub, point_mul, lin_comb, sum_points, encodings, point_sum, identity_encoding, systems_bytes};
use crate::zkplmt::{lemma_well_shaped, Proof, create_zkplmt, verify_zkplmt, well_shaped, accepts, made_for, lemma_sum_values_update, tuple_views, pair_views};
use crate::sort::{is_permutation, permuted};
use crate::sort::shuffle;
use crate::bases::Bases;
use crate::range::{commitment, BulletRangeProof, bullet_range_proof, bullet_range_verify, range_inputs_ok, range_shape, range_accepts, lemma_range_accepts_shape};

verus! {

/// An output: a Pedersen commitment to its value and a one-time key
/// `(A, B)`.
#[derive(Clone, Copy, Debug)]
pub struct TransactionOutput {
    pub commitment: Point,
    pub public_key: (Point, Point),
}

impl TransactionOutput {
    pub fn new(commitment: Point, public_key: (Point, Point)) -> (r: TransactionOutput)
        ensures
            r.commitment == commitment,
            r.public_key == public_key,
    {
        TransactionOutput { commitment, public_key }
    }
}

/// A candidate set of inputs.
#[derive(Clone, Debug)]
pub struct TransactionInputSet {
    pub components: Vec<TransactionOutput>,
}

impl TransactionInputSet {
    pub fn new(components: Vec<TransactionOutput>) -> (r: TransactionInputSet)
        ensures
            r.components@ == components@,
    {
        TransactionInputSet { components }
    }

    /// A copy of the set.
    pub fn duplicate(&self) -> (r: TransactionInputSet)
        ensures
            r.components@ == self.components@,
    {
        TransactionInputSet { components: crate::sort::to_vec(self.components.as_slice()) }
    }
}

/// A one-tuple relation for a proof about a single tuple.
fn single_tuple(values: Vec<CurveVector>) -> (r: Vec<VectorTuple>)
    ensures
        r@.len() == 1,
        r@[0].values@ == values@,
        tuple_views(r@) == seq![pair_views(values@)],
{
    let r = vec![VectorTuple { values }];
    assert(tuple_views(r@) =~= seq![pair_views(values@)]);
    r
}

/// The declaration that binds the spender's `S`-vector to the auditor key
/// `Q` and discloses material the auditor can recover.
#[derive(Clone, Debug)]
#[allow(non_camel_case_types, non_snake_case)]
pub struct AP_Declaration_Of_Public_key {
    pub pi_1: Proof,
    pub pi_2: Proof,
    pub Z: Point,
    pub X: Point,
    pub Y: Point,
    pub Qs: Point,
    pub Qsz: Point,
}

/// What the verifier accepts of a public-key declaration: `pi_1` for the
/// tuple `[(G, S), (X, Y), (Q, Q_s)]` and `pi_2` for `[(G, Z'), (Q_s, Q_sz)]`.
pub open spec fn ap_key_accepts(dec: AP_Declaration_Of_Public_key, g: Seq<u8>, s: Seq<u8>, q: Seq<u8>) -> bool {
    &&& accepts(seq![seq![(g, s), (dec.X@, dec.Y@), (q, dec.Qs@)]], dec.pi_1.cs(), dec.pi_1.ds())
    &&& accepts(seq![seq![(g, dec.Z@), (dec.Qs@, dec.Qsz@)]], dec.pi_2.cs(), dec.pi_2.ds())
}

impl AP_Declaration_Of_Public_key {
    /// `(Z', X, Y, Q_s, Q_sz)`.
    pub open spec fn points(&self) -> (Point, Point, Point, Point, Point) {
        (self.Z, self.X, self.Y, self.Qs, self.Qsz)
    }

    pub open spec fn proofs(&self) -> (Proof, Proof) {
        (self.pi_1, self.pi_2)
    }

    /// The declaration with proofs `pi_1`, `pi_2` and points `(Z', X, Y,
    /// Q_s, Q_sz)`.
    #[allow(non_snake_case)]
    pub fn from_parts(pi_1: Proof, pi_2: Proof, Z: Point, X: Point, Y: Point, Qs: Point, Qsz: Point) -> (r: Self)
        ensures
            r.points() == (Z, X, Y, Qs, Qsz),
            r.proofs() == (pi_1, pi_2),
    {
        AP_Declaration_Of_Public_key { pi_1, pi_2, Z, X, Y, Qs, Qsz }
    }

    pub fn point_parts(&self) -> (r: (Point, Point, Point, Point, Point))
        ensures
            r == self.points(),
    {
        (self.Z, self.X, self.Y, self.Qs, self.Qsz)
    }

    pub fn pi_1(&self) -> (r: &Proof)
        ensures
            *r == self.proofs().0,
    {
        &self.pi_1
    }

    pub fn pi_2(&self) -> (r: &Proof)
        ensures
            *r == self.proofs().1,
    {
        &self.pi_2
    }
}

#[allow(non_snake_case)]
fn verify_AP_declaration_of_public_key(dec: &AP_Declaration_Of_Public_key, G: &Point, S: &Point, Q: &Point) -> (r: bool)
    ensures
        r == ap_key_accepts(*dec, G@, S@, Q@),
{
    let v1: Vec<CurveVector> = vec![
        CurveVector { x: *G, y: *S },
        CurveVector { x: dec.X, y: dec.Y },
        CurveVector { x: *Q, y: dec.Qs },
    ];
    assert(pair_views(v1@) =~= seq![(G@, S@), (dec.X@, dec.Y@), (Q@, dec.Qs@)]);
    let t1 = single_tuple(v1);
    let v2: Vec<CurveVector> = vec![CurveVector { x: *G, y: dec.Z }, CurveVector { x: dec.Qs, y: dec.Qsz }];
    assert(pair_views(v2@) =~= seq![(G@, dec.Z@), (dec.Qs@, dec.Qsz@)]);
    let t2 = single_tuple(v2);
    if !verify_zkplmt(t1.as_slice(), &dec.pi_1) {
        return false;
    }
    verify_zkplmt(t2.as_slice(), &dec.pi_2)
}

/// What `generate_AP_declaration_of_public_key` makes for keys `p`, `s`:
/// for some `z`, `Z' = z G`, `X = z Q + p G`, `Y = s X`, `Q_s = s Q`,
/// `Q_sz = z Q_s`, with `pi_1` made for `[(G, S), (X, Y), (Q, Q_s)]` and
/// secret `s`, and `pi_2` for `[(G, Z'), (Q_s, Q_sz)]` and secret `z`.
pub open spec fn ap_key_made(dec: AP_Declaration_Of_Public_key, p: nat, s: nat, g: Seq<u8>, big_s: Seq<u8>, q: Seq<u8>) -> bool {
    exists|z: nat|
        {
            &&& dec.Z@ == edwards_mul(z, g)
            &&& dec.X@ == edwards_add(edwards_mul(z, q), edwards_mul(p, g))
            &&& dec.Y@ == edwards_mul(s, dec.X@)
            &&& dec.Qs@ == edwards_mul(s, q)
            &&& dec.Qsz@ == edwards_mul(z, dec.Qs@)
            &&& made_for(seq![seq![(g, big_s), (dec.X@, dec.Y@), (q, dec.Qs@)]], 0, s, dec.pi_1.cs(), dec.pi_1.ds())
            &&& made_for(seq![seq![(g, dec.Z@), (dec.Qs@, dec.Qsz@)]], 0, z, dec.pi_2.cs(), dec.pi_2.ds())
        }
}

#[allow(non_snake_case)]
fn generate_AP_declaration_of_public_key(p: Scalar, s: Scalar, G: &Point, S: &Point, Q: &Point) -> (r: AP_Declaration_Of_Public_key)
    ensures
        ap_key_made(r, p.value(), s.value(), G@, S@, Q@),
{
    let P = point_mul(&p, G);
    let z = Scalar::random();
    let Z = point_mul(&z, G);
    let X = point_add(&point_mul(&z, Q), &P);
    let Y = point_mul(&s, &X);
    let Qs = point_mul(&s, Q);
    let Qsz = point_mul(&z, &Qs);
    let v1: Vec<CurveVector> = vec![
        CurveVector { x: *G, y: *S },
        CurveVector { x: X, y: Y },
        CurveVector { x: *Q, y: Qs },
    ];
    assert(pair_views(v1@) =~= seq![(G@, S@), (X@, Y@), (Q@, Qs@)]);
    let t1 = single_tuple(v1);
    let pi_1 = create_zkplmt(t1.as_slice(), 0, s);
    let v2: Vec<CurveVector> = vec![CurveVector { x: *G, y: Z }, CurveVector { x: Qs, y: Qsz }];
    assert(pair_views(v2@) =~= seq![(G@, Z@), (Qs@, Qsz@)]);
    let t2 = single_tuple(v2);
    let pi_2 = create_zkplmt(t2.as_slice(), 0, z);
    let r = AP_Declaration_Of_Public_key { pi_1, pi_2, Z, X, Y, Qs, Qsz };
    assert(ap_key_made(r, p.value(), s.value(), G@, S@, Q@)) by {
        assert(r.Z@ == edwards_mul(z.value(), G@));
    }
    r
}

/// The declaration of an output's value to the auditor: for
/// `V = r * G + v * L` and a fresh `c`, it binds `W = r * Q`, `V_c = c * V`,
/// `W_c = c * W`, `L_cv = v * c * L` and `R_c = V_c - L_cv`.
#[derive(Clone, Debug)]
#[allow(non_camel_case_types, non_snake_case)]
pub struct AP_Declaration_Of_Value {
    pub W: Point,
    pub Wc: Point,
    pub Vc: Point,
    pub Lcv: Point,
    pub Rc: Point,
    pub alpha_1: Proof,
    pub sigma_1: Proof,
    pub sigma_2: Proof,
}

/// What the verifier accepts of a value declaration for the commitment
/// `V`: `sigma_1` for `[(V, V_c), (W, W_c)]`, `alpha_1` for `[(L, L_cv)]` and
/// `sigma_2` for `[(G, R_c), (Q, W_c)]`.
pub open spec fn ap_value_accepts(v: Seq<u8>, dec: AP_Declaration_Of_Value, g: Seq<u8>, l: Seq<u8>, q: Seq<u8>) -> bool {
    &&& accepts(seq![seq![(v, dec.Vc@), (dec.W@, dec.Wc@)]], dec.sigma_1.cs(), dec.sigma_1.ds())
    &&& accepts(seq![seq![(l, dec.Lcv@)]], dec.alpha_1.cs(), dec.alpha_1.ds())
    &&& accepts(seq![seq![(g, dec.Rc@), (q, dec.Wc@)]], dec.sigma_2.cs(), dec.sigma_2.ds())
}

impl AP_Declaration_Of_Value {
    /// `(W, W_c, V_c, L_cv, R_c)`.
    pub open spec fn points(&self) -> (Point, Point, Point, Point, Point) {
        (self.W, self.Wc, self.Vc, self.Lcv, self.Rc)
    }

    /// `(alpha_1, sigma_1, sigma_2)`.
    pub open spec fn proofs(&self) -> (Proof, Proof, Proof) {
        (self.alpha_1, self.sigma_1, self.sigma_2)
    }

    /// The declaration with points `(W, W_c, V_c, L_cv, R_c)` and proofs
    /// `(alpha_1, sigma_1, sigma_2)`.
    #[allow(non_snake_case)]
    pub fn from_parts(
        W: Point,
        Wc: Point,
        Vc: Point,
        Lcv: Point,
        Rc: Point,
        alpha_1: Proof,
        sigma_1: Proof,
        sigma_2: Proof,
    ) -> (r: Self)
        ensures
            r.points() == (W, Wc, Vc, Lcv, Rc),
            r.proofs() == (alpha_1, sigma_1, sigma_2),
    {
        AP_Declaration_Of_Value { W, Wc, Vc, Lcv, Rc, alpha_1, sigma_1, sigma_2 }
    }

    pub fn point_parts(&self) -> (r: (Point, Point, Point, Point, Point))
        ensures
            r == self.points(),
    {
        (self.W, self.Wc, self.Vc, self.Lcv, self.Rc)
    }

    pub fn alpha_1(&self) -> (r: &Proof)
        ensures
            *r == self.proofs().0,
    {
        &self.alpha_1
    }

    pub fn sigma_1(&self) -> (r: &Proof)
        ensures
            *r == self.proofs().1,
    {
        &self.sigma_1
    }

    pub fn sigma_2(&self) -> (r: &Proof)
        ensures
            *r == self.proofs().2,
    {
        &self.sigma_2
    }
}

#[allow(non_snake_case)]
fn verify_AP_declaration_of_value(V: &Point, dec: &AP_Declaration_Of_Value, G: &Point, L: &Point, Q: &Point) -> (r: bool)
    ensures
        r == ap_value_accepts(V@, *dec, G@, L@, Q@),
{
    let v1: Vec<CurveVector> = vec![CurveVector { x: *V, y: dec.Vc }, CurveVector { x: dec.W, y: dec.Wc }];
    assert(pair_views(v1@) =~= seq![(V@, dec.Vc@), (dec.W@, dec.Wc@)]);
    let v2: Vec<CurveVector> = vec![CurveVector { x: *L, y: dec.Lcv }];
    assert(pair_views(v2@) =~= seq![(L@, dec.Lcv@)]);
    let v3: Vec<CurveVector> = vec![CurveVector { x: *G, y: dec.Rc }, CurveVector { x: *Q, y: dec.Wc }];
    assert(pair_views(v3@) =~= seq![(G@, dec.Rc@), (Q@, dec.Wc@)]);
    let t1 = single_tuple(v1);
    let t2 = single_tuple(v2);
    let t3 = single_tuple(v3);
    verify_zkplmt(t1.as_slice(), &dec.sigma_1) && verify_zkplmt(t2.as_slice(), &dec.alpha_1)
        && verify_zkplmt(t3.as_slice(), &dec.sigma_2)
}

/// What `generate_AP_declaration_of_value` makes for `V = v L + r G`: for
/// some `c`, `W = r Q`, `V_c = c V`, `W_c = c W`, `L_cv = (v c) L` and
/// `R_c = V_c - L_cv`, with `sigma_1` made for `[(V, V_c), (W, W_c)]` and
/// secret `c`, `alpha_1` for `[(L, L_cv)]` and `v c`, and `sigma_2` for
/// `[(G, R_c), (Q, W_c)]` and `r c`.
pub open spec fn ap_value_made(dec: AP_Declaration_Of_Value, r: nat, v: nat, g: Seq<u8>, l: Seq<u8>, q: Seq<u8>) -> bool {
    let big_v = lin2(v, l, r, g);
    exists|c: nat|
        {
            &&& dec.W@ == edwards_mul(r, q)
            &&& dec.Vc@ == edwards_mul(c, big_v)
            &&& dec.Wc@ == edwards_mul(c, dec.W@)
            &&& dec.Lcv@ == edwards_mul((v * c) % ell(), l)
            &&& dec.Rc@ == edwards_sub(dec.Vc@, dec.Lcv@)
            &&& made_for(seq![seq![(big_v, dec.Vc@), (dec.W@, dec.Wc@)]], 0, c, dec.sigma_1.cs(), dec.sigma_1.ds())
            &&& made_for(seq![seq![(l, dec.Lcv@)]], 0, (v * c) % ell(), dec.alpha_1.cs(), dec.alpha_1.ds())
            &&& made_for(seq![seq![(g, dec.Rc@), (q, dec.Wc@)]], 0, (r * c) % ell(), dec.sigma_2.cs(), dec.sigma_2.ds())
        }
}

#[allow(non_snake_case)]
fn generate_AP_declaration_of_value(r: Scalar, v: Scalar, G: &Point, L: &Point, Q: &Point) -> (d: AP_Declaration_Of_Value)
    ensures
        ap_value_made(d, r.value(), v.value(), G@, L@, Q@),
{
    let W = point_mul(&r, Q);
    let V = lin_comb(&v, L, &r, G);
    let c = Scalar::random();
    let Vc = point_mul(&c, &V);
    let Wc = point_mul(&c, &W);
    let v1: Vec<CurveVector> = vec![CurveVector { x: V, y: Vc }, CurveVector { x: W, y: Wc }];
    assert(pair_views(v1@) =~= seq![(V@, Vc@), (W@, Wc@)]);
    let t1 = single_tuple(v1);
    let sigma_1 = create_zkplmt(t1.as_slice(), 0, c);
    let vc = sc_mul(v, c);
    let Lcv = point_mul(&vc, L);
    let v2: Vec<CurveVector> = vec![CurveVector { x: *L, y: Lcv }];
    assert(pair_views(v2@) =~= seq![(L@, Lcv@)]);
    let t2 = single_tuple(v2);
    let alpha_1 = create_zkplmt(t2.as_slice(), 0, vc);
    let Rc = point_sub(&Vc, &Lcv);
    let v3: Vec<CurveVector> = vec![CurveVector { x: *G, y: Rc }, CurveVector { x: *Q, y: Wc }];
    assert(pair_views(v3@) =~= seq![(G@, Rc@), (Q@, Wc@)]);
    let t3 = single_tuple(v3);
    let sigma_2 = create_zkplmt(t3.as_slice(), 0, sc_mul(r, c));
    let d = AP_Declaration_Of_Value { W, Wc, Vc, Lcv, Rc, alpha_1, sigma_1, sigma_2 };
    assert(ap_value_made(d, r.value(), v.value(), G@, L@, Q@)) by {
        assert(d.Vc@ == edwards_mul(c.value(), lin2(v.value(), L@, r.value(), G@)));
    }
    d
}

/// The point hashed from `C || D`.
#[allow(non_snake_case)]
fn get_edward_hash(C: &Point, D: &Point) -> (r: Option<Point>)
    ensures
        r is Some <==> hash_to_curve(C@ + D@) is Some,
        r is Some ==> r->0@ == hash_to_curve(C@ + D@)->0,
{
    let mut bytes: Vec<u8> = Vec::new();
    crate::point::push_point(&mut bytes, C);
    crate::point::push_point(&mut bytes, D);
    hash_to_edwards(bytes.as_slice())
}

/// A link of the spending-limit chain.
#[allow(non_snake_case)]
pub struct SpendingLimitProof {
    pub sources: Vec<SpendingLimitProof>,
    pub totalSpendingCommitment: Point,
    pub uniqueMarker: Point,
    pub C_: Point,
    pub D_: Point,
    pub alpha_2: Option<Proof>,
    pub gamma: Option<Proof>,
}

/// A summary of a chain link: its re-randomised key `(C, D)` and its total
/// spending commitment.
#[allow(non_snake_case)]
pub struct KYCSpendingLimitSource {
    pub C: Point,
    pub D: Point,
    pub totalSpendingCommitment: Point,
}

impl SpendingLimitProof {
    pub open spec fn source_count(&self) -> nat {
        self.sources@.len()
    }

    pub open spec fn c_point(&self) -> Point {
        self.C_
    }

    pub open spec fn d_point(&self) -> Point {
        self.D_
    }

    pub open spec fn has_proofs(&self) -> bool {
        self.alpha_2 is Some && self.gamma is Some
    }

    /// The re-randomisation and binding proofs.
    pub open spec fn link_proofs(&self) -> (Option<Proof>, Option<Proof>) {
        (self.alpha_2, self.gamma)
    }

    /// `(total spending commitment, unique marker, C', D')`.
    pub open spec fn points(&self) -> (Point, Point, Point, Point) {
        (self.totalSpendingCommitment, self.uniqueMarker, self.C_, self.D_)
    }

    /// The link with the given sources, points and proofs.
    #[allow(non_snake_case)]
    pub fn from_parts(
        sources: Vec<SpendingLimitProof>,
        totalSpendingCommitment: Point,
        uniqueMarker: Point,
        C_: Point,
        D_: Point,
        alpha_2: Option<Proof>,
        gamma: Option<Proof>,
    ) -> (r: Self)
        ensures
            r.source_count() == sources@.len(),
            r.points() == (totalSpendingCommitment, uniqueMarker, C_, D_),
            r.link_proofs() == (alpha_2, gamma),
    {
        SpendingLimitProof { sources, totalSpendingCommitment, uniqueMarker, C_, D_, alpha_2, gamma }
    }

    pub fn sources(&self) -> (r: &Vec<SpendingLimitProof>)
        ensures
            r@.len() == self.source_count(),
    {
        &self.sources
    }

    pub fn point_parts(&self) -> (r: (Point, Point, Point, Point))
        ensures
            r == self.points(),
    {
        (self.totalSpendingCommitment, self.uniqueMarker, self.C_, self.D_)
    }

    pub fn alpha_2(&self) -> (r: &Option<Proof>)
        ensures
            *r == self.link_proofs().0,
    {
        &self.alpha_2
    }

    pub fn gamma(&self) -> (r: &Option<Proof>)
        ensures
            *r == self.link_proofs().1,
    {
        &self.gamma
    }
}

/// The first link of a chain for key `p`: `C' = G`, `D' = p * G`, no
/// sources and no proofs. `None` only where `G` cannot be hashed to a point.
pub fn generate_starting_KYC_proof(p: Scalar) -> (r: Option<SpendingLimitProof>)
    ensures
        r is Some <==> hash_to_curve(xand_bytes()) is Some,
        r is Some ==> r->0.source_count() == 0 && !r->0.has_proofs(),
        r is Some ==> r->0.c_point()@ == hash_to_curve(xand_bytes())->0,
        r is Some ==> r->0.d_point()@ == edwards_mul(p.value(), hash_to_curve(xand_bytes())->0),
{
    let g = match get_G() {
        Some(g) => g,
        None => {
            return None;
        },
    };
    let id = Point::identity();
    Some(SpendingLimitProof {
        sources: Vec::new(),
        totalSpendingCommitment: id,
        uniqueMarker: id,
        C_: g,
        D_: point_mul(&p, &g),
        alpha_2: None,
        gamma: None,
    })
}

/// Every source's `C' || D'` hashes to a point.
pub open spec fn sources_hashable(src: Seq<SpendingLimitProof>) -> bool {
    forall|j: int| 0 <= j < src.len() ==> (#[trigger] hash_to_curve(src[j].C_@ + src[j].D_@)) is Some
}

/// The points hashed from each source's `C' || D'`.
pub open spec fn source_hash_views(src: Seq<SpendingLimitProof>) -> Seq<Seq<u8>> {
    Seq::new(src.len(), |j: int| hash_to_curve(src[j].C_@ + src[j].D_@)->0)
}

/// The one-pair tuples `(source.C', C')`.
pub open spec fn rerand_views(src: Seq<SpendingLimitProof>, c: Seq<u8>) -> Seq<Seq<(Seq<u8>, Seq<u8>)>> {
    Seq::new(src.len(), |j: int| seq![(src[j].C_@, c)])
}

/// The six-pair tuples `[(S, S'), (source.C', source.D'), (C', D'),
/// (source.D', E'), (A', B'), (hash_source, J)]` with
/// `E' = CC - source.TSC + V_0 - sum V`.
pub open spec fn chain_views(
    src: Seq<SpendingLimitProof>,
    hashes: Seq<Seq<u8>>,
    cc: Seq<u8>,
    v0: Seq<u8>,
    sum: Seq<u8>,
    c: Seq<u8>,
    d: Seq<u8>,
    a: Seq<u8>,
    b: Seq<u8>,
    jm: Seq<u8>,
    s: Seq<u8>,
    sp: Seq<u8>,
) -> Seq<Seq<(Seq<u8>, Seq<u8>)>> {
    Seq::new(
        src.len(),
        |j: int|
            seq![
                (s, sp),
                (src[j].C_@, src[j].D_@),
                (c, d),
                (src[j].D_@, edwards_sub(edwards_add(edwards_sub(cc, src[j].totalSpendingCommitment@), v0), sum)),
                (a, b),
                (hashes[j], jm),
            ],
    )
}

/// What the verifier accepts of a chain link against the recipient key
/// `(A', B')`, the output commitments `vt` and the `S`-vector: hashable
/// sources, the re-randomisation proof, at least one commitment, and the
/// binding proof; a link without the two proofs is not accepted.
pub open spec fn kyc_accepts(p: SpendingLimitProof, a: Seq<u8>, b: Seq<u8>, vt: Seq<Seq<u8>>, s: Seq<u8>, sp: Seq<u8>) -> bool {
    &&& sources_hashable(p.sources@)
    &&& p.alpha_2 is Some
    &&& p.gamma is Some
    &&& (p.alpha_2 matches Some(al) ==> accepts(rerand_views(p.sources@, p.C_@), al.cs(), al.ds()))
    &&& vt.len() >= 1
    &&& (p.gamma matches Some(gm) ==> accepts(
        chain_views(
            p.sources@,
            source_hash_views(p.sources@),
            p.totalSpendingCommitment@,
            vt[0],
            point_sum(vt),
            p.C_@,
            p.D_@,
            a,
            b,
            p.uniqueMarker@,
            s,
            sp,
        ),
        gm.cs(),
        gm.ds(),
    ))
}

/// The points hashed from each source's `C' || D'`.
fn source_hashes(sources: &[SpendingLimitProof]) -> (r: Option<Vec<Point>>)
    ensures
        r is Some <==> sources_hashable(sources@),
        r is Some ==> r->0@.len() == sources@.len(),
        r is Some ==> encodings(r->0@) == source_hash_views(sources@),
{
    let mut out: Vec<Point> = Vec::new();
    let mut j: usize = 0;
    while j < sources.len()
        invariant
            j <= sources@.len(),
            out@.len() == j,
            forall|q: int| 0 <= q < j ==> (#[trigger] hash_to_curve(sources@[q].C_@ + sources@[q].D_@)) is Some,
            forall|q: int| 0 <= q < j ==> (#[trigger] out@[q])@ == hash_to_curve(sources@[q].C_@ + sources@[q].D_@)->0,
        decreases sources@.len() - j,
    {
        match get_edward_hash(&sources[j].C_, &sources[j].D_) {
            Some(h) => out.push(h),
            None => {
                return None;
            },
        }
        j = j + 1;
    }
    assert(encodings(out@) =~= source_hash_views(sources@));
    Some(out)
}

/// The one-pair tuples `(source.C', C')` for the re-randomisation proof.
#[allow(non_snake_case)]
fn rerandomisation_tuples(sources: &[SpendingLimitProof], C_: &Point) -> (r: Vec<VectorTuple>)
    ensures
        r@.len() == sources@.len(),
        forall|j: int| 0 <= j < r@.len() ==> (#[trigger] r@[j]).values@.len() == 1,
        tuple_views(r@) == rerand_views(sources@, C_@),
{
    let mut out: Vec<VectorTuple> = Vec::new();
    let mut j: usize = 0;
    while j < sources.len()
        invariant
            j <= sources@.len(),
            out@.len() == j,
            forall|k: int| 0 <= k < out@.len() ==> (#[trigger] out@[k]).values@.len() == 1,
            forall|k: int| 0 <= k < out@.len() ==> #[trigger] pair_views(out@[k].values@) == seq![(sources@[k].C_@, C_@)],
        decreases sources@.len() - j,
    {
        let values: Vec<CurveVector> = vec![CurveVector { x: sources[j].C_, y: *C_ }];
        assert(pair_views(values@) =~= seq![(sources@[j as int].C_@, C_@)]);
        out.push(VectorTuple { values });
        j = j + 1;
    }
    assert(tuple_views(out@) =~= rerand_views(sources@, C_@));
    out
}

/// The six-pair tuples that bind each source to the new link.
#[allow(non_snake_case)]
fn chain_tuples(
    sources: &[SpendingLimitProof],
    hashes: &[Point],
    CC: &Point,
    V_: &Point,
    sum: &Point,
    C_: &Point,
    D_: &Point,
    A_: &Point,
    B_: &Point,
    J: &Point,
    S: &Point,
    Sp: &Point,
) -> (r: Vec<VectorTuple>)
    requires
        hashes@.len() == sources@.len(),
    ensures
        r@.len() == sources@.len(),
        forall|j: int| 0 <= j < r@.len() ==> (#[trigger] r@[j]).values@.len() == 6,
        tuple_views(r@) == chain_views(sources@, encodings(hashes@), CC@, V_@, sum@, C_@, D_@, A_@, B_@, J@, S@, Sp@),
{
    let ghost target = chain_views(sources@, encodings(hashes@), CC@, V_@, sum@, C_@, D_@, A_@, B_@, J@, S@, Sp@);
    let mut out: Vec<VectorTuple> = Vec::new();
    let mut j: usize = 0;
    while j < sources.len()
        invariant
            hashes@.len() == sources@.len(),
            target == chain_views(sources@, encodings(hashes@), CC@, V_@, sum@, C_@, D_@, A_@, B_@, J@, S@, Sp@),
            j <= sources@.len(),
            out@.len() == j,
            forall|k: int| 0 <= k < out@.len() ==> (#[trigger] out@[k]).values@.len() == 6,
            forall|k: int| 0 <= k < out@.len() ==> #[trigger] pair_views(out@[k].values@) == target[k],
        decreases sources@.len() - j,
    {
        let src = &sources[j];
        let e = point_sub(&point_add(&point_sub(CC, &src.totalSpendingCommitment), V_), sum);
        let values: Vec<CurveVector> = vec![
            CurveVector { x: *S, y: *Sp },
            CurveVector { x: src.C_, y: src.D_ },
            CurveVector { x: *C_, y: *D_ },
            CurveVector { x: src.D_, y: e },
            CurveVector { x: *A_, y: *B_ },
            CurveVector { x: hashes[j], y: *J },
        ];
        assert(pair_views(values@) =~= target[j as int]);
        out.push(VectorTuple { values });
        j = j + 1;
    }
    assert(tuple_views(out@) =~= target);
    out
}

/// Checks a chain link against the recipient key `(A', B')`, the output
/// commitments `Vt` and the `S`-vector.
#[allow(non_snake_case)]
fn verify_KYC_proof(proof: &SpendingLimitProof, A_: &Point, B_: &Point, Vt: &[Point], S: &Point, Sp: &Point) -> (r: bool)
    ensures
        r == kyc_accepts(*proof, A_@, B_@, encodings(Vt@), S@, Sp@),
{
    let hashes = match source_hashes(proof.sources.as_slice()) {
        Some(h) => h,
        None => {
            return false;
        },
    };
    let a_tuples = rerandomisation_tuples(proof.sources.as_slice(), &proof.C_);
    match &proof.alpha_2 {
        Some(al) => {
            if !verify_zkplmt(a_tuples.as_slice(), al) {
                return false;
            }
        },
        None => {
            return false;
        },
    }
    if Vt.len() == 0 {
        return false;
    }
    let V_ = Vt[0];
    let sum = sum_points(Vt);
    let tuples = chain_tuples(
        proof.sources.as_slice(),
        hashes.as_slice(),
        &proof.totalSpendingCommitment,
        &V_,
        &sum,
        &proof.C_,
        &proof.D_,
        A_,
        B_,
        &proof.uniqueMarker,
        S,
        Sp,
    );
    match &proof.gamma {
        Some(gam) => verify_zkplmt(tuples.as_slice(), gam),
        None => false,
    }
}

/// What `generate_KYC_proof` makes from `sources`, of which the spender
/// with key `p` owns number `k`: the sources themselves; for some `x`,
/// `C' = x C_k` and `D' = x D_k`; the marker `J = p H(C_k || D_k)`; the total
/// `CC = TSC_k + p D_k - V_0 + sum V`; `alpha_2` made for the
/// re-randomisation tuples at `k` with secret `x`, and `gamma` for the
/// binding tuples at `k` with secret `p`.
pub open spec fn kyc_made(
    link: SpendingLimitProof,
    sources: Seq<SpendingLimitProof>,
    a: Seq<u8>,
    b: Seq<u8>,
    vt: Seq<Seq<u8>>,
    s: Seq<u8>,
    sp: Seq<u8>,
    k: int,
    p: nat,
) -> bool {
    let src = sources[k];
    let hashes = source_hash_views(sources);
    &&& link.sources@ == sources
    &&& link.uniqueMarker@ == edwards_mul(p, hashes[k])
    &&& link.totalSpendingCommitment@ == edwards_add(
        edwards_sub(edwards_add(src.totalSpendingCommitment@, edwards_mul(p, src.D_@)), vt[0]),
        point_sum(vt),
    )
    &&& exists|x: nat|
        {
            &&& link.C_@ == edwards_mul(x, src.C_@)
            &&& link.D_@ == edwards_mul(x, src.D_@)
            &&& link.alpha_2 matches Some(al) && made_for(rerand_views(sources, link.C_@), k, x, al.cs(), al.ds())
        }
    &&& link.gamma matches Some(gm) && made_for(
        chain_views(
            sources,
            hashes,
            link.totalSpendingCommitment@,
            vt[0],
            point_sum(vt),
            link.C_@,
            link.D_@,
            a,
            b,
            link.uniqueMarker@,
            s,
            sp,
        ),
        k,
        p,
        gm.cs(),
        gm.ds(),
    )
}

/// Two links made with one key from sources whose spent entries have the
/// same `(C', D')` carry the same unique marker, which links the spends.
pub proof fn lemma_unique_marker_links_spends(
    l1: SpendingLimitProof,
    s1: Seq<SpendingLimitProof>,
    k1: int,
    l2: SpendingLimitProof,
    s2: Seq<SpendingLimitProof>,
    k2: int,
    a1: Seq<u8>,
    b1: Seq<u8>,
    v1: Seq<Seq<u8>>,
    t1: Seq<u8>,
    u1: Seq<u8>,
    a2: Seq<u8>,
    b2: Seq<u8>,
    v2: Seq<Seq<u8>>,
    t2: Seq<u8>,
    u2: Seq<u8>,
    p: nat,
)
    requires
        0 <= k1 < s1.len(),
        0 <= k2 < s2.len(),
        kyc_made(l1, s1, a1, b1, v1, t1, u1, k1, p),
        kyc_made(l2, s2, a2, b2, v2, t2, u2, k2, p),
        s1[k1].C_@ == s2[k2].C_@,
        s1[k1].D_@ == s2[k2].D_@,
    ensures
        l1.uniqueMarker@ == l2.uniqueMarker@,
{
}

/// Makes the next link of the chain from the candidate `sources`, of which
/// the spender, holding key `p`, owns number `k`.
#[allow(non_snake_case)]
fn generate_KYC_proof(
    sources: Vec<SpendingLimitProof>,
    A_: &Point,
    B_: &Point,
    Vt: &[Point],
    S: &Point,
    Sp: &Point,
    k: usize,
    p: Scalar,
) -> (r: Option<SpendingLimitProof>)
    requires
        k < sources@.len(),
        Vt@.len() >= 1,
    ensures
        r is Some <==> sources_hashable(sources@),
        r matches Some(l) ==> kyc_made(l, sources@, A_@, B_@, encodings(Vt@), S@, Sp@, k as int, p.value()),
{
    let ghost src0 = sources@;
    let C = sources[k].C_;
    let D = sources[k].D_;
    let E = point_mul(&p, &D);
    let hashes = match source_hashes(sources.as_slice()) {
        Some(h) => h,
        None => {
            return None;
        },
    };
    let J = point_mul(&p, &hashes[k]);
    let x = Scalar::random();
    let C_ = point_mul(&x, &C);
    let D_ = point_mul(&x, &D);
    let a_tuples = rerandomisation_tuples(sources.as_slice(), &C_);
    proof {
        assert forall|j: int| 0 <= j < a_tuples@.len() implies (#[trigger] a_tuples@[j]).values@.len()
            == a_tuples@[0].values@.len() by {}
    }
    let alpha_2 = create_zkplmt(a_tuples.as_slice(), k, x);
    let V_ = Vt[0];
    let sum = sum_points(Vt);
    let CC = point_add(&point_sub(&point_add(&sources[k].totalSpendingCommitment, &E), &V_), &sum);
    let tuples = chain_tuples(sources.as_slice(), hashes.as_slice(), &CC, &V_, &sum, &C_, &D_, A_, B_, &J, S, Sp);
    proof {
        assert forall|j: int| 0 <= j < tuples@.len() implies (#[trigger] tuples@[j]).values@.len()
            == tuples@[0].values@.len() by {}
    }
    let gamma = create_zkplmt(tuples.as_slice(), k, p);
    let link = SpendingLimitProof {
        sources,
        totalSpendingCommitment: CC,
        uniqueMarker: J,
        C_,
        D_,
        alpha_2: Some(alpha_2),
        gamma: Some(gamma),
    };
    proof {
        assert(hashes@[k as int]@ == source_hash_views(src0)[k as int]);
        assert(link.C_@ == edwards_mul(x.value(), src0[k as int].C_@));
    }
    Some(link)
}

/// A transaction.
#[allow(non_snake_case)]
pub struct Transaction {
    pub input_condidates: Vec<TransactionInputSet>,
    pub outputs: Vec<TransactionOutput>,
    pub key_images: Vec<Point>,
    pub Z: Point,
    pub pi: Proof,
    pub alpha: Proof,
    pub AP_public_key: Point,
    pub S_vector: CurveVector,
    pub AP_Declaration_Of_Public_key: AP_Declaration_Of_Public_key,
    pub AP_Declaration_Of_Value: Vec<AP_Declaration_Of_Value>,
    pub range_proof: BulletRangeProof,
    pub spendingLimitProof: SpendingLimitProof,
}

impl Transaction {
    #[allow(non_snake_case)]
    pub fn new(
        input_condidates: Vec<TransactionInputSet>,
        pAP_key: Point,
        outputs: Vec<TransactionOutput>,
        key_images: Vec<Point>,
        Z: Point,
        pi: Proof,
        alpha: Proof,
        AP_public_key: Point,
        S_vector: CurveVector,
        AP_Declaration_Of_Public_key: AP_Declaration_Of_Public_key,
        AP_Declaration_Of_Value: Vec<AP_Declaration_Of_Value>,
        range_proof: BulletRangeProof,
        spendingLimitProof: SpendingLimitProof,
    ) -> (r: Transaction)
        ensures
            r.output_list() == outputs@,
            r.range() == range_proof,
    {
        Transaction {
            input_condidates,
            outputs,
            key_images,
            Z,
            pi,
            alpha,
            AP_public_key,
            S_vector,
            AP_Declaration_Of_Public_key,
            AP_Declaration_Of_Value,
            range_proof,
            spendingLimitProof,
        }
    }

    pub open spec fn output_list(&self) -> Seq<TransactionOutput> {
        self.outputs@
    }

    pub open spec fn range(&self) -> BulletRangeProof {
        self.range_proof
    }

    #[allow(non_snake_case)]
    pub open spec fn z_point(&self) -> Point {
        self.Z
    }

    pub fn input_candidates(&self) -> (r: &Vec<TransactionInputSet>) {
        &self.input_condidates
    }

    pub fn key_images(&self) -> (r: &Vec<Point>) {
        &self.key_images
    }

    /// `(Z, AP public key)`.
    pub fn point_parts(&self) -> (r: (Point, Point))
        ensures
            r.0 == self.z_point(),
    {
        (self.Z, self.AP_public_key)
    }

    pub fn s_vector(&self) -> (r: CurveVector) {
        self.S_vector
    }

    pub fn pi(&self) -> (r: &Proof) {
        &self.pi
    }

    pub fn alpha(&self) -> (r: &Proof) {
        &self.alpha
    }

    pub fn public_key_declaration(&self) -> (r: &AP_Declaration_Of_Public_key) {
        &self.AP_Declaration_Of_Public_key
    }

    pub fn value_declarations(&self) -> (r: &Vec<AP_Declaration_Of_Value>) {
        &self.AP_Declaration_Of_Value
    }

    pub fn range_proof(&self) -> (r: &BulletRangeProof)
        ensures
            *r == self.range(),
    {
        &self.range_proof
    }

    pub fn spending_limit_proof(&self) -> (r: &SpendingLimitProof) {
        &self.spendingLimitProof
    }

    /// The outputs.
    pub fn outputs(&self) -> (r: &Vec<TransactionOutput>)
        ensures
            r@ == self.output_list(),
    {
        &self.outputs
    }

    /// The same transaction with output `i` replaced.
    pub fn with_output(self, i: usize, o: TransactionOutput) -> (r: Transaction)
        requires
            i < self.output_list().len(),
        ensures
            r.output_list() == self.output_list().update(i as int, o),
            r.range() == self.range(),
    {
        let mut t = self;
        t.outputs.set(i, o);
        t
    }
}

/// The point hashed from a component's one-time key `A || B`.
pub open spec fn comp_hash(c: TransactionOutput) -> Seq<u8> {
    hash_to_curve(c.public_key.0@ + c.public_key.1@)->0
}

/// Every component's `A || B` hashes to a point.
pub open spec fn comps_hashable(sets: Seq<TransactionInputSet>) -> bool {
    forall|j: int, i: int|
        0 <= j < sets.len() && 0 <= i < sets[j].components@.len() ==> (#[trigger] hash_to_curve(
            sets[j].components@[i].public_key.0@ + sets[j].components@[i].public_key.1@,
        )) is Some
}

/// The encodings of the commitments of some outputs.
pub open spec fn commitment_views(c: Seq<TransactionOutput>) -> Seq<Seq<u8>> {
    c.map_values(|o: TransactionOutput| o.commitment@)
}

/// Every candidate set has `n` components.
pub open spec fn sets_match(sets: Seq<TransactionInputSet>, n: nat) -> bool {
    forall|j: int| 0 <= j < sets.len() ==> (#[trigger] sets[j]).components@.len() == n
}

/// The ring tuple of one candidate set: its keys `(A, B)`, the key-image
/// pairs `(H(A || B), I)`, the `S`-vector, and `(Z, sum of the set's
/// commitments - sum of the outputs')`.
pub open spec fn set_pairs(
    set: TransactionInputSet,
    ki: Seq<Seq<u8>>,
    sv: (Seq<u8>, Seq<u8>),
    z: Seq<u8>,
    sum_out: Seq<u8>,
) -> Seq<(Seq<u8>, Seq<u8>)> {
    let c = set.components@;
    Seq::new(c.len(), |i: int| (c[i].public_key.0@, c[i].public_key.1@)) + Seq::new(
        c.len(),
        |i: int| (comp_hash(c[i]), ki[i]),
    ) + seq![sv, (z, edwards_sub(point_sum(commitment_views(c)), sum_out))]
}

/// The ring tuples of all candidate sets.
pub open spec fn ring_views(
    sets: Seq<TransactionInputSet>,
    ki: Seq<Seq<u8>>,
    sv: (Seq<u8>, Seq<u8>),
    z: Seq<u8>,
    sum_out: Seq<u8>,
) -> Seq<Seq<(Seq<u8>, Seq<u8>)>> {
    Seq::new(sets.len(), |j: int| set_pairs(sets[j], ki, sv, z, sum_out))
}

/// The points hashed from `A || B` for each component of each set.
fn input_hashes(inputs: &[TransactionInputSet]) -> (r: Option<Vec<Vec<Point>>>)
    ensures
        r is Some <==> comps_hashable(inputs@),
        r is Some ==> r->0@.len() == inputs@.len(),
        r is Some ==> forall|j: int| 0 <= j < inputs@.len() ==> (#[trigger] r->0@[j])@.len() == inputs@[j].components@.len(),
        r is Some ==> forall|j: int, i: int|
            0 <= j < inputs@.len() && 0 <= i < inputs@[j].components@.len() ==> (#[trigger] r->0@[j]@[i])@ == comp_hash(
                inputs@[j].components@[i],
            ),
{
    let mut out: Vec<Vec<Point>> = Vec::new();
    let mut j: usize = 0;
    while j < inputs.len()
        invariant
            j <= inputs@.len(),
            out@.len() == j,
            forall|k: int| 0 <= k < j ==> (#[trigger] out@[k])@.len() == inputs@[k].components@.len(),
            forall|k: int, i: int|
                0 <= k < j && 0 <= i < inputs@[k].components@.len() ==> (#[trigger] out@[k]@[i])@ == comp_hash(
                    inputs@[k].components@[i],
                ),
            forall|k: int, i: int|
                0 <= k < j && 0 <= i < inputs@[k].components@.len() ==> (#[trigger] hash_to_curve(
                    inputs@[k].components@[i].public_key.0@ + inputs@[k].components@[i].public_key.1@,
                )) is Some,
        decreases inputs@.len() - j,
    {
        let comps = &inputs[j].components;
        let mut list: Vec<Point> = Vec::new();
        let mut i: usize = 0;
        while i < comps.len()
            invariant
                j < inputs@.len(),
                comps@ == inputs@[j as int].components@,
                i <= comps@.len(),
                list@.len() == i,
                forall|q: int| 0 <= q < i ==> (#[trigger] list@[q])@ == comp_hash(comps@[q]),
                forall|q: int| 0 <= q < i ==> (#[trigger] hash_to_curve(comps@[q].public_key.0@ + comps@[q].public_key.1@)) is Some,
            decreases comps@.len() - i,
        {
            let pk = comps[i].public_key;
            match get_edward_hash(&pk.0, &pk.1) {
                Some(h) => list.push(h),
                None => {
                    assert(!comps_hashable(inputs@)) by {
                        assert(hash_to_curve(
                            inputs@[j as int].components@[i as int].public_key.0@ + inputs@[j as int].components@[i as int].public_key.1@,
                        ) is None);
                    }
                    return None;
                },
            }
            i = i + 1;
        }
        out.push(list);
        j = j + 1;
    }
    Some(out)
}

/// The sum of the commitments of a set of outputs.
fn sum_commitments(c: &[TransactionOutput]) -> (r: Point)
    ensures
        r@ == point_sum(commitment_views(c@)),
{
    let mut v: Vec<Point> = Vec::new();
    let mut i: usize = 0;
    while i < c.len()
        invariant
            i <= c@.len(),
            v@.len() == i,
            forall|k: int| 0 <= k < i ==> (#[trigger] v@[k]) == c@[k].commitment,
        decreases c@.len() - i,
    {
        v.push(c[i].commitment);
        i = i + 1;
    }
    let r = sum_points(v.as_slice());
    assert(encodings(v@) =~= commitment_views(c@));
    r
}

/// The ring tuple of one candidate set.
#[allow(non_snake_case)]
fn input_tuple(input: &TransactionInputSet, hashes: &Vec<Point>, key_images: &Vec<Point>, S_vector: &CurveVector, Z: &Point, sum_output: &Point) -> (r: VectorTuple)
    requires
        hashes@.len() == input.components@.len(),
        key_images@.len() == input.components@.len(),
        forall|i: int| 0 <= i < hashes@.len() ==> (#[trigger] hashes@[i])@ == comp_hash(input.components@[i]),
    ensures
        r.values@.len() == 2 * input.components@.len() + 2,
        pair_views(r.values@) == set_pairs(*input, encodings(key_images@), (S_vector.x@, S_vector.y@), Z@, sum_output@),
{
    let comps = &input.components;
    let ghost c = comps@;
    let ghost keys = Seq::new(c.len(), |i: int| (c[i].public_key.0@, c[i].public_key.1@));
    let ghost imgs = Seq::new(c.len(), |i: int| (comp_hash(c[i]), encodings(key_images@)[i]));
    let mut values: Vec<CurveVector> = Vec::new();
    let mut i: usize = 0;
    while i < comps.len()
        invariant
            c == comps@,
            keys == Seq::new(c.len(), |i: int| (c[i].public_key.0@, c[i].public_key.1@)),
            i <= comps@.len(),
            values@.len() == i,
            pair_views(values@) =~= keys.take(i as int),
        decreases comps@.len() - i,
    {
        values.push(CurveVector { x: comps[i].public_key.0, y: comps[i].public_key.1 });
        i = i + 1;
    }
    let mut k: usize = 0;
    while k < comps.len()
        invariant
            c == comps@,
            keys == Seq::new(c.len(), |i: int| (c[i].public_key.0@, c[i].public_key.1@)),
            imgs == Seq::new(c.len(), |i: int| (comp_hash(c[i]), encodings(key_images@)[i])),
            hashes@.len() == comps@.len(),
            key_images@.len() == comps@.len(),
            forall|i: int| 0 <= i < hashes@.len() ==> (#[trigger] hashes@[i])@ == comp_hash(c[i]),
            k <= comps@.len(),
            values@.len() == comps@.len() + k,
            pair_views(values@) =~= keys + imgs.take(k as int),
        decreases comps@.len() - k,
    {
        let ghost before = values@;
        values.push(CurveVector { x: hashes[k], y: key_images[k] });
        proof {
            assert(values@ == before.push(CurveVector { x: hashes@[k as int], y: key_images@[k as int] }));
            assert(pair_views(values@) =~= pair_views(before).push((hashes@[k as int]@, key_images@[k as int]@)));
            assert(encodings(key_images@)[k as int] == key_images@[k as int]@);
            assert(imgs.take(k as int + 1) =~= imgs.take(k as int).push(imgs[k as int]));
        }
        k = k + 1;
    }
    let ghost before2 = values@;
    values.push(*S_vector);
    let sum_input = sum_commitments(comps.as_slice());
    let last = CurveVector { x: *Z, y: point_sub(&sum_input, sum_output) };
    values.push(last);
    proof {
        assert(imgs.take(c.len() as int) =~= imgs);
        assert(values@ == before2.push(*S_vector).push(last));
        assert(pair_views(values@) =~= pair_views(before2).push((S_vector.x@, S_vector.y@)).push((Z@, last.y@)));
        assert(pair_views(values@) =~= set_pairs(*input, encodings(key_images@), (S_vector.x@, S_vector.y@), Z@, sum_output@));
    }
    VectorTuple { values }
}

/// Every candidate set has as many components as the first.
pub open spec fn uniform_sets(inputs: Seq<TransactionInputSet>) -> bool {
    &&& inputs.len() >= 1
    &&& forall|j: int| 0 <= j < inputs.len() ==> (#[trigger] inputs[j]).components@.len() == inputs[0].components@.len()
}

/// The ring tuples of all candidate sets; `None` where a set is not as
/// large as the key images.
#[allow(non_snake_case)]
fn ring_tuples(inputs: &[TransactionInputSet], hashes: &Vec<Vec<Point>>, key_images: &Vec<Point>, S_vector: &CurveVector, Z: &Point, sum_output: &Point) -> (r: Option<Vec<VectorTuple>>)
    requires
        hashes@.len() == inputs@.len(),
        forall|j: int| 0 <= j < inputs@.len() ==> (#[trigger] hashes@[j])@.len() == inputs@[j].components@.len(),
        forall|j: int, i: int|
            0 <= j < inputs@.len() && 0 <= i < inputs@[j].components@.len() ==> (#[trigger] hashes@[j]@[i])@ == comp_hash(
                inputs@[j].components@[i],
            ),
    ensures
        r is Some <==> sets_match(inputs@, key_images@.len()),
        r is Some ==> r->0@.len() == inputs@.len(),
        r is Some ==> forall|j: int| 0 <= j < inputs@.len() ==> (#[trigger] r->0@[j]).values@.len() == 2 * key_images@.len() + 2,
        r is Some ==> tuple_views(r->0@) == ring_views(inputs@, encodings(key_images@), (S_vector.x@, S_vector.y@), Z@, sum_output@),
{
    let ghost target = ring_views(inputs@, encodings(key_images@), (S_vector.x@, S_vector.y@), Z@, sum_output@);
    let mut out: Vec<VectorTuple> = Vec::new();
    let mut j: usize = 0;
    while j < inputs.len()
        invariant
            hashes@.len() == inputs@.len(),
            forall|j: int| 0 <= j < inputs@.len() ==> (#[trigger] hashes@[j])@.len() == inputs@[j].components@.len(),
            forall|j: int, i: int|
                0 <= j < inputs@.len() && 0 <= i < inputs@[j].components@.len() ==> (#[trigger] hashes@[j]@[i])@ == comp_hash(
                    inputs@[j].components@[i],
                ),
            target == ring_views(inputs@, encodings(key_images@), (S_vector.x@, S_vector.y@), Z@, sum_output@),
            j <= inputs@.len(),
            out@.len() == j,
            forall|k: int| 0 <= k < j ==> (#[trigger] inputs@[k]).components@.len() == key_images@.len(),
            forall|k: int| 0 <= k < j ==> (#[trigger] out@[k]).values@.len() == 2 * key_images@.len() + 2,
            forall|k: int| 0 <= k < j ==> #[trigger] pair_views(out@[k].values@) == target[k],
        decreases inputs@.len() - j,
    {
        if inputs[j].components.len() != key_images.len() {
            return None;
        }
        let t = input_tuple(&inputs[j], &hashes[j], key_images, S_vector, Z, sum_output);
        out.push(t);
        j = j + 1;
    }
    assert(tuple_views(out@) =~= target);
    Some(out)
}

/// What the verifier accepts of a transaction: the proof that `Z` is a
/// multiple of `G`; hashable input keys; candidate sets as large as the key
/// images; the auditor declarations; outputs whose commitments are those
/// of the range proof, which holds; the spending-limit link against the
/// first output's key; and the ring proof over the candidate sets.
pub open spec fn transaction_accepts(tx: Transaction, bases: Bases) -> bool {
    let xg = hash_to_curve(xand_bytes());
    let xl = hash_to_curve(systems_bytes());
    let g = xg->0;
    let l = xl->0;
    let outs = tx.outputs@;
    let n = outs.len();
    let decls = tx.AP_Declaration_Of_Value@;
    let sum_out = point_sum(commitment_views(outs));
    &&& xg is Some
    &&& accepts(seq![seq![(g, tx.Z@)]], tx.alpha.cs(), tx.alpha.ds())
    &&& comps_hashable(tx.input_condidates@)
    &&& sets_match(tx.input_condidates@, tx.key_images@.len())
    &&& ap_key_accepts(tx.AP_Declaration_Of_Public_key, g, tx.S_vector.x@, tx.AP_public_key@)
    &&& xl is Some
    &&& values_declared(outs, decls, g, l, tx.AP_public_key@)
    &&& n >= 1
    &&& n <= tx.range_proof.vs().len()
    &&& forall|i: int| 0 <= i < n ==> (#[trigger] outs[i]).commitment@ == tx.range_proof.vs()[i]@
    &&& range_accepts(tx.range_proof, bases, None, 0)
    &&& kyc_accepts(
        tx.spendingLimitProof,
        outs[0].public_key.0@,
        outs[0].public_key.1@,
        commitment_views(outs),
        tx.S_vector.x@,
        tx.S_vector.y@,
    )
    &&& accepts(
        ring_views(tx.input_condidates@, encodings(tx.key_images@), (tx.S_vector.x@, tx.S_vector.y@), tx.Z@, sum_out),
        tx.pi.cs(),
        tx.pi.ds(),
    )
}

/// There is one value declaration per output, and each holds.
pub open spec fn values_declared(
    outs: Seq<TransactionOutput>,
    decls: Seq<AP_Declaration_Of_Value>,
    g: Seq<u8>,
    l: Seq<u8>,
    q: Seq<u8>,
) -> bool {
    &&& decls.len() == outs.len()
    &&& forall|i: int| 0 <= i < outs.len() ==> ap_value_accepts((#[trigger] outs[i]).commitment@, decls[i], g, l, q)
}

/// Checks that each output has one value declaration, and that it holds.
#[allow(non_snake_case)]
fn verify_value_declarations(
    outputs: &[TransactionOutput],
    decls: &[AP_Declaration_Of_Value],
    G: &Point,
    L: &Point,
    Q: &Point,
) -> (r: bool)
    ensures
        r == values_declared(outputs@, decls@, G@, L@, Q@),
{
    let n = outputs.len();
    if decls.len() != n {
        return false;
    }
    let mut i: usize = 0;
    while i < n && i < decls.len()
        invariant
            n == outputs@.len(),
            i <= n,
            i <= decls@.len(),
            forall|k: int| 0 <= k < i ==> ap_value_accepts((#[trigger] outputs@[k]).commitment@, decls@[k], G@, L@, Q@),
        decreases n - i,
    {
        if !verify_AP_declaration_of_value(&outputs[i].commitment, &decls[i], G, L, Q) {
            return false;
        }
        i = i + 1;
    }
    true
}

/// What every accepted transaction satisfies: it has outputs, and each
/// output's commitment is the range proof's commitment at its place.
pub open spec fn transaction_shape(tx: Transaction, bases: Bases) -> bool {
    &&& tx.output_list().len() >= 1
    &&& tx.output_list().len() <= tx.range().vs().len()
    &&& forall|i: int| 0 <= i < tx.output_list().len() ==> (#[trigger] tx.output_list()[i]).commitment@ == tx.range().vs()[i]@
    &&& range_shape(tx.range(), bases)
}

/// Checks a transaction.
#[allow(non_snake_case)]
pub fn verify_transaction(transaction: &Transaction, bases: Bases) -> (r: bool)
    ensures
        r == transaction_accepts(*transaction, bases),
        r ==> transaction_shape(*transaction, bases),
{
    let ghost b = bases;
    let G = match get_G() {
        Some(g) => g,
        None => {
            return false;
        },
    };
    let va: Vec<CurveVector> = vec![CurveVector { x: G, y: transaction.Z }];
    assert(pair_views(va@) =~= seq![(G@, transaction.Z@)]);
    let alpha_tuple = single_tuple(va);
    if !verify_zkplmt(alpha_tuple.as_slice(), &transaction.alpha) {
        return false;
    }
    let H = match input_hashes(transaction.input_condidates.as_slice()) {
        Some(h) => h,
        None => {
            return false;
        },
    };
    let sum_output = sum_commitments(transaction.outputs.as_slice());
    let tuples = match ring_tuples(
        transaction.input_condidates.as_slice(),
        &H,
        &transaction.key_images,
        &transaction.S_vector,
        &transaction.Z,
        &sum_output,
    ) {
        Some(t) => t,
        None => {
            return false;
        },
    };
    if !verify_AP_declaration_of_public_key(
        &transaction.AP_Declaration_Of_Public_key,
        &G,
        &transaction.S_vector.x,
        &transaction.AP_public_key,
    ) {
        return false;
    }
    let L = match get_L() {
        Some(l) => l,
        None => {
            return false;
        },
    };
    let n = transaction.outputs.len();
    if !verify_value_declarations(
        transaction.outputs.as_slice(),
        transaction.AP_Declaration_Of_Value.as_slice(),
        &G,
        &L,
        &transaction.AP_public_key,
    ) {
        return false;
    }
    if n == 0 || n > transaction.range_proof.commitments().len() {
        return false;
    }
    let rv = transaction.range_proof.commitments();
    let mut out_comms: Vec<Point> = Vec::new();
    let mut k: usize = 0;
    while k < n
        invariant
            n == transaction.outputs@.len(),
            n <= rv@.len(),
            rv@ == transaction.range_proof.vs(),
            k <= n,
            out_comms@.len() == k,
            forall|t: int| 0 <= t < k ==> (#[trigger] out_comms@[t]) == transaction.outputs@[t].commitment,
            forall|t: int| 0 <= t < k ==> (#[trigger] transaction.outputs@[t]).commitment@ == rv@[t]@,
        decreases n - k,
    {
        let com = transaction.outputs[k].commitment;
        out_comms.push(com);
        if !com.equals(&rv[k]) {
            return false;
        }
        k = k + 1;
    }
    assert(encodings(out_comms@) =~= commitment_views(transaction.outputs@));
    if !bullet_range_verify(&transaction.range_proof, bases) {
        return false;
    }
    proof {
        lemma_range_accepts_shape(transaction.range_proof, b, None, 0);
    }
    if !verify_KYC_proof(
        &transaction.spendingLimitProof,
        &transaction.outputs[0].public_key.0,
        &transaction.outputs[0].public_key.1,
        out_comms.as_slice(),
        &transaction.S_vector.x,
        &transaction.S_vector.y,
    ) {
        return false;
    }
    verify_zkplmt(tuples.as_slice(), &transaction.pi)
}

/// The balance of blinding factors: the outputs' factors `ro` and `p * z`
/// add up to the inputs' factors `ri`, modulo `ell`.
pub open spec fn blinding_balanced(ro: Seq<Scalar>, ri: Seq<Scalar>, p: nat, z: nat) -> bool {
    (sum_values(ro) + p * z) % (ell() as int) == sum_values(ri) % (ell() as int)
}

/// Random output blinding factors that balance `ri` against `p * z`.
#[verifier::spinoff_prover]
#[verifier::rlimit(40)]
fn balanced_blindings(ri: &[Scalar], n: usize, p: Scalar, z: Scalar) -> (ro: Vec<Scalar>)
    requires
        n >= 1,
    ensures
        ro@.len() == n,
        blinding_balanced(ro@, ri@, p.value(), z.value()),
{
    let mut ro: Vec<Scalar> = Vec::new();
    let mut i: usize = 0;
    while i < n
        invariant
            i <= n,
            ro@.len() == i,
            forall|k: int| 0 <= k < i ==> (#[trigger] ro@[k]).value() < ell(),
        decreases n - i,
    {
        ro.push(Scalar::random());
        i = i + 1;
    }
    let sri = sum_scalars(ri);
    let sro = sum_scalars(ro.as_slice());
    let zp = sc_mul(z, p);
    let diff = sc_sub(sri, sro);
    let r0 = ro[0];
    let new0 = sc_add(r0, sc_sub(diff, zp));
    let ghost old_ro = ro@;
    ro.set(0, new0);
    proof {
        let m = ell() as int;
        lemma_sum_values_update(old_ro, 0, new0);
        let a = sum_values(old_ro);
        let b = sum_values(ri@);
        let pz = (p.value() * z.value()) as int;
        let x = r0.value() as int;
        assert(zp.value() == pz % m) by {
            assert(z.value() * p.value() == p.value() * z.value()) by (nonlinear_arith);
        }
        // new0 = x + ((b - a) - pz) (mod m)
        vstd::arithmetic::div_mod::lemma_sub_mod_noop(b, a, m);
        vstd::arithmetic::div_mod::lemma_sub_mod_noop(b - a, pz, m);
        vstd::arithmetic::div_mod::lemma_mod_twice(b - a, m);
        vstd::arithmetic::div_mod::lemma_sub_mod_noop(diff.value() as int, pz, m);
        vstd::arithmetic::div_mod::lemma_mod_twice(pz, m);
        vstd::arithmetic::div_mod::lemma_small_mod(diff.value(), ell());
        vstd::arithmetic::div_mod::lemma_small_mod(x as nat, ell());
        vstd::arithmetic::div_mod::lemma_add_mod_noop(x, (diff.value() - zp.value()) % m, m);
        vstd::arithmetic::div_mod::lemma_add_mod_noop(x, diff.value() - zp.value(), m);
        vstd::arithmetic::div_mod::lemma_mod_twice(diff.value() - zp.value(), m);
        assert(new0.value() as int == (x + (b - a - pz)) % m);
        // sum(ro) + pz = a - x + new0 + pz = b (mod m)
        vstd::arithmetic::div_mod::lemma_add_mod_noop(a - x + pz, x + (b - a - pz), m);
        vstd::arithmetic::div_mod::lemma_mod_twice(x + (b - a - pz), m);
        vstd::arithmetic::div_mod::lemma_add_mod_noop(a - x + pz, new0.value() as int, m);
        assert(sum_values(ro@) == a - x + new0.value());
    }
    ro
}

/// The commitments `v * L + r * G` of the outputs.
#[allow(non_snake_case)]
fn output_commitments(ro: &[Scalar], vo: &[u64], G: &Point, L: &Point) -> (r: Vec<Point>)
    requires
        ro@.len() == vo@.len(),
    ensures
        r@.len() == vo@.len(),
        forall|i: int| 0 <= i < vo@.len() ==> (#[trigger] r@[i])@ == lin2(vo@[i] as nat, L@, ro@[i].value(), G@),
{
    let mut out: Vec<Point> = Vec::new();
    let mut i: usize = 0;
    while i < vo.len()
        invariant
            ro@.len() == vo@.len(),
            i <= vo@.len(),
            out@.len() == i,
            forall|k: int| 0 <= k < i ==> (#[trigger] out@[k])@ == lin2(vo@[k] as nat, L@, ro@[k].value(), G@),
        decreases vo@.len() - i,
    {
        out.push(lin_comb(&sc_from_u64(vo[i]), L, &ro[i], G));
        i = i + 1;
    }
    out
}

/// The output commitments `v_i L + r_i G`, by encodings.
pub open spec fn out_views(vo: Seq<u64>, ro: Seq<Scalar>, g: Seq<u8>, l: Seq<u8>) -> Seq<Seq<u8>> {
    Seq::new(vo.len(), |i: int| lin2(vo[i] as nat, l, ro[i].value(), g))
}

/// The candidate sets are those of `inputs` in a shuffled order, and `pi`
/// is made with secret `p` for the ring tuples at the new place of
/// `inputs[0]`.
pub open spec fn ring_made(tx: Transaction, inputs: Seq<TransactionInputSet>, p: nat, sum_out: Seq<u8>) -> bool {
    exists|perm: Seq<int>, idx: int|
        {
            &&& is_permutation(perm, inputs.len() as int)
            &&& 0 <= idx < inputs.len()
            &&& perm[idx] == 0
            &&& tx.input_condidates@.len() == inputs.len()
            &&& forall|q: int|
                0 <= q < inputs.len() ==> (#[trigger] tx.input_condidates@[q]).components@ == inputs[perm[q]].components@
            &&& made_for(
                ring_views(
                    tx.input_condidates@,
                    encodings(tx.key_images@),
                    (tx.S_vector.x@, tx.S_vector.y@),
                    tx.Z@,
                    sum_out,
                ),
                idx,
                p,
                tx.pi.cs(),
                tx.pi.ds(),
            )
        }
}

/// The spending-limit link is made from the sources `kyc` in a shuffled
/// order, at the new place of `kyc[0]`, against the first output key and
/// the output commitments `ov`.
pub open spec fn link_made(tx: Transaction, kyc: Seq<SpendingLimitProof>, key: (Point, Point), ov: Seq<Seq<u8>>, p: nat) -> bool {
    exists|perm: Seq<int>, k: int|
        {
            &&& is_permutation(perm, kyc.len() as int)
            &&& permuted(tx.spendingLimitProof.sources@, kyc, perm)
            &&& 0 <= k < kyc.len()
            &&& perm[k] == 0
            &&& kyc_made(
                tx.spendingLimitProof,
                tx.spendingLimitProof.sources@,
                key.0@,
                key.1@,
                ov,
                tx.S_vector.x@,
                tx.S_vector.y@,
                k,
                p,
            )
        }
}

/// What `create_transaction` makes, given the output blinding factors `ro`
/// and the scalar `z` it drew.
pub open spec fn made_with(
    tx: Transaction,
    inputs: Seq<TransactionInputSet>,
    ri: Seq<Scalar>,
    vo: Seq<u64>,
    keys: Seq<(Point, Point)>,
    p: nat,
    ap: Point,
    kyc: Seq<SpendingLimitProof>,
    bases: Bases,
    g: Seq<u8>,
    l: Seq<u8>,
    ro: Seq<Scalar>,
    z: nat,
) -> bool {
    let ov = out_views(vo, ro, g, l);
    &&& ro.len() == vo.len()
    &&& blinding_balanced(ro, ri, p, z)
    &&& tx.Z@ == edwards_mul(z, g)
    &&& made_for(seq![seq![(g, tx.Z@)]], 0, z, tx.alpha.cs(), tx.alpha.ds())
    &&& tx.outputs@.len() == if vo.len() < keys.len() {
        vo.len()
    } else {
        keys.len()
    }
    &&& forall|i: int|
        0 <= i < tx.outputs@.len() ==> {
            &&& (#[trigger] tx.outputs@[i]).commitment@ == ov[i]
            &&& tx.outputs@[i].public_key == keys[i]
        }
    &&& tx.AP_Declaration_Of_Value@.len() == vo.len()
    &&& forall|i: int|
        0 <= i < vo.len() ==> ap_value_made(#[trigger] tx.AP_Declaration_Of_Value@[i], ro[i].value(), vo[i] as nat, g, l, ap@)
    &&& tx.range_proof.vs().len() >= vo.len()
    &&& forall|i: int| 0 <= i < vo.len() ==> (#[trigger] tx.range_proof.vs()[i])@ == commitment(bases, vo[i] as nat, ro[i].value())
    &&& ring_made(tx, inputs, p, point_sum(ov))
    &&& link_made(tx, kyc, keys[0], ov, p)
}

/// What `create_transaction` promises of its result: the auditor key; key
/// images `p H(A_k || B_k)` of the spent set; the `S`-vector `(s G, p s G)`
/// with its declaration; and, for some output blinding factors balancing
/// the inputs' against `p z` with `Z = z G`, the outputs, value
/// declarations, range commitments, ring proof and spending-limit link.
pub open spec fn transaction_made(
    tx: Transaction,
    inputs: Seq<TransactionInputSet>,
    ri: Seq<Scalar>,
    vo: Seq<u64>,
    keys: Seq<(Point, Point)>,
    p: nat,
    ap: Point,
    kyc: Seq<SpendingLimitProof>,
    bases: Bases,
    g: Seq<u8>,
    l: Seq<u8>,
) -> bool {
    &&& tx.AP_public_key == ap
    &&& tx.key_images@.len() == inputs[0].components@.len()
    &&& forall|k: int|
        0 <= k < tx.key_images@.len() ==> (#[trigger] tx.key_images@[k])@ == edwards_mul(p, comp_hash(inputs[0].components@[k]))
    &&& tx.S_vector.y@ == edwards_mul(p, tx.S_vector.x@)
    &&& exists|s: nat| tx.S_vector.x@ == edwards_mul(s, g) && ap_key_made(tx.AP_Declaration_Of_Public_key, p, s, g, tx.S_vector.x@, ap@)
    &&& exists|ro: Seq<Scalar>, z: nat| made_with(tx, inputs, ri, vo, keys, p, ap, kyc, bases, g, l, ro, z)
}

/// Spends the candidate set `inputs[0]`, whose one-time keys are `p`
/// multiples and whose commitments' blinding factors are `ri`, to outputs
/// of values `vo` under `output_pub_keys`; discloses to the auditor key
/// `AP_public_key` and extends the spending-limit chain from
/// `kyc_sources`, of which the first is the spender's. `None` exactly
/// where one of the hashes to the curve fails.
#[allow(non_snake_case)]
#[verifier::spinoff_prover]
#[verifier::rlimit(100)]
pub fn create_transaction(
    inputs: Vec<TransactionInputSet>,
    ri: Vec<Scalar>,
    vo: Vec<u64>,
    output_pub_keys: Vec<(Point, Point)>,
    p: Scalar,
    AP_public_key: Point,
    kyc_sources: Vec<SpendingLimitProof>,
    bases: Bases,
) -> (r: Option<Transaction>)
    requires
        uniform_sets(inputs@),
        vo@.len() >= 1,
        output_pub_keys@.len() >= 1,
        kyc_sources@.len() >= 1,
        range_inputs_ok(vo@.len(), vo@.len(), bases),
    ensures
        r is Some <==> (hash_to_curve(xand_bytes()) is Some && hash_to_curve(systems_bytes()) is Some
            && comps_hashable(inputs@) && sources_hashable(kyc_sources@)),
        r is Some ==> transaction_made(
            r->0,
            inputs@,
            ri@,
            vo@,
            output_pub_keys@,
            p.value(),
            AP_public_key,
            kyc_sources@,
            bases,
            hash_to_curve(xand_bytes())->0,
            hash_to_curve(systems_bytes())->0,
        ),
{
    let ghost kyc0 = kyc_sources@;
    let G = match get_G() {
        Some(g) => g,
        None => {
            return None;
        },
    };
    let L = match get_L() {
        Some(l) => l,
        None => {
            return None;
        },
    };
    let H = match input_hashes(inputs.as_slice()) {
        Some(h) => h,
        None => {
            return None;
        },
    };
    if source_hashes(kyc_sources.as_slice()).is_none() {
        return None;
    }
    let z = Scalar::random();
    let s = Scalar::random();
    let Z = point_mul(&z, &G);
    let S = point_mul(&s, &G);
    let Sp = point_mul(&p, &S);
    let Q = AP_public_key;
    let S_vector = CurveVector { x: S, y: Sp };
    let ro = balanced_blindings(ri.as_slice(), vo.len(), p, z);
    let va: Vec<CurveVector> = vec![CurveVector { x: G, y: Z }];
    assert(pair_views(va@) =~= seq![(G@, Z@)]);
    let alpha_tuple = single_tuple(va);
    let alpha = create_zkplmt(alpha_tuple.as_slice(), 0, z);
    let mut key_images: Vec<Point> = Vec::new();
    let mut i: usize = 0;
    while i < H[0].len()
        invariant
            H@.len() == inputs@.len(),
            inputs@.len() >= 1,
            H@[0]@.len() == inputs@[0].components@.len(),
            forall|q: int| 0 <= q < inputs@[0].components@.len() ==> (#[trigger] H@[0]@[q])@ == comp_hash(inputs@[0].components@[q]),
            i <= H@[0]@.len(),
            key_images@.len() == i,
            forall|q: int| 0 <= q < i ==> (#[trigger] key_images@[q])@ == edwards_mul(p.value(), comp_hash(inputs@[0].components@[q])),
        decreases H@[0]@.len() - i,
    {
        key_images.push(point_mul(&p, &H[0][i]));
        i = i + 1;
    }
    let outputs_comms = output_commitments(ro.as_slice(), vo.as_slice(), &G, &L);
    let ghost ov = out_views(vo@, ro@, G@, L@);
    assert(encodings(outputs_comms@) =~= ov);
    let mut outputs: Vec<TransactionOutput> = Vec::new();
    let mut k: usize = 0;
    while k < outputs_comms.len() && k < output_pub_keys.len()
        invariant
            outputs_comms@.len() == vo@.len(),
            ro@.len() == vo@.len(),
            ov == out_views(vo@, ro@, G@, L@),
            k <= outputs_comms@.len(),
            k <= output_pub_keys@.len(),
            outputs@.len() == k,
            forall|t: int| 0 <= t < vo@.len() ==> (#[trigger] outputs_comms@[t])@ == ov[t],
            forall|t: int|
                0 <= t < k ==> {
                    &&& (#[trigger] outputs@[t]).commitment@ == ov[t]
                    &&& outputs@[t].public_key == output_pub_keys@[t]
                },
        decreases outputs_comms@.len() - k,
    {
        outputs.push(TransactionOutput { commitment: outputs_comms[k], public_key: output_pub_keys[k] });
        k = k + 1;
    }
    let sum_output = sum_points(outputs_comms.as_slice());
    let tuples = match ring_tuples(inputs.as_slice(), &H, &key_images, &S_vector, &Z, &sum_output) {
        Some(t) => t,
        None => {
            return None;
        },
    };
    let ghost rv = ring_views(inputs@, encodings(key_images@), (S_vector.x@, S_vector.y@), Z@, sum_output@);
    let mut indexes: Vec<usize> = Vec::new();
    let mut j: usize = 0;
    while j < tuples.len()
        invariant
            j <= tuples@.len(),
            indexes@.len() == j,
            forall|t: int| 0 <= t < j ==> #[trigger] indexes@[t] == t,
        decreases tuples@.len() - j,
    {
        indexes.push(j);
        j = j + 1;
    }
    let ghost idx0 = indexes@;
    let s_index = shuffle(indexes.as_mut_slice());
    let ghost perm = choose|perm: Seq<int>|
        {
            &&& is_permutation(perm, idx0.len() as int)
            &&& permuted(indexes@, idx0, perm)
            &&& perm[s_index as int] == 0
        };
    let mut shuffle_tuple: Vec<VectorTuple> = Vec::new();
    let mut inputs_shuffle: Vec<TransactionInputSet> = Vec::new();
    let mut t: usize = 0;
    while t < indexes.len()
        invariant
            indexes@.len() == tuples@.len(),
            tuples@.len() == inputs@.len(),
            is_permutation(perm, idx0.len() as int),
            permuted(indexes@, idx0, perm),
            idx0.len() == tuples@.len(),
            forall|q: int| 0 <= q < idx0.len() ==> #[trigger] idx0[q] == q,
            t <= indexes@.len(),
            shuffle_tuple@.len() == t,
            inputs_shuffle@.len() == t,
            forall|q: int| 0 <= q < t ==> (#[trigger] shuffle_tuple@[q]).values@ == tuples@[perm[q]].values@,
            forall|q: int| 0 <= q < t ==> (#[trigger] inputs_shuffle@[q]).components@ == inputs@[perm[q]].components@,
        decreases indexes@.len() - t,
    {
        let ix = indexes[t];
        proof {
            assert(indexes@[t as int] == idx0[perm[t as int]]);
        }
        shuffle_tuple.push(tuples[ix].duplicate());
        inputs_shuffle.push(inputs[ix].duplicate());
        t = t + 1;
    }
    proof {
        let sv = tuple_views(shuffle_tuple@);
        let target = ring_views(inputs_shuffle@, encodings(key_images@), (S_vector.x@, S_vector.y@), Z@, sum_output@);
        assert forall|q: int| 0 <= q < sv.len() implies #[trigger] sv[q] == target[q] by {
            assert(sv[q] == pair_views(shuffle_tuple@[q].values@));
            assert(tuple_views(tuples@)[perm[q]] == pair_views(tuples@[perm[q]].values@));
            assert(rv[perm[q]] == set_pairs(inputs@[perm[q]], encodings(key_images@), (S_vector.x@, S_vector.y@), Z@, sum_output@));
            assert(set_pairs(inputs@[perm[q]], encodings(key_images@), (S_vector.x@, S_vector.y@), Z@, sum_output@)
                == set_pairs(inputs_shuffle@[q], encodings(key_images@), (S_vector.x@, S_vector.y@), Z@, sum_output@));
        }
        assert(sv =~= target);
        lemma_well_shaped(shuffle_tuple@, 2 * key_images@.len() + 2);
    }
    let pi = create_zkplmt(shuffle_tuple.as_slice(), s_index, p);
    let AP_Declaration_Of_Public_key = generate_AP_declaration_of_public_key(p, s, &G, &S, &Q);
    let mut AP_Declaration_Of_Value: Vec<AP_Declaration_Of_Value> = Vec::new();
    let mut q: usize = 0;
    while q < vo.len()
        invariant
            ro@.len() == vo@.len(),
            q <= vo@.len(),
            AP_Declaration_Of_Value@.len() == q,
            forall|w: int| 0 <= w < q ==> ap_value_made(#[trigger] AP_Declaration_Of_Value@[w], ro@[w].value(), vo@[w] as nat, G@, L@, Q@),
        decreases vo@.len() - q,
    {
        AP_Declaration_Of_Value.push(generate_AP_declaration_of_value(ro[q], sc_from_u64(vo[q]), &G, &L, &Q));
        q = q + 1;
    }
    let mut kyc_sources = kyc_sources;
    let kk = shuffle(kyc_sources.as_mut_slice());
    let ghost kperm = choose|kperm: Seq<int>|
        {
            &&& is_permutation(kperm, kyc0.len() as int)
            &&& permuted(kyc_sources@, kyc0, kperm)
            &&& kperm[kk as int] == 0
        };
    proof {
        assert forall|w: int| 0 <= w < kyc_sources@.len() implies (#[trigger] hash_to_curve(
            kyc_sources@[w].C_@ + kyc_sources@[w].D_@,
        )) is Some by {
            assert(kyc_sources@[w] == kyc0[kperm[w]]);
        }
    }
    let range_proof = bullet_range_proof(ro.as_slice(), vo.as_slice(), &bases);
    let ghost shuffled_kyc = kyc_sources@;
    let spendingLimitProof = match generate_KYC_proof(
        kyc_sources,
        &output_pub_keys[0].0,
        &output_pub_keys[0].1,
        outputs_comms.as_slice(),
        &S,
        &Sp,
        kk,
        p,
    ) {
        Some(x) => x,
        None => {
            return None;
        },
    };
    let tx = Transaction {
        input_condidates: inputs_shuffle,
        outputs,
        key_images,
        Z,
        pi,
        alpha,
        AP_public_key,
        S_vector,
        AP_Declaration_Of_Public_key,
        AP_Declaration_Of_Value,
        range_proof,
        spendingLimitProof,
    };
    proof {
        let g = G@;
        let l = L@;
        assert(sum_output@ == point_sum(ov));
        assert(ring_made(tx, inputs@, p.value(), point_sum(ov)));
        assert(tx.spendingLimitProof.sources@ == shuffled_kyc);
        assert(link_made(tx, kyc0, output_pub_keys@[0], ov, p.value()));
        assert(blinding_balanced(ro@, ri@, p.value(), z.value()));
        assert(tx.Z@ == edwards_mul(z.value(), g));
        assert(made_for(seq![seq![(g, tx.Z@)]], 0, z.value(), tx.alpha.cs(), tx.alpha.ds()));
        assert(tx.outputs@.len() == if vo@.len() < output_pub_keys@.len() {
            vo@.len()
        } else {
            output_pub_keys@.len()
        });
        assert(forall|i: int| 0 <= i < tx.outputs@.len() ==> (#[trigger] tx.outputs@[i]).commitment@ == ov[i]);
        assert(forall|i: int| 0 <= i < tx.outputs@.len() ==> (#[trigger] tx.outputs@[i]).public_key == output_pub_keys@[i]);
        assert(tx.AP_Declaration_Of_Value@.len() == vo@.len());
        assert(tx.range_proof.vs().len() >= vo@.len());
        assert(forall|i: int|
            0 <= i < vo@.len() ==> ap_value_made(#[trigger] tx.AP_Declaration_Of_Value@[i], ro@[i].value(), vo@[i] as nat, g, l, AP_public_key@));
        assert(forall|i: int| 0 <= i < vo@.len() ==> (#[trigger] tx.range_proof.vs()[i])@ == commitment(bases, vo@[i] as nat, ro@[i].value()));
        assert(made_with(tx, inputs@, ri@, vo@, output_pub_keys@, p.value(), AP_public_key, kyc0, bases, g, l, ro@, z.value()));
        assert(tx.S_vector.x@ == edwards_mul(s.value(), g));
    }
    Some(tx)
}

} // verus!
