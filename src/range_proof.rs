//! A range proof by bit decomposition: the value committed in `V` is the
//! sum of per-bit commitments `X_i`, each shown to commit to zero or to one.
use vstd::prelude::*;
use vstd::arithmetic::power::pow;
use crate::scalar::{Scalar, ell, le_nat, sc_add, sc_from_u64};
use crate::point::{xand_bytes, Point, CurveVector, VectorTuple, encodings, point_sum, hash_to_curve, get_G, get_K, point_add, point_mul, sum_points, edwards_add, edwards_mul, transparent_bytes};
use crate::zkplmt::{Proof, create_zkplmt, verify_zkplmt, accepts, made_for, tuple_views, pair_views};

verus! {

/// Per-bit proofs, the bit commitments `X_i`, and `S = s * G`.
#[derive(Clone)]
#[allow(non_snake_case)]
pub struct RangeProof {
    pub proofs: Vec<Proof>,
    pub X: Vec<Point>,
    pub S: Point,
}

impl RangeProof {
    pub open spec fn bit_commitments(&self) -> Seq<Point> {
        self.X@
    }

    pub open spec fn proof_count(&self) -> nat {
        self.proofs@.len()
    }
}

/// The scalar `2^i`.
pub fn get_ith_power_of_2(i: usize) -> (r: Scalar)
    ensures
        r.value() == pow(2, i as nat) % (ell() as int),
{
    let mut p = sc_from_u64(1);
    let mut k: usize = 0;
    proof {
        vstd::arithmetic::power::lemma_pow0(2);
        vstd::arithmetic::div_mod::lemma_small_mod(1, ell());
    }
    while k < i
        invariant
            k <= i,
            p.value() == pow(2, k as nat) % (ell() as int),
        decreases i - k,
    {
        let ghost q = pow(2, k as nat);
        p = sc_add(p, p);
        proof {
            vstd::arithmetic::power::lemma_pow_adds(2, k as nat, 1);
            vstd::arithmetic::power::lemma_pow1(2);
            vstd::arithmetic::div_mod::lemma_add_mod_noop(q, q, ell() as int);
        }
        k = k + 1;
    }
    p
}

/// The zero tuple `[(G, S), (R, X)]` and the one tuple `[(G, S), (W, X)]`
/// of a bit, by encodings.
pub open spec fn bit_views(g: Seq<u8>, s: Seq<u8>, r: Seq<u8>, w: Seq<u8>, x: Seq<u8>) -> Seq<Seq<(Seq<u8>, Seq<u8>)>> {
    seq![seq![(g, s), (r, x)], seq![(g, s), (w, x)]]
}

/// `W_i = R_i + 2^i * K`.
pub open spec fn bit_one_base(r: Seq<u8>, k: Seq<u8>, i: nat) -> Seq<u8> {
    edwards_add(r, edwards_mul((pow(2, i) % (ell() as int)) as nat, k))
}

/// The zero tuple `[(G, S), (R, X)]` and the one tuple `[(G, S), (W, X)]`
/// of bit `i`, with `W = R + 2^i * K`.
#[allow(non_snake_case)]
fn bit_tuples(G: &Point, S: &Point, R: &Point, W: &Point, X: &Point) -> (r: Vec<VectorTuple>)
    ensures
        r@.len() == 2,
        r@[0].values@.len() == 2,
        r@[1].values@.len() == 2,
        tuple_views(r@) == bit_views(G@, S@, R@, W@, X@),
{
    let zero = VectorTuple { values: vec![CurveVector { x: *G, y: *S }, CurveVector { x: *R, y: *X }] };
    let one = VectorTuple { values: vec![CurveVector { x: *G, y: *S }, CurveVector { x: *W, y: *X }] };
    let r = vec![zero, one];
    assert(pair_views(r@[0].values@) =~= seq![(G@, S@), (R@, X@)]);
    assert(pair_views(r@[1].values@) =~= seq![(G@, S@), (W@, X@)]);
    assert(tuple_views(r@) =~= bit_views(G@, S@, R@, W@, X@));
    r
}

/// Proof `i` shows that `X_i` commits to zero or to one against base `R_i`.
pub open spec fn bit_accepts(g: Seq<u8>, k: Seq<u8>, bases: Seq<Point>, rp: RangeProof, i: int) -> bool {
    accepts(
        bit_views(g, rp.S@, bases[i]@, bit_one_base(bases[i]@, k, i as nat), rp.X@[i]@),
        rp.proofs@[i].cs(),
        rp.proofs@[i].ds(),
    )
}

/// What `verify_range_proof` accepts: `n` bases, bit commitments and
/// proofs, `V` the sum of the bit commitments, and every bit proof.
pub open spec fn bit_range_accepts(v: Seq<u8>, bases: Seq<Point>, n: nat, rp: RangeProof) -> bool {
    let g = hash_to_curve(xand_bytes());
    let k = hash_to_curve(transparent_bytes());
    &&& bases.len() == n
    &&& rp.X@.len() == n
    &&& rp.proofs@.len() == n
    &&& v == point_sum(encodings(rp.X@))
    &&& g is Some
    &&& k is Some
    &&& forall|i: int| 0 <= i < n ==> #[trigger] bit_accepts(g->0, k->0, bases, rp, i)
}

/// Checks that `V` is the sum of the bit commitments and that each commits
/// to zero or one against `bases`.
#[allow(non_snake_case)]
pub fn verify_range_proof(V: Point, bases: &[Point], n: usize, range_proof: &RangeProof) -> (r: bool)
    ensures
        r == bit_range_accepts(V@, bases@, n as nat, *range_proof),
{
    if bases.len() != n || range_proof.X.len() != n || range_proof.proofs.len() != n {
        return false;
    }
    let sum = sum_points(range_proof.X.as_slice());
    if !V.equals(&sum) {
        return false;
    }
    let G = match get_G() {
        Some(g) => g,
        None => {
            return false;
        },
    };
    let K = match get_K() {
        Some(k) => k,
        None => {
            return false;
        },
    };
    let S = range_proof.S;
    let mut i: usize = 0;
    while i < n
        invariant
            n == bases@.len(),
            n == range_proof.X@.len(),
            n == range_proof.proofs@.len(),
            S == range_proof.S,
            i <= n,
            hash_to_curve(xand_bytes()) is Some,
            G@ == hash_to_curve(xand_bytes())->0,
            hash_to_curve(transparent_bytes()) is Some,
            K@ == hash_to_curve(transparent_bytes())->0,
            V@ == point_sum(encodings(range_proof.X@)),
            forall|k: int| 0 <= k < i ==> #[trigger] bit_accepts(G@, K@, bases@, *range_proof, k),
        decreases n - i,
    {
        let R = bases[i];
        let W = point_add(&R, &point_mul(&get_ith_power_of_2(i), &K));
        let tuples = bit_tuples(&G, &S, &R, &W, &range_proof.X[i]);
        if !verify_zkplmt(tuples.as_slice(), &range_proof.proofs[i]) {
            assert(!bit_accepts(G@, K@, bases@, *range_proof, i as int));
            return false;
        }
        i = i + 1;
    }
    true
}

/// Bit `i` of a little-endian byte string.
pub open spec fn byte_bit(b: Seq<u8>, i: int) -> bool {
    (b[i / 8] >> ((i % 8) as u8)) & 1u8 == 1u8
}

/// Bit `i` of `v` is committed to in `X_i` and proved with secret `s`: `X_i`
/// is `s * W_i` for a one and `s * R_i` for a zero, and proof `i` is made
/// for the one or the zero tuple accordingly.
pub open spec fn bit_made(v: Scalar, s: nat, g: Seq<u8>, k: Seq<u8>, bases: Seq<Point>, rp: RangeProof, i: int) -> bool {
    bit_made_parts(v, s, g, k, bases, rp.X@, rp.S, rp.proofs@, i)
}

/// `bit_made`, over the parts of a range proof.
pub open spec fn bit_made_parts(
    v: Scalar,
    s: nat,
    g: Seq<u8>,
    k: Seq<u8>,
    bases: Seq<Point>,
    xs: Seq<Point>,
    big_s: Point,
    proofs: Seq<Proof>,
    i: int,
) -> bool {
    let bit = byte_bit(v.encoding(), i);
    let w = bit_one_base(bases[i]@, k, i as nat);
    &&& xs[i]@ == edwards_mul(
        s,
        if bit {
            w
        } else {
            bases[i]@
        },
    )
    &&& made_for(
        bit_views(g, big_s@, bases[i]@, w, xs[i]@),
        if bit {
            1
        } else {
            0
        },
        s,
        proofs[i].cs(),
        proofs[i].ds(),
    )
}

pub open spec fn blinding_point(rp: RangeProof) -> Point {
    rp.S
}

/// Commits to the low bits of `v`, one per base (at most 256), with
/// blinding `s`, and proves each bit. `None` where a generator cannot be
/// hashed to a point.
#[allow(non_snake_case)]
pub fn create_range_proof(v: Scalar, s: Scalar, bases: &[Point]) -> (r: Option<RangeProof>)
    ensures
        r is Some ==> r->0.proof_count() == if bases@.len() < 256 {
            bases@.len()
        } else {
            256
        },
        r is Some ==> r->0.bit_commitments().len() == r->0.proof_count(),
        r is Some <==> (hash_to_curve(xand_bytes()) is Some && hash_to_curve(transparent_bytes()) is Some),
        r is Some ==> blinding_point(r->0)@ == edwards_mul(s.value(), hash_to_curve(xand_bytes())->0),
        r is Some ==> forall|i: int|
            0 <= i < r->0.proof_count() ==> #[trigger] bit_made(
                v,
                s.value(),
                hash_to_curve(xand_bytes())->0,
                hash_to_curve(transparent_bytes())->0,
                bases@,
                r->0,
                i,
            ),
{
    let bytes = v.to_bytes();
    let mut bits: Vec<bool> = Vec::new();
    let mut i: usize = 0;
    while i < 32 && bits.len() < bases.len()
        invariant
            i <= 32,
            bytes@ == v.encoding(),
            bits@.len() <= bases@.len(),
            bits@.len() == if 8 * i < bases@.len() {
                8 * i
            } else {
                bases@.len() as int
            },
            forall|q: int| 0 <= q < bits@.len() ==> #[trigger] bits@[q] == byte_bit(bytes@, q),
        decreases 32 - i,
    {
        let mut value = bytes[i];
        let mut j: usize = 0;
        assert(value >> 0u8 == value) by (bit_vector);
        while j < 8 && bits.len() < bases.len()
            invariant
                i < 32,
                j <= 8,
                8 * i < bases@.len(),
                bits@.len() <= bases@.len(),
                bits@.len() == if 8 * i + j < bases@.len() {
                    8 * i + j
                } else {
                    bases@.len() as int
                },
                bits@.len() < bases@.len() ==> bits@.len() == 8 * i + j,
                value == bytes@[i as int] >> (j as u8),
                forall|q: int| 0 <= q < bits@.len() ==> #[trigger] bits@[q] == byte_bit(bytes@, q),
            decreases 8 - j,
        {
            proof {
                let q = 8 * i + j;
                vstd::arithmetic::div_mod::lemma_fundamental_div_mod_converse(q as int, 8, i as int, j as int);
            }
            bits.push(value & 1u8 == 1u8);
            let ghost b = bytes@[i as int];
            assert((b >> (j as u8)) >> 1u8 == b >> ((j + 1) as u8)) by (bit_vector)
                requires
                    j < 8,
            ;
            value = value >> 1u8;
            j = j + 1;
        }
        i = i + 1;
    }
    proof {
        assert(bits@.len() == if bases@.len() < 256 {
            bases@.len() as int
        } else {
            256
        });
    }
    let G = match get_G() {
        Some(g) => g,
        None => {
            return None;
        },
    };
    let K = match get_K() {
        Some(k) => k,
        None => {
            return None;
        },
    };
    let S = point_mul(&s, &G);
    let mut proofs: Vec<Proof> = Vec::new();
    let mut Xs: Vec<Point> = Vec::new();
    let mut k: usize = 0;
    while k < bits.len()
        invariant
            bits@.len() <= bases@.len(),
            k <= bits@.len(),
            proofs@.len() == k,
            Xs@.len() == k,
            bytes@ == v.encoding(),
            forall|q: int| 0 <= q < bits@.len() ==> #[trigger] bits@[q] == byte_bit(bytes@, q),
            G@ == hash_to_curve(xand_bytes())->0,
            K@ == hash_to_curve(transparent_bytes())->0,
            S@ == edwards_mul(s.value(), G@),
            forall|q: int| 0 <= q < k ==> #[trigger] bit_made_parts(v, s.value(), G@, K@, bases@, Xs@, S, proofs@, q),
        decreases bits@.len() - k,
    {
        let R = bases[k];
        let W = point_add(&R, &point_mul(&get_ith_power_of_2(k), &K));
        let X = if bits[k] {
            point_mul(&s, &W)
        } else {
            point_mul(&s, &R)
        };
        let tuples = bit_tuples(&G, &S, &R, &W, &X);
        let idx: usize = if bits[k] {
            1
        } else {
            0
        };
        let proof = create_zkplmt(tuples.as_slice(), idx, s);
        let ghost old_x = Xs@;
        let ghost old_p = proofs@;
        proofs.push(proof);
        Xs.push(X);
        proof {
            assert forall|q: int| 0 <= q < k + 1 implies #[trigger] bit_made_parts(v, s.value(), G@, K@, bases@, Xs@, S, proofs@, q) by {
                if q < k {
                    assert(bit_made_parts(v, s.value(), G@, K@, bases@, old_x, S, old_p, q));
                    assert(Xs@[q] == old_x[q]);
                    assert(proofs@[q] == old_p[q]);
                } else {
                    assert(bits@[q] == byte_bit(bytes@, q));
                }
            }
        }
        k = k + 1;
    }
    Some(RangeProof { proofs, X: Xs, S })
}

} // verus!
