//! Schnorr signatures whose challenge binds two extra points and is offset
//! by a given scalar.
use vstd::prelude::*;
use crate::scalar::{Scalar, ell, sc_sub, sc_mul};
use crate::point::{Point, edwards_mul, lin2, hash_scalar, concat, encodings, point_mul, lin_comb, get_hash_of_data_and_points};
use crate::bases::Bases;

verus! {

/// The challenge `H(m || E1 || E2 || P || R) - other`.
pub open spec fn schnorr_challenge(
    m: Seq<u8>,
    e1: Seq<u8>,
    e2: Seq<u8>,
    p: Seq<u8>,
    r: Seq<u8>,
    other: nat,
) -> int {
    (hash_scalar(m + concat(seq![e1, e2, p, r])) - other) % (ell() as int)
}

/// What `verify_modified_schnorr` accepts: with `R = s * G_0 + h * P`, the
/// challenge recomputed from `R` is `h`.
pub open spec fn schnorr_accepts(
    g0: Seq<u8>,
    m: Seq<u8>,
    s: nat,
    h: nat,
    p: Seq<u8>,
    e1: Seq<u8>,
    e2: Seq<u8>,
    other: nat,
) -> bool {
    schnorr_challenge(m, e1, e2, p, lin2(s, g0, h, p), other) == h
}

/// What `create_modified_schnorr` makes under key `sk`: for some nonce `r`,
/// `R = r * G_0`, `h` is the challenge of `R` and `s = r - h * sk`.
pub open spec fn schnorr_made(
    g0: Seq<u8>,
    m: Seq<u8>,
    sk: nat,
    e1: Seq<u8>,
    e2: Seq<u8>,
    other: nat,
    s: nat,
    h: nat,
) -> bool {
    exists|r: nat|
        {
            &&& r < ell()
            &&& h == schnorr_challenge(m, e1, e2, edwards_mul(sk, g0), edwards_mul(r, g0), other)
            &&& s == (r - h * sk) % (ell() as int)
        }
}

/// The hash of the message and four points.
fn hash_four(message: &[u8], a: &Point, b: &Point, c: &Point, d: &Point) -> (x: Scalar)
    ensures
        x.value() == hash_scalar(message@ + concat(seq![a@, b@, c@, d@])),
{
    let pts: Vec<Point> = vec![*a, *b, *c, *d];
    assert(encodings(pts@) =~= seq![a@, b@, c@, d@]);
    get_hash_of_data_and_points(message, pts.as_slice())
}

/// Signs `message` under `private_key`, binding `extrapoints` and offsetting
/// the challenge by `fake_hash`. Returns `(s, h)`.
pub fn create_modified_schnorr(
    bases: &Bases,
    message: &[u8],
    private_key: Scalar,
    extrapoints: (&Point, &Point),
    fake_hash: Scalar,
) -> (r: (Scalar, Scalar))
    ensures
        schnorr_made(
            bases.g0()@,
            message@,
            private_key.value(),
            extrapoints.0@,
            extrapoints.1@,
            fake_hash.value(),
            r.0.value(),
            r.1.value(),
        ),
{
    let g = bases.g_init();
    let r = Scalar::random();
    let p = point_mul(&private_key, &g);
    let big_r = point_mul(&r, &g);
    let hd = hash_four(message, extrapoints.0, extrapoints.1, &p, &big_r);
    let h = sc_sub(hd, fake_hash);
    let s = sc_sub(r, sc_mul(h, private_key));
    proof {
        vstd::arithmetic::div_mod::lemma_sub_mod_noop_right(
            r.value() as int,
            (h.value() * private_key.value()) as int,
            ell() as int,
        );
    }
    (s, h)
}

/// Checks a signature `(s, h)` under public key `P`.
#[allow(non_snake_case)]
pub fn verify_modified_schnorr(
    bases: &Bases,
    message: &[u8],
    signature: &(Scalar, Scalar),
    P: &Point,
    extrapoints: (&Point, &Point),
    other_hash: Scalar,
) -> (r: bool)
    ensures
        r == schnorr_accepts(
            bases.g0()@,
            message@,
            signature.0.value(),
            signature.1.value(),
            P@,
            extrapoints.0@,
            extrapoints.1@,
            other_hash.value(),
        ),
{
    let g = bases.g_init();
    let big_r = lin_comb(&signature.0, &g, &signature.1, P);
    let hd = hash_four(message, extrapoints.0, extrapoints.1, P, &big_r);
    let h = sc_sub(hd, other_hash);
    h.equals(&signature.1)
}

/// Completeness, given linearity: a signature made under `sk` verifies
/// under `sk * G_0`, provided that the curve computes
/// `s * G_0 + h * (sk * G_0)` as `((s + h * sk) mod ell) * G_0`.
pub proof fn lemma_schnorr_complete_given_linearity(
    g0: Seq<u8>,
    m: Seq<u8>,
    sk: nat,
    e1: Seq<u8>,
    e2: Seq<u8>,
    other: nat,
    s: nat,
    h: nat,
)
    requires
        schnorr_made(g0, m, sk, e1, e2, other, s, h),
        forall|a: nat, b: nat| #[trigger] lin2(a, g0, b, edwards_mul(sk, g0)) == edwards_mul((a + b * sk) % ell(), g0),
    ensures
        schnorr_accepts(g0, m, s, h, edwards_mul(sk, g0), e1, e2, other),
{
    let r = choose|r: nat|
        {
            &&& r < ell()
            &&& h == schnorr_challenge(m, e1, e2, edwards_mul(sk, g0), edwards_mul(r, g0), other)
            &&& s == (r - h * sk) % (ell() as int)
        };
    assert((s + h * sk) % ell() == r) by {
        vstd::arithmetic::div_mod::lemma_add_mod_noop(r - h * sk, (h * sk) as int, ell() as int);
        vstd::arithmetic::div_mod::lemma_mod_twice(r - h * sk, ell() as int);
        vstd::arithmetic::div_mod::lemma_add_mod_noop(s as int, (h * sk) as int, ell() as int);
        vstd::arithmetic::div_mod::lemma_small_mod(r, ell());
        vstd::arithmetic::div_mod::lemma_mod_bound(r - h * sk, ell() as int);
    }
    assert(lin2(s, g0, h, edwards_mul(sk, g0)) == edwards_mul(r, g0));
}

} // verus!
