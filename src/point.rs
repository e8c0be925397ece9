//! Points of the Edwards curve, held together with their 32-byte compressed
//! encodings, which is all that the protocols read of them. Group operations
//! are carried out by curve25519-dalek; hashing by sha2.
use vstd::prelude::*;
use crate::scalar::{Scalar, le_nat, ell, values, sc_from_bytes_mod_order, sc_from_u64};
use curve25519_dalek::edwards::{CompressedEdwardsY, EdwardsPoint};
use curve25519_dalek::scalar::Scalar as DalekScalar;
use curve25519_dalek::traits::{Identity, MultiscalarMul};
use rand_core::OsRng;
use rand_core::RngCore;
use sha2::{Digest, Sha256};

verus! {

#[verifier::external_type_specification]
#[verifier::external_body]
pub struct ExEdwardsPoint(EdwardsPoint);

/// The SHA-256 digest of a byte string.
pub uninterp spec fn sha256_digest(data: Seq<u8>) -> Seq<u8>;

/// The compressed encoding of the point that `b` decompresses to, if any.
pub uninterp spec fn decompressed(b: Seq<u8>) -> Option<Seq<u8>>;

/// The encoding of the sum of two points, given by their encodings.
pub uninterp spec fn edwards_add(a: Seq<u8>, b: Seq<u8>) -> Seq<u8>;

/// The encoding of the difference of two points.
pub uninterp spec fn edwards_sub(a: Seq<u8>, b: Seq<u8>) -> Seq<u8>;

/// The encoding of a scalar multiple of a point.
pub uninterp spec fn edwards_mul(s: nat, p: Seq<u8>) -> Seq<u8>;

/// The encoding of `sum_k s[k] * p[k]`.
pub uninterp spec fn edwards_msm(s: Seq<nat>, p: Seq<Seq<u8>>) -> Seq<u8>;

/// The compressed encoding of the identity: `y = 1`, sign bit clear.
pub open spec fn identity_encoding() -> Seq<u8> {
    seq![1u8] + Seq::new(31, |i: int| 0u8)
}

/// The byte strings of a sequence, one after the other.
pub open spec fn concat(s: Seq<Seq<u8>>) -> Seq<u8>
    decreases s.len(),
{
    if s.len() == 0 {
        Seq::empty()
    } else {
        concat(s.drop_last()) + s.last()
    }
}

pub proof fn lemma_concat_push(s: Seq<Seq<u8>>, i: int)
    requires
        0 <= i < s.len(),
    ensures
        concat(s.take(i + 1)) == concat(s.take(i)) + s[i],
{
    assert(s.take(i + 1).drop_last() =~= s.take(i));
}

/// A point of the curve: the curve library's value together with its
/// compressed encoding. Only the functions of this module that call the
/// curve library make points, and each sets both fields from one value.
#[derive(Clone, Copy, Debug)]
pub struct Point {
    pt: EdwardsPoint,
    enc: [u8; 32],
}

impl View for Point {
    type V = Seq<u8>;

    /// The compressed encoding of the point.
    closed spec fn view(&self) -> Seq<u8> {
        self.enc@
    }
}

/// The encodings of a sequence of points.
pub open spec fn encodings(p: Seq<Point>) -> Seq<Seq<u8>> {
    p.map_values(|x: Point| x@)
}

/// The value `c * x + d * y`, by encodings.
pub open spec fn lin2(c: nat, x: Seq<u8>, d: nat, y: Seq<u8>) -> Seq<u8> {
    edwards_msm(seq![c, d], seq![x, y])
}

/// The scalar that SHA-256 of `data` gives, reduced modulo `ell`.
pub open spec fn hash_scalar(data: Seq<u8>) -> nat {
    le_nat(sha256_digest(data)) % ell()
}

impl Point {
    /// Relies on `CompressedEdwardsY::decompress`: `None` where the bytes are
    /// no point's encoding.
    #[verifier::external_body]
    pub fn from_bytes(b: [u8; 32]) -> (r: Option<Point>)
        ensures
            r is Some <==> decompressed(b@) is Some,
            r is Some ==> r->0@ == decompressed(b@)->0,
    {
        CompressedEdwardsY(b).decompress().map(|p| Point { pt: p, enc: p.compress().to_bytes() })
    }

    /// The compressed encoding.
    pub fn to_bytes(&self) -> (r: [u8; 32])
        ensures
            r@ == self@,
    {
        self.enc
    }

    /// Relies on `EdwardsPoint::identity`, whose encoding is fixed.
    #[verifier::external_body]
    pub(crate) fn identity() -> (r: Point)
        ensures
            r@ == identity_encoding(),
    {
        let p = EdwardsPoint::identity();
        Point { pt: p, enc: p.compress().to_bytes() }
    }

    /// Equality of points, which is equality of their encodings.
    pub fn equals(&self, o: &Point) -> (r: bool)
        ensures
            r == (self@ == o@),
    {
        let mut i: usize = 0;
        while i < 32
            invariant
                0 <= i <= 32,
                forall|k: int| 0 <= k < i ==> self.enc@[k] == o.enc@[k],
            decreases 32 - i,
        {
            if self.enc[i] != o.enc[i] {
                return false;
            }
            i = i + 1;
        }
        assert(self.enc@ =~= o.enc@);
        true
    }
}

impl PartialEq for Point {
    fn eq(&self, o: &Point) -> (r: bool) {
        self.equals(o)
    }
}

impl vstd::std_specs::cmp::PartialEqSpecImpl for Point {
    open spec fn obeys_eq_spec() -> bool {
        true
    }

    open spec fn eq_spec(&self, o: &Point) -> bool {
        self@ == o@
    }
}

/// Relies on point addition.
#[verifier::external_body]
pub(crate) fn point_add(a: &Point, b: &Point) -> (r: Point)
    ensures
        r@ == edwards_add(a@, b@),
{
    let p = a.pt + b.pt;
    Point { pt: p, enc: p.compress().to_bytes() }
}

/// Relies on point subtraction.
#[verifier::external_body]
pub(crate) fn point_sub(a: &Point, b: &Point) -> (r: Point)
    ensures
        r@ == edwards_sub(a@, b@),
{
    let p = a.pt - b.pt;
    Point { pt: p, enc: p.compress().to_bytes() }
}

/// Relies on scalar multiplication of a point.
#[verifier::external_body]
pub(crate) fn point_mul(s: &Scalar, a: &Point) -> (r: Point)
    ensures
        r@ == edwards_mul(s.value(), a@),
{
    let p = DalekScalar::from_bits(s.to_bytes()) * a.pt;
    Point { pt: p, enc: p.compress().to_bytes() }
}

/// Relies on `EdwardsPoint::multiscalar_mul`, which asks for as many
/// scalars as points.
#[verifier::external_body]
pub(crate) fn point_msm(s: &[Scalar], p: &[Point]) -> (r: Point)
    requires
        s@.len() == p@.len(),
    ensures
        r@ == edwards_msm(values(s@), encodings(p@)),
{
    let r = EdwardsPoint::multiscalar_mul(
        s.iter().map(|x| DalekScalar::from_bits(x.to_bytes())),
        p.iter().map(|x| x.pt),
    );
    Point { pt: r, enc: r.compress().to_bytes() }
}

/// `c * x + d * y`.
pub fn lin_comb(c: &Scalar, x: &Point, d: &Scalar, y: &Point) -> (r: Point)
    ensures
        r@ == lin2(c.value(), x@, d.value(), y@),
{
    let s: Vec<Scalar> = vec![*c, *d];
    let p: Vec<Point> = vec![*x, *y];
    assert(values(s@) =~= seq![c.value(), d.value()]);
    assert(encodings(p@) =~= seq![x@, y@]);
    point_msm(s.as_slice(), p.as_slice())
}

/// Relies on SHA-256 as `Digest::digest` computes it.
#[verifier::external_body]
pub(crate) fn sha256(data: &[u8]) -> (r: [u8; 32])
    ensures
        r@ == sha256_digest(data@),
{
    let mut out = [0u8; 32];
    out.copy_from_slice(Sha256::digest(data).as_slice());
    out
}

/// Appends the encoding of a point to a buffer.
pub fn push_point(buf: &mut Vec<u8>, p: &Point)
    ensures
        final(buf)@ == old(buf)@ + p@,
{
    let b = p.to_bytes();
    buf.extend_from_slice(&b);
}

/// The challenge `H(L || R)` of two points.
pub fn get_hash(l: &Point, r: &Point) -> (x: Scalar)
    ensures
        x.value() == hash_scalar(l@ + r@),
{
    let mut buf: Vec<u8> = Vec::new();
    push_point(&mut buf, l);
    push_point(&mut buf, r);
    assert(buf@ =~= l@ + r@);
    let h = sha256(buf.as_slice());
    sc_from_bytes_mod_order(h)
}

/// The challenge `H(data || P_1 || ... || P_k)`.
pub fn get_hash_of_data_and_points(data: &[u8], points: &[Point]) -> (x: Scalar)
    ensures
        x.value() == hash_scalar(data@ + concat(encodings(points@))),
{
    let mut buf: Vec<u8> = Vec::new();
    buf.extend_from_slice(data);
    let mut i: usize = 0;
    while i < points.len()
        invariant
            i <= points@.len(),
            buf@ == data@ + concat(encodings(points@).take(i as int)),
        decreases points@.len() - i,
    {
        proof {
            lemma_concat_push(encodings(points@), i as int);
        }
        push_point(&mut buf, &points[i]);
        i = i + 1;
    }
    assert(encodings(points@).take(points@.len() as int) =~= encodings(points@));
    let h = sha256(buf.as_slice());
    sc_from_bytes_mod_order(h)
}

/// Attempts that `hash_to_edwards` makes before it gives up.
pub const HASH_TO_CURVE_ATTEMPTS: usize = 128;

/// The `k`-th candidate encoding for `input`: the digest of the input with
/// `k + 1` zero bytes appended, masked by the digest of the input itself.
pub open spec fn candidate(input: Seq<u8>, k: nat) -> Seq<u8> {
    let h = sha256_digest(input + Seq::new(k + 1, |i: int| 0u8));
    let s = sha256_digest(input);
    Seq::new(32, |i: int| h[i] ^ s[i])
}

/// The outcome of the candidates from the `k`-th on: the first that
/// decompresses and whose multiple by the cofactor is not the identity.
pub open spec fn hash_to_curve_from(input: Seq<u8>, k: nat) -> Option<Seq<u8>>
    decreases HASH_TO_CURVE_ATTEMPTS - k,
{
    if k >= HASH_TO_CURVE_ATTEMPTS {
        None
    } else {
        match decompressed(candidate(input, k)) {
            Some(e) => {
                let q = edwards_mul(8, e);
                if q != identity_encoding() {
                    Some(q)
                } else {
                    hash_to_curve_from(input, k + 1)
                }
            },
            None => hash_to_curve_from(input, k + 1),
        }
    }
}

pub open spec fn hash_to_curve(input: Seq<u8>) -> Option<Seq<u8>> {
    hash_to_curve_from(input, 0)
}

/// Maps bytes to a point of the prime-order subgroup other than the
/// identity. `None` only where every one of the attempts fails, which
/// happens with probability about `2^-128`.
pub fn hash_to_edwards(input: &[u8]) -> (r: Option<Point>)
    ensures
        r is Some <==> hash_to_curve(input@) is Some,
        r is Some ==> r->0@ == hash_to_curve(input@)->0,
{
    let mut bytes: Vec<u8> = Vec::new();
    bytes.extend_from_slice(input);
    let source = sha256(input);
    let eight = sc_from_u64(8);
    let id = Point::identity();
    let mut k: usize = 0;
    while k < HASH_TO_CURVE_ATTEMPTS
        invariant
            k <= HASH_TO_CURVE_ATTEMPTS,
            bytes@ == input@ + Seq::new(k as nat, |i: int| 0u8),
            source@ == sha256_digest(input@),
            eight.value() == 8,
            id@ == identity_encoding(),
            hash_to_curve(input@) == hash_to_curve_from(input@, k as nat),
        decreases HASH_TO_CURVE_ATTEMPTS - k,
    {
        bytes.push(0u8);
        assert(bytes@ =~= input@ + Seq::new(k as nat + 1, |i: int| 0u8));
        let mut hash = sha256(bytes.as_slice());
        let ghost h0 = hash@;
        let mut i: usize = 0;
        while i < 32
            invariant
                0 <= i <= 32,
                h0.len() == 32,
                source@ == sha256_digest(input@),
                forall|t: int| 0 <= t < i ==> hash@[t] == h0[t] ^ source@[t],
                forall|t: int| i <= t < 32 ==> hash@[t] == h0[t],
            decreases 32 - i,
        {
            hash[i] = hash[i] ^ source[i];
            i = i + 1;
        }
        assert(hash@ =~= candidate(input@, k as nat));
        match Point::from_bytes(hash) {
            Some(p) => {
                let q = crate::point::point_mul(&eight, &p);
                if !q.equals(&id) {
                    return Some(q);
                }
            },
            None => {},
        }
        k = k + 1;
    }
    None
}

/// The generator `G`, hashed from "XAND".
#[allow(non_snake_case)]
pub fn get_G() -> (r: Option<Point>)
    ensures
        r is Some <==> hash_to_curve(xand_bytes()) is Some,
        r is Some ==> r->0@ == hash_to_curve(xand_bytes())->0,
{
    let b: Vec<u8> = vec![88u8, 65u8, 78u8, 68u8];
    assert(b@ =~= xand_bytes());
    hash_to_edwards(b.as_slice())
}

/// The generator `K`, hashed from "Transparent".
#[allow(non_snake_case)]
pub fn get_K() -> (r: Option<Point>)
    ensures
        r is Some <==> hash_to_curve(transparent_bytes()) is Some,
        r is Some ==> r->0@ == hash_to_curve(transparent_bytes())->0,
{
    let b: Vec<u8> = vec![84u8, 114u8, 97u8, 110u8, 115u8, 112u8, 97u8, 114u8, 101u8, 110u8, 116u8];
    assert(b@ =~= transparent_bytes());
    hash_to_edwards(b.as_slice())
}

/// The generator `L`, hashed from "Systems".
#[allow(non_snake_case)]
pub fn get_L() -> (r: Option<Point>)
    ensures
        r is Some <==> hash_to_curve(systems_bytes()) is Some,
        r is Some ==> r->0@ == hash_to_curve(systems_bytes())->0,
{
    let b: Vec<u8> = vec![83u8, 121u8, 115u8, 116u8, 101u8, 109u8, 115u8];
    assert(b@ =~= systems_bytes());
    hash_to_edwards(b.as_slice())
}

/// "XAND" in ASCII.
pub open spec fn xand_bytes() -> Seq<u8> {
    seq![88u8, 65u8, 78u8, 68u8]
}

/// "Transparent" in ASCII.
pub open spec fn transparent_bytes() -> Seq<u8> {
    seq![84u8, 114u8, 97u8, 110u8, 115u8, 112u8, 97u8, 114u8, 101u8, 110u8, 116u8]
}

/// "Systems" in ASCII.
pub open spec fn systems_bytes() -> Seq<u8> {
    seq![83u8, 121u8, 115u8, 116u8, 101u8, 109u8, 115u8]
}

/// Relies on `RngCore::fill_bytes` of the operating system's generator.
#[verifier::external_body]
fn random_bytes8() -> (r: Vec<u8>)
    ensures
        r@.len() == 8,
{
    let mut b = [0u8; 8];
    OsRng.fill_bytes(&mut b);
    b.to_vec()
}

/// A point hashed from eight random bytes.
pub fn get_random_curve_point() -> (r: Option<Point>)
    ensures
        r is Some ==> exists|b: Seq<u8>| b.len() == 8 && hash_to_curve(b) == Some(r->0@),
{
    let v = random_bytes8();
    hash_to_edwards(v.as_slice())
}

/// The encoding of the sum of a sequence of points, by encodings.
pub open spec fn point_sum(p: Seq<Seq<u8>>) -> Seq<u8>
    decreases p.len(),
{
    if p.len() == 0 {
        identity_encoding()
    } else {
        edwards_add(point_sum(p.drop_last()), p.last())
    }
}

/// The sum of a slice of points.
pub fn sum_points(p: &[Point]) -> (r: Point)
    ensures
        r@ == point_sum(encodings(p@)),
{
    let mut acc = Point::identity();
    let mut i: usize = 0;
    while i < p.len()
        invariant
            i <= p@.len(),
            acc@ == point_sum(encodings(p@.take(i as int))),
        decreases p@.len() - i,
    {
        assert(encodings(p@.take(i as int + 1)).drop_last() =~= encodings(p@.take(i as int)));
        acc = point_add(&acc, &p[i]);
        i = i + 1;
    }
    assert(p@.take(p@.len() as int) =~= p@);
    acc
}

/// A pair of points.
#[derive(Clone, Copy, Debug)]
pub struct CurveVector {
    pub x: Point,
    pub y: Point,
}

impl CurveVector {
    /// The encoding `x || y`.
    pub open spec fn bytes(&self) -> Seq<u8> {
        self.x@ + self.y@
    }

    pub fn size() -> (r: usize)
        ensures
            r == 64,
    {
        64
    }

    /// Writes `x || y` to the front of `buf`.
    pub fn fill_bytes(&self, buf: &mut [u8])
        requires
            old(buf)@.len() >= 64,
        ensures
            final(buf)@.len() == old(buf)@.len(),
            final(buf)@.take(64) == self.bytes(),
            final(buf)@.skip(64) == old(buf)@.skip(64),
    {
        let xb = self.x.to_bytes();
        let yb = self.y.to_bytes();
        let mut i: usize = 0;
        while i < 32
            invariant
                i <= 32,
                buf@.len() == old(buf)@.len(),
                old(buf)@.len() >= 64,
                xb@ == self.x@,
                forall|k: int| 0 <= k < i ==> buf@[k] == xb@[k],
                forall|k: int| i <= k < buf@.len() ==> buf@[k] == old(buf)@[k],
            decreases 32 - i,
        {
            buf[i] = xb[i];
            i = i + 1;
        }
        while i < 64
            invariant
                32 <= i <= 64,
                buf@.len() == old(buf)@.len(),
                old(buf)@.len() >= 64,
                xb@ == self.x@,
                yb@ == self.y@,
                forall|k: int| 0 <= k < 32 ==> buf@[k] == xb@[k],
                forall|k: int| 32 <= k < i ==> buf@[k] == yb@[k - 32],
                forall|k: int| i <= k < buf@.len() ==> buf@[k] == old(buf)@[k],
            decreases 64 - i,
        {
            buf[i] = yb[i - 32];
            i = i + 1;
        }
        assert(buf@.take(64) =~= self.bytes());
        assert(buf@.skip(64) =~= old(buf)@.skip(64));
    }
}

/// The encodings of a list of pairs, one after the other.
pub open spec fn vectors_bytes(v: Seq<CurveVector>) -> Seq<u8> {
    concat(v.map_values(|c: CurveVector| c.bytes()))
}

/// An ordered list of pairs of points.
#[derive(Clone, Debug)]
pub struct VectorTuple {
    pub values: Vec<CurveVector>,
}

impl VectorTuple {
    pub open spec fn bytes(&self) -> Seq<u8> {
        vectors_bytes(self.values@)
    }

    pub fn size(&self) -> (r: usize)
        requires
            self.values@.len() * 64 <= usize::MAX,
        ensures
            r == self.values@.len() * 64,
    {
        self.values.len() * 64
    }

    /// A copy of the tuple.
    pub fn duplicate(&self) -> (r: VectorTuple)
        ensures
            r.values@ == self.values@,
    {
        VectorTuple { values: crate::sort::to_vec(self.values.as_slice()) }
    }

    /// Writes the encoding of every pair to the front of `buf`.
    pub fn fill_bytes(&self, buf: &mut [u8])
        requires
            old(buf)@.len() >= self.bytes().len(),
        ensures
            final(buf)@.len() == old(buf)@.len(),
            final(buf)@.take(self.bytes().len() as int) == self.bytes(),
            final(buf)@.skip(self.bytes().len() as int) == old(buf)@.skip(self.bytes().len() as int),
    {
        let mut tmp: Vec<u8> = Vec::new();
        self.push_bytes(&mut tmp);
        assert(tmp@ =~= Seq::<u8>::empty() + self.bytes());
        crate::sort::copy(buf, tmp.as_slice());
        assert(buf@.take(self.bytes().len() as int) =~= self.bytes());
        assert(buf@.skip(self.bytes().len() as int) =~= old(buf)@.skip(self.bytes().len() as int));
    }

    /// Appends the encoding of every pair to a buffer.
    pub fn push_bytes(&self, buf: &mut Vec<u8>)
        ensures
            final(buf)@ == old(buf)@ + self.bytes(),
    {
        let ghost s = self.values@.map_values(|c: CurveVector| c.bytes());
        let mut i: usize = 0;
        while i < self.values.len()
            invariant
                i <= self.values@.len(),
                s == self.values@.map_values(|c: CurveVector| c.bytes()),
                buf@ == old(buf)@ + concat(s.take(i as int)),
            decreases self.values@.len() - i,
        {
            proof {
                lemma_concat_push(s, i as int);
            }
            let c = self.values[i];
            push_point(buf, &c.x);
            push_point(buf, &c.y);
            assert(buf@ =~= old(buf)@ + concat(s.take(i as int + 1)));
            i = i + 1;
        }
        assert(s.take(self.values@.len() as int) =~= s);
    }
}

} // verus!
