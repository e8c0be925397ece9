//! The inner-product argument: a logarithmic-size proof that a point `P`
//! equals `<a, G> + <b, H> + <a, b> * u`.
use vstd::prelude::*;
use crate::scalar::{Scalar, ell, values, scalar_inverse, sc_mul, sc_invert, sc_from_u64};
use crate::point::{hash_scalar, identity_encoding};
use vstd::arithmetic::power2::pow2;
use crate::point::{Point, edwards_msm, encodings, lin2, edwards_add, edwards_mul, point_add, point_mul, point_msm, lin_comb, get_hash};
use crate::sort::to_vec;
use crate::vectors::{inner_product, add_mult, multiply_scalar_arrays, dot};

verus! {

/// `n` is a power of two.
pub open spec fn is_power_of_two(n: nat) -> bool
    decreases n,
{
    if n == 1 {
        true
    } else if n == 0 || n % 2 == 1 {
        false
    } else {
        is_power_of_two(n / 2)
    }
}

/// The number of halvings that take a power of two to one.
pub open spec fn log2(n: nat) -> nat
    decreases n,
{
    if n <= 1 {
        0
    } else {
        1 + log2(n / 2)
    }
}

/// An inner-product proof `(L[], R[], a, b)`.
#[derive(Clone, Debug)]
#[allow(non_snake_case)]
pub struct BulletProof {
    pub Ls: Vec<Point>,
    pub Rs: Vec<Point>,
    pub a: Scalar,
    pub b: Scalar,
}

impl BulletProof {
    pub open spec fn ls(&self) -> Seq<Point> {
        self.Ls@
    }

    pub open spec fn rs(&self) -> Seq<Point> {
        self.Rs@
    }

    /// The proof with cross terms `ls`, `rs` and final scalars `a`, `b`.
    pub fn from_parts(ls: Vec<Point>, rs: Vec<Point>, a: Scalar, b: Scalar) -> (r: BulletProof)
        ensures
            r.ls() == ls@,
            r.rs() == rs@,
            r.fa() == a,
            r.fb() == b,
    {
        BulletProof { Ls: ls, Rs: rs, a, b }
    }

    pub fn ls_points(&self) -> (r: &Vec<Point>)
        ensures
            r@ == self.ls(),
    {
        &self.Ls
    }

    pub fn rs_points(&self) -> (r: &Vec<Point>)
        ensures
            r@ == self.rs(),
    {
        &self.Rs
    }

    pub fn a_value(&self) -> (r: Scalar)
        ensures
            r == self.fa(),
    {
        self.a
    }

    pub fn b_value(&self) -> (r: Scalar)
        ensures
            r == self.fb(),
    {
        self.b
    }

    /// The number of rounds, one `(L, R)` pair each.
    pub fn rounds(&self) -> (r: (usize, usize))
        ensures
            r.0 == self.ls().len(),
            r.1 == self.rs().len(),
    {
        (self.Ls.len(), self.Rs.len())
    }

    /// A copy of the proof.
    pub fn duplicate(&self) -> (r: BulletProof)
        ensures
            r.ls() == self.ls(),
            r.rs() == self.rs(),
            r.fa() == self.fa(),
            r.fb() == self.fb(),
    {
        BulletProof { Ls: to_vec(self.Ls.as_slice()), Rs: to_vec(self.Rs.as_slice()), a: self.a, b: self.b }
    }

    pub open spec fn fa(&self) -> Scalar {
        self.a
    }

    pub open spec fn fb(&self) -> Scalar {
        self.b
    }
}

/// The placeholder proof with no rounds and zero scalars.
pub fn fake_bullet_proof() -> (r: BulletProof)
    ensures
        r.ls().len() == 0,
        r.rs().len() == 0,
        r.fa().value() == 0,
        r.fb().value() == 0,
{
    BulletProof { Ls: Vec::new(), Rs: Vec::new(), a: Scalar::zero(), b: Scalar::zero() }
}

/// `<x, a> + <y, b>` as one multiscalar multiplication.
pub fn multiscalar_mul_add(x: &[Scalar], a: &[Point], y: &[Scalar], b: &[Point]) -> (r: Point)
    requires
        x@.len() == a@.len(),
        y@.len() == b@.len(),
    ensures
        r@ == edwards_msm(values(x@) + values(y@), encodings(a@) + encodings(b@)),
{
    let mut s: Vec<Scalar> = Vec::new();
    let mut v: Vec<Point> = Vec::new();
    let mut i: usize = 0;
    while i < x.len()
        invariant
            x@.len() == a@.len(),
            i <= x@.len(),
            s@ == x@.take(i as int),
            v@ == a@.take(i as int),
        decreases x@.len() - i,
    {
        s.push(x[i]);
        v.push(a[i]);
        assert(s@ =~= x@.take(i as int + 1));
        assert(v@ =~= a@.take(i as int + 1));
        i = i + 1;
    }
    let mut k: usize = 0;
    while k < y.len()
        invariant
            x@.len() == a@.len(),
            y@.len() == b@.len(),
            k <= y@.len(),
            s@ == x@ + y@.take(k as int),
            v@ == a@ + b@.take(k as int),
        decreases y@.len() - k,
    {
        s.push(y[k]);
        v.push(b[k]);
        assert(s@ =~= x@ + y@.take(k as int + 1));
        assert(v@ =~= a@ + b@.take(k as int + 1));
        k = k + 1;
    }
    assert(s@ =~= x@ + y@);
    assert(v@ =~= a@ + b@);
    assert(values(s@) =~= values(x@) + values(y@));
    assert(encodings(v@) =~= encodings(a@) + encodings(b@));
    point_msm(s.as_slice(), v.as_slice())
}

/// `x * a[i] + y * b[i]`, element by element.
fn add_mult_ed(x: &Scalar, a: &[Point], y: &Scalar, b: &[Point]) -> (r: Vec<Point>)
    requires
        a@.len() == b@.len(),
    ensures
        r@.len() == a@.len(),
        forall|i: int| 0 <= i < a@.len() ==> (#[trigger] r@[i])@ == lin2(x.value(), a@[i]@, y.value(), b@[i]@),
{
    let mut r: Vec<Point> = Vec::new();
    let mut i: usize = 0;
    while i < a.len()
        invariant
            a@.len() == b@.len(),
            i <= a@.len(),
            r@.len() == i,
            forall|k: int| 0 <= k < i ==> (#[trigger] r@[k])@ == lin2(x.value(), a@[k]@, y.value(), b@[k]@),
        decreases a@.len() - i,
    {
        r.push(lin_comb(x, &a[i], y, &b[i]));
        i = i + 1;
    }
    r
}

/// `x[i] * a[i]`, element by element.
pub(crate) fn mult_ed(x: &[Scalar], a: &[Point]) -> (r: Vec<Point>)
    requires
        x@.len() == a@.len(),
    ensures
        r@.len() == a@.len(),
        forall|i: int| 0 <= i < a@.len() ==> (#[trigger] r@[i])@ == edwards_mul(x@[i].value(), a@[i]@),
{
    let mut r: Vec<Point> = Vec::new();
    let mut i: usize = 0;
    while i < a.len()
        invariant
            x@.len() == a@.len(),
            i <= a@.len(),
            r@.len() == i,
            forall|k: int| 0 <= k < i ==> (#[trigger] r@[k])@ == edwards_mul(x@[k].value(), a@[k]@),
        decreases a@.len() - i,
    {
        r.push(point_mul(&x[i], &a[i]));
        i = i + 1;
    }
    r
}

/// The two halves of a vector of even length.
fn halves<T: Copy>(v: &[T]) -> (r: (Vec<T>, Vec<T>))
    requires
        v@.len() % 2 == 0,
    ensures
        r.0@ == v@.take((v@.len() / 2) as int),
        r.1@ == v@.skip((v@.len() / 2) as int),
{
    let n = v.len() / 2;
    let mut lo: Vec<T> = Vec::new();
    let mut hi: Vec<T> = Vec::new();
    let mut i: usize = 0;
    while i < n
        invariant
            n == v@.len() / 2,
            i <= n,
            lo@ == v@.take(i as int),
            hi@ == v@.skip(n as int).take(i as int),
        decreases n - i,
    {
        lo.push(v[i]);
        hi.push(v[n + i]);
        assert(lo@ =~= v@.take(i as int + 1));
        assert(hi@ =~= v@.skip(n as int).take(i as int + 1));
        i = i + 1;
    }
    assert(hi@ =~= v@.skip(n as int));
    (lo, hi)
}

/// `x * lo[i] + y * hi[i]` reduced, element by element.
pub open spec fn fold_scalars(x: nat, lo: Seq<nat>, y: nat, hi: Seq<nat>) -> Seq<nat> {
    Seq::new(lo.len(), |i: int| ((x * lo[i]) % ell() + (y * hi[i]) % ell()) % ell())
}

/// `x * lo[i] + y * hi[i]`, element by element, by encodings.
pub open spec fn fold_points(x: nat, lo: Seq<Seq<u8>>, y: nat, hi: Seq<Seq<u8>>) -> Seq<Seq<u8>> {
    Seq::new(lo.len(), |i: int| lin2(x, lo[i], y, hi[i]))
}

/// A cross term `<a, g> + <b, h> + <a, b> * u`.
pub open spec fn cross_term(a: Seq<nat>, b: Seq<nat>, g: Seq<Seq<u8>>, h: Seq<Seq<u8>>, u: Seq<u8>) -> Seq<u8> {
    edwards_add(edwards_msm(a + b, g + h), edwards_mul((dot(a, b) % (ell() as int)) as nat, u))
}

/// What the prover makes of `g`, `h`, `u`, `a`, `b`: the `L` and `R` of
/// each round and the final `a`, `b`. A round splits every vector in
/// halves, commits to `L = <a_lo, g_hi> + <b_hi, h_lo> + <a_lo, b_hi> u` and
/// `R = <a_hi, g_lo> + <b_lo, h_hi> + <a_hi, b_lo> u`, takes `x = H(L || R)`
/// and folds `a` with `(x, x^-1)`, `b` and `g` with `(x^-1, x)`, `h` with
/// `(x, x^-1)`.
pub open spec fn ipa_prove(
    g: Seq<Seq<u8>>,
    h: Seq<Seq<u8>>,
    u: Seq<u8>,
    a: Seq<nat>,
    b: Seq<nat>,
) -> (Seq<Seq<u8>>, Seq<Seq<u8>>, nat, nat)
    decreases a.len(),
{
    if a.len() <= 1 {
        (Seq::empty(), Seq::empty(), a[0], b[0])
    } else {
        let k = (a.len() / 2) as int;
        let l = cross_term(a.take(k), b.skip(k), g.skip(k), h.take(k), u);
        let r = cross_term(a.skip(k), b.take(k), g.take(k), h.skip(k), u);
        let x = hash_scalar(l + r);
        let xi = scalar_inverse(x);
        let rest = ipa_prove(
            fold_points(xi, g.take(k), x, g.skip(k)),
            fold_points(x, h.take(k), xi, h.skip(k)),
            u,
            fold_scalars(x, a.take(k), xi, a.skip(k)),
            fold_scalars(xi, b.take(k), x, b.skip(k)),
        );
        (seq![l] + rest.0, seq![r] + rest.1, rest.2, rest.3)
    }
}

/// One round of the prover: the cross terms `L`, `R`, the folded `a`, `b`,
/// and the challenge `x`.
#[allow(non_snake_case)]
fn create_bulletproof_one_step(
    g: &[Point],
    h: &[Point],
    u: &Point,
    a: &[Scalar],
    b: &[Scalar],
) -> (r: (Point, Point, Vec<Scalar>, Vec<Scalar>, Scalar))
    requires
        g@.len() == h@.len(),
        g@.len() == a@.len(),
        g@.len() == b@.len(),
        g@.len() % 2 == 0,
    ensures
        ({
            let k = (a@.len() / 2) as int;
            let va = values(a@);
            let vb = values(b@);
            let eg = encodings(g@);
            let eh = encodings(h@);
            &&& r.0@ == cross_term(va.take(k), vb.skip(k), eg.skip(k), eh.take(k), u@)
            &&& r.1@ == cross_term(va.skip(k), vb.take(k), eg.take(k), eh.skip(k), u@)
            &&& r.4.value() == hash_scalar(r.0@ + r.1@)
            &&& values(r.2@) == fold_scalars(r.4.value(), va.take(k), scalar_inverse(r.4.value()), va.skip(k))
            &&& values(r.3@) == fold_scalars(scalar_inverse(r.4.value()), vb.take(k), r.4.value(), vb.skip(k))
        }),
        r.2@.len() == a@.len() / 2,
        r.3@.len() == a@.len() / 2,
{
    let (a1, a2) = halves(a);
    let (b1, b2) = halves(b);
    let (g1, g2) = halves(g);
    let (h1, h2) = halves(h);
    let cl = inner_product(a1.as_slice(), b2.as_slice());
    let cr = inner_product(a2.as_slice(), b1.as_slice());
    let L = point_add(
        &multiscalar_mul_add(a1.as_slice(), g2.as_slice(), b2.as_slice(), h1.as_slice()),
        &point_mul(&cl, u),
    );
    let R = point_add(
        &multiscalar_mul_add(a2.as_slice(), g1.as_slice(), b1.as_slice(), h2.as_slice()),
        &point_mul(&cr, u),
    );
    let x = get_hash(&L, &R);
    let x_ = sc_invert(x);
    let a_ = add_mult(x, a1.as_slice(), x_, a2.as_slice());
    let b_ = add_mult(x_, b1.as_slice(), x, b2.as_slice());
    proof {
        let k = (a@.len() / 2) as int;
        assert(values(a1@) =~= values(a@).take(k));
        assert(values(a2@) =~= values(a@).skip(k));
        assert(values(b1@) =~= values(b@).take(k));
        assert(values(b2@) =~= values(b@).skip(k));
        assert(encodings(g1@) =~= encodings(g@).take(k));
        assert(encodings(g2@) =~= encodings(g@).skip(k));
        assert(encodings(h1@) =~= encodings(h@).take(k));
        assert(encodings(h2@) =~= encodings(h@).skip(k));
        assert(values(a_@) =~= fold_scalars(x.value(), values(a@).take(k), x_.value(), values(a@).skip(k)));
        assert(values(b_@) =~= fold_scalars(x_.value(), values(b@).take(k), x.value(), values(b@).skip(k)));
    }
    (L, R, a_, b_, x)
}

/// Proves knowledge of `a`, `b` with `P = <a, g> + <b, h> + <a, b> * u`.
pub fn create_bulletproof(
    n: usize,
    g: &[Point],
    h: &[Point],
    u: Point,
    a: &Vec<Scalar>,
    b: &Vec<Scalar>,
) -> (r: BulletProof)
    requires
        is_power_of_two(n as nat),
        g@.len() == n,
        h@.len() == n,
        a@.len() == n,
        b@.len() == n,
    ensures
        r.ls().len() == log2(n as nat),
        r.rs().len() == log2(n as nat),
        ({
            let res = ipa_prove(encodings(g@), encodings(h@), u@, values(a@), values(b@));
            &&& encodings(r.ls()) == res.0
            &&& encodings(r.rs()) == res.1
            &&& r.fa().value() == res.2
            &&& r.fb().value() == res.3
        }),
{
    let ghost res = ipa_prove(encodings(g@), encodings(h@), u@, values(a@), values(b@));
    let mut aa: Vec<Scalar> = to_vec(a.as_slice());
    let mut bb: Vec<Scalar> = to_vec(b.as_slice());
    let mut gg: Vec<Point> = to_vec(g);
    let mut hh: Vec<Point> = to_vec(h);
    let mut ls: Vec<Point> = Vec::new();
    let mut rs: Vec<Point> = Vec::new();
    let mut m = n;
    while m > 1
        invariant
            is_power_of_two(m as nat),
            aa@.len() == m,
            bb@.len() == m,
            gg@.len() == m,
            hh@.len() == m,
            ls@.len() == rs@.len(),
            ls@.len() + log2(m as nat) == log2(n as nat),
            ({
                let cur = ipa_prove(encodings(gg@), encodings(hh@), u@, values(aa@), values(bb@));
                &&& res.0 == encodings(ls@) + cur.0
                &&& res.1 == encodings(rs@) + cur.1
                &&& res.2 == cur.2
                &&& res.3 == cur.3
            }),
        decreases m,
    {
        let ghost cur = ipa_prove(encodings(gg@), encodings(hh@), u@, values(aa@), values(bb@));
        let ghost old_ls = ls@;
        let ghost old_rs = rs@;
        let (l, r, a_, b_, x) = create_bulletproof_one_step(
            gg.as_slice(),
            hh.as_slice(),
            &u,
            aa.as_slice(),
            bb.as_slice(),
        );
        ls.push(l);
        rs.push(r);
        aa = a_;
        bb = b_;
        let x_ = sc_invert(x);
        let (g1, g2) = halves(gg.as_slice());
        let (h1, h2) = halves(hh.as_slice());
        let ghost kk = (m / 2) as int;
        let ghost eg = encodings(gg@);
        let ghost eh = encodings(hh@);
        gg = add_mult_ed(&x_, g1.as_slice(), &x, g2.as_slice());
        hh = add_mult_ed(&x, h1.as_slice(), &x_, h2.as_slice());
        proof {
            assert(encodings(g1@) =~= eg.take(kk));
            assert(encodings(g2@) =~= eg.skip(kk));
            assert(encodings(h1@) =~= eh.take(kk));
            assert(encodings(h2@) =~= eh.skip(kk));
            assert(encodings(gg@) =~= fold_points(x_.value(), eg.take(kk), x.value(), eg.skip(kk)));
            assert(encodings(hh@) =~= fold_points(x.value(), eh.take(kk), x_.value(), eh.skip(kk)));
            assert(encodings(ls@) =~= encodings(old_ls) + seq![l@]);
            assert(encodings(rs@) =~= encodings(old_rs) + seq![r@]);
            let next = ipa_prove(encodings(gg@), encodings(hh@), u@, values(aa@), values(bb@));
            assert(cur.0 == seq![l@] + next.0);
            assert(encodings(ls@) + next.0 =~= encodings(old_ls) + (seq![l@] + next.0));
            assert(encodings(rs@) + next.1 =~= encodings(old_rs) + (seq![r@] + next.1));
        }
        m = m / 2;
    }
    assert(m == 1) by {
        assert(is_power_of_two(m as nat));
    }
    assert(encodings(ls@) + Seq::<Seq<u8>>::empty() =~= encodings(ls@));
    assert(encodings(rs@) + Seq::<Seq<u8>>::empty() =~= encodings(rs@));
    BulletProof { Ls: ls, Rs: rs, a: aa[0], b: bb[0] }
}

/// The factor of item `i` in a round with blocks of `b` items: `x` in
/// even blocks, `xi` in odd ones.
pub open spec fn block_factor(x: nat, xi: nat, i: int, b: int) -> nat {
    if (i / b) % 2 == 0 {
        x
    } else {
        xi
    }
}

/// Multiplies the items of `v` by `x` or by `x^-1`, alternating in blocks
/// of `b` items, starting with `x`.
fn alt_mult(x: Scalar, v: &mut Vec<Scalar>, b: usize)
    requires
        b > 0,
    ensures
        final(v)@.len() == old(v)@.len(),
        forall|i: int|
            0 <= i < old(v)@.len() ==> (#[trigger] final(v)@[i]).value() == (old(v)@[i].value() * block_factor(
                x.value(),
                scalar_inverse(x.value()),
                i,
                b as int,
            )) % ell(),
{
    let x_ = sc_invert(x);
    let mut i: usize = 0;
    while i < v.len()
        invariant
            i <= v@.len(),
            b > 0,
            x_.value() == scalar_inverse(x.value()),
            v@.len() == old(v)@.len(),
            forall|k: int|
                0 <= k < i ==> (#[trigger] v@[k]).value() == (old(v)@[k].value() * block_factor(
                    x.value(),
                    x_.value(),
                    k,
                    b as int,
                )) % ell(),
            forall|k: int| i <= k < v@.len() ==> #[trigger] v@[k] == old(v)@[k],
        decreases v@.len() - i,
    {
        let cur = v[i];
        if (i / b) % 2 == 0 {
            v[i] = sc_mul(cur, x);
        } else {
            v[i] = sc_mul(cur, x_);
        }
        i = i + 1;
    }
}

/// The challenge of round `k`: `H(L_k || R_k)`.
pub open spec fn round_challenge(p: BulletProof, k: int) -> nat {
    hash_scalar(p.ls()[k]@ + p.rs()[k]@)
}

/// The verifier's weight of generator `i` of `n` after `k` rounds: the
/// product, reduced at each step, of one factor per round, the challenge
/// or its inverse as the block of item `i` in that round is odd or even.
/// For the `H` weights even blocks take the challenge `x` and odd ones its
/// inverse `x^-1`; for the `G` weights (`inverse_first`) even blocks take
/// `x^-1` and odd ones the inverse of `x^-1`, which is `x` where `x` is
/// not zero.
pub open spec fn fold_weight(p: BulletProof, n: nat, k: nat, i: int, inverse_first: bool) -> nat
    decreases k,
{
    if k == 0 {
        1
    } else {
        let x = round_challenge(p, k - 1);
        let xi = scalar_inverse(x);
        let b = (n / pow2(k)) as int;
        let f = if inverse_first {
            block_factor(xi, scalar_inverse(xi), i, b)
        } else {
            block_factor(x, xi, i, b)
        };
        (fold_weight(p, n, (k - 1) as nat, i, inverse_first) * f) % ell()
    }
}

/// `sum_k x_k^2 * L_k` over the first `k` rounds, added in order.
pub open spec fn l_sum(p: BulletProof, k: nat) -> Seq<u8>
    decreases k,
{
    if k == 0 {
        identity_encoding()
    } else {
        let x = round_challenge(p, k - 1);
        edwards_add(l_sum(p, (k - 1) as nat), edwards_mul((x * x) % ell(), p.ls()[k - 1]@))
    }
}

/// `sum_k x_k^-2 * R_k` over the first `k` rounds, added in order.
pub open spec fn r_sum(p: BulletProof, k: nat) -> Seq<u8>
    decreases k,
{
    if k == 0 {
        identity_encoding()
    } else {
        let xi = scalar_inverse(round_challenge(p, k - 1));
        edwards_add(r_sum(p, (k - 1) as nat), edwards_mul((xi * xi) % ell(), p.rs()[k - 1]@))
    }
}

/// The verifier's final equation
/// `a * <s, G> + b * <s' o hmul, H> + a * b * u == P + sum x^2 L + sum x^-2 R`.
pub open spec fn ipa_equation(
    n: nat,
    g: Seq<Point>,
    h: Seq<Point>,
    hmul: Seq<nat>,
    u: Seq<u8>,
    big_p: Seq<u8>,
    p: BulletProof,
) -> bool {
    let k = p.ls().len();
    let gw = Seq::new(n, |i: int| fold_weight(p, n, k, i, true));
    let hw = Seq::new(n, |i: int| (fold_weight(p, n, k, i, false) * hmul[i]) % ell());
    let gg = edwards_msm(gw, encodings(g));
    let hh = edwards_msm(hw, encodings(h));
    let a = p.fa().value();
    let b = p.fb().value();
    edwards_msm(seq![a, b, (a * b) % ell()], seq![gg, hh, u]) == edwards_add(edwards_add(big_p, l_sum(p, k)), r_sum(p, k))
}

/// The shape that a proof for `n` generators has: as many `L` as `R`, and
/// `n = 2^rounds`.
pub open spec fn ipa_shape(n: nat, g: nat, h: nat, hmul: nat, p: BulletProof) -> bool {
    &&& p.ls().len() == p.rs().len()
    &&& is_power_of_two(n)
    &&& log2(n) == p.ls().len()
    &&& g == n
    &&& h == n
    &&& hmul == n
}

proof fn lemma_log2_pow2(n: nat)
    requires
        is_power_of_two(n),
    ensures
        n >= 1,
    decreases n,
{
    if n != 1 {
        lemma_log2_pow2(n / 2);
    }
}

/// A proof with `log2(n)` rounds for `n = 2^k` generators has the shape that
/// the verifier asks for; `create_bulletproof` makes such proofs.
pub proof fn lemma_created_ipa_has_shape(n: nat, p: BulletProof)
    requires
        is_power_of_two(n),
        p.ls().len() == log2(n),
        p.rs().len() == log2(n),
    ensures
        ipa_shape(n, n, n, n, p),
{
}

/// Halves `n` `k` times, failing where it does not come to one exactly.
fn halves_to_one(n: usize, k: usize) -> (r: bool)
    ensures
        r == (is_power_of_two(n as nat) && log2(n as nat) == k),
    decreases k,
{
    if k == 0 {
        return n == 1;
    }
    if n < 2 || n % 2 == 1 {
        return false;
    }
    halves_to_one(n / 2, k - 1)
}

/// Checks an inner-product proof for `P` where the `H` generators are
/// weighted by `hmul`.
#[allow(non_snake_case)]
pub fn verify_bulletproof_hmul(
    n: usize,
    g: &[Point],
    h: &[Point],
    hmul: &[Scalar],
    u: Point,
    P: Point,
    proof: &BulletProof,
) -> (r: bool)
    ensures
        r == (ipa_shape(n as nat, g@.len(), h@.len(), hmul@.len(), *proof) && ipa_equation(
            n as nat,
            g@,
            h@,
            values(hmul@),
            u@,
            P@,
            *proof,
        )),
{
    if proof.Ls.len() != proof.Rs.len() {
        return false;
    }
    if !halves_to_one(n, proof.Ls.len()) {
        return false;
    }
    if g.len() != n || h.len() != n || hmul.len() != n {
        return false;
    }
    proof {
        lemma_log2_pow2(n as nat);
    }
    let one = sc_from_u64(1);
    let mut s: Vec<Scalar> = vec![one; n];
    let mut s_: Vec<Scalar> = vec![one; n];
    proof {
        vstd::arithmetic::power2::lemma2_to64();
    }
    let mut lmul = Point::identity();
    let mut rmul = Point::identity();
    let mut m = n;
    let mut i: usize = 0;
    while i < proof.Ls.len()
        invariant
            proof.Ls@.len() == proof.Rs@.len(),
            i <= proof.Ls@.len(),
            is_power_of_two(m as nat),
            log2(m as nat) + i == proof.Ls@.len(),
            m * pow2(i as nat) == n,
            s@.len() == n,
            s_@.len() == n,
            forall|q: int| 0 <= q < n ==> (#[trigger] s@[q]).value() == fold_weight(*proof, n as nat, i as nat, q, true),
            forall|q: int| 0 <= q < n ==> (#[trigger] s_@[q]).value() == fold_weight(*proof, n as nat, i as nat, q, false),
            lmul@ == l_sum(*proof, i as nat),
            rmul@ == r_sum(*proof, i as nat),
        decreases proof.Ls@.len() - i,
    {
        let l = proof.Ls[i];
        let r = proof.Rs[i];
        let x = get_hash(&l, &r);
        let x_ = sc_invert(x);
        proof {
            assert(m >= 2) by {
                lemma_log2_pow2(m as nat);
            }
        }
        proof {
            vstd::arithmetic::power2::lemma_pow2_adds(i as nat, 1);
            vstd::arithmetic::power2::lemma2_to64();
            assert(m % 2 == 0) by {
                assert(m >= 2);
                assert(is_power_of_two(m as nat));
            }
            let half = (m / 2) as int;
            let pw = pow2(i as nat) as int;
            assert(n as int == half * (pw * 2)) by (nonlinear_arith)
                requires
                    m as int * pw == n as int,
                    m as int == 2 * half,
            ;
            vstd::arithmetic::power2::lemma_pow2_pos(i as nat);
            vstd::arithmetic::div_mod::lemma_div_by_multiple(half, pw * 2);
            assert(n as nat / pow2(i as nat + 1) == half);
        }
        let ghost s0 = s@;
        let ghost s0_ = s_@;
        alt_mult(x_, &mut s, m / 2);
        alt_mult(x, &mut s_, m / 2);
        proof {
            assert(x.value() == round_challenge(*proof, i as int));
            assert forall|q: int| 0 <= q < n implies (#[trigger] s@[q]).value() == fold_weight(*proof, n as nat, i as nat + 1, q, true) by {
                assert(s0[q].value() == fold_weight(*proof, n as nat, i as nat, q, true));
            }
            assert forall|q: int| 0 <= q < n implies (#[trigger] s_@[q]).value() == fold_weight(*proof, n as nat, i as nat + 1, q, false) by {
                assert(s0_[q].value() == fold_weight(*proof, n as nat, i as nat, q, false));
            }
        }
        lmul = point_add(&lmul, &point_mul(&sc_mul(x, x), &l));
        rmul = point_add(&rmul, &point_mul(&sc_mul(x_, x_), &r));
        m = m / 2;
        i = i + 1;
    }
    let gg = point_msm(s.as_slice(), g);
    let weights = multiply_scalar_arrays(s_.as_slice(), hmul);
    let hh = point_msm(weights.as_slice(), h);
    let ab = sc_mul(proof.a, proof.b);
    let sc: Vec<Scalar> = vec![proof.a, proof.b, ab];
    let pts: Vec<Point> = vec![gg, hh, u];
    let lhs = point_msm(sc.as_slice(), pts.as_slice());
    let rhs = point_add(&point_add(&P, &lmul), &rmul);
    proof {
        let k = proof.Ls@.len() as nat;
        assert(values(s@) =~= Seq::new(n as nat, |q: int| fold_weight(*proof, n as nat, k, q, true)));
        assert(values(weights@) =~= Seq::new(
            n as nat,
            |q: int| (fold_weight(*proof, n as nat, k, q, false) * values(hmul@)[q]) % ell(),
        ));
        assert(values(sc@) =~= seq![proof.a.value(), proof.b.value(), (proof.a.value() * proof.b.value()) % ell()]);
        assert(encodings(pts@) =~= seq![gg@, hh@, u@]);
    }
    lhs.equals(&rhs)
}

/// Checks an inner-product proof for `P`.
#[allow(non_snake_case)]
pub fn verify_bulletproof(n: usize, g: &[Point], h: &[Point], u: Point, P: Point, proof: &BulletProof) -> (r: bool)
    ensures
        r == (ipa_shape(n as nat, g@.len(), h@.len(), n as nat, *proof) && ipa_equation(
            n as nat,
            g@,
            h@,
            Seq::new(n as nat, |i: int| 1nat),
            u@,
            P@,
            *proof,
        )),
{
    let ones: Vec<Scalar> = vec![sc_from_u64(1); n];
    assert(values(ones@) =~= Seq::new(n as nat, |i: int| 1nat));
    verify_bulletproof_hmul(n, g, h, ones.as_slice(), u, P, proof)
}

} // verus!
