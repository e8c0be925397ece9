//! The aggregated range proof: each of `m` Pedersen commitments
//! `V_k = v_k * G_0 + gamma_k * H_0` opens to a value below `2^64`.
use vstd::prelude::*;
use vstd::arithmetic::power::pow;
use crate::scalar::{Scalar, ell, values, scalar_inverse, sc_add, sc_sub, sc_mul, sc_neg, sc_invert, sc_from_u64};
use crate::point::{Point, lin2, identity_encoding, edwards_msm, edwards_add, edwards_sub, edwards_mul, encodings, point_add, point_sub, point_mul, point_msm, lin_comb, get_hash, get_hash_of_data_and_points};
use crate::bases::{Bases, RANGE_SIZE};
use crate::schnorr::{create_modified_schnorr, verify_modified_schnorr, schnorr_accepts, schnorr_made};
use crate::point::{concat, hash_scalar};
use crate::ipa::{ipa_prove, BulletProof, is_power_of_two, log2, ipa_shape, ipa_equation, create_bulletproof, verify_bulletproof_hmul, multiscalar_mul_add};
use crate::vectors::{dot, inner_product, add_mult, multiply_scalar_arrays, add_scalar_arrays, substract_scalar_arrays, multiply_scalar_to_array, array_of, to_the_n};

verus! {

/// The least power of two that is at least `n`, starting the search at `p`.
pub open spec fn pow2_at_least(n: nat, p: nat) -> nat
    decreases (if p < n {
        n - p
    } else {
        0
    }),
{
    if p == 0 {
        1
    } else if p >= n {
        p
    } else {
        pow2_at_least(n, 2 * p)
    }
}

/// The least power of two that is at least `n` (one for zero).
pub open spec fn padded_len(n: nat) -> nat {
    pow2_at_least(n, 1)
}

proof fn lemma_pow2_at_least(n: nat, p: nat)
    requires
        p >= 1,
        is_power_of_two(p),
    ensures
        is_power_of_two(pow2_at_least(n, p)),
        pow2_at_least(n, p) >= n,
        pow2_at_least(n, p) >= p,
        p < n ==> pow2_at_least(n, p) < 2 * n,
    decreases (if p < n {
        n - p
    } else {
        0
    }),
{
    if p < n {
        assert((2 * p) / 2 == p);
        assert(is_power_of_two(2 * p));
        lemma_pow2_at_least(n, 2 * p);
    }
}

/// The least power of two that is at least `y`.
pub fn to_2s_power(y: usize) -> (r: usize)
    requires
        y <= usize::MAX / 2,
    ensures
        r == padded_len(y as nat),
        is_power_of_two(r as nat),
        r >= y,
        r >= 1,
        y >= 1 ==> r < 2 * y,
{
    proof {
        lemma_pow2_at_least(y as nat, 1);
    }
    let mut p: usize = 1;
    while p < y
        invariant
            1 <= p,
            is_power_of_two(p as nat),
            y <= usize::MAX / 2,
            p < 2 * y || p == 1,
            pow2_at_least(y as nat, p as nat) == padded_len(y as nat),
        decreases (if p < y {
            y - p
        } else {
            0
        }),
    {
        p = p * 2;
    }
    p
}

/// The values, padded with zeros to a power-of-two length.
fn to_2s_pow_vec(v: &[u64]) -> (r: Vec<u64>)
    requires
        v@.len() <= usize::MAX / 2,
    ensures
        r@.len() == padded_len(v@.len()),
        r@.take(v@.len() as int) == v@,
        forall|k: int| v@.len() <= k < r@.len() ==> r@[k] == 0,
{
    let t = to_2s_power(v.len());
    let mut r: Vec<u64> = Vec::new();
    let mut i: usize = 0;
    while i < t
        invariant
            t >= v@.len(),
            i <= t,
            r@.len() == i,
            forall|k: int| 0 <= k < i && k < v@.len() ==> r@[k] == v@[k],
            forall|k: int| v@.len() <= k < i ==> r@[k] == 0,
        decreases t - i,
    {
        if i < v.len() {
            r.push(v[i]);
        } else {
            r.push(0);
        }
        i = i + 1;
    }
    assert(r@.take(v@.len() as int) =~= v@);
    r
}

/// The scalars, padded with zeros to a power-of-two length.
fn to_2s_pow_scalar_vec(g: &[Scalar]) -> (r: Vec<Scalar>)
    requires
        g@.len() <= usize::MAX / 2,
    ensures
        r@.len() == padded_len(g@.len()),
        r@.take(g@.len() as int) == g@,
        forall|k: int| g@.len() <= k < r@.len() ==> (#[trigger] r@[k]).value() == 0,
{
    let t = to_2s_power(g.len());
    let zero = sc_from_u64(0);
    let mut r: Vec<Scalar> = Vec::new();
    let mut i: usize = 0;
    while i < t
        invariant
            t >= g@.len(),
            i <= t,
            r@.len() == i,
            zero.value() == 0,
            forall|k: int| 0 <= k < i && k < g@.len() ==> r@[k] == g@[k],
            forall|k: int| g@.len() <= k < i ==> (#[trigger] r@[k]).value() == 0,
        decreases t - i,
    {
        if i < g.len() {
            r.push(g[i]);
        } else {
            r.push(zero);
        }
        i = i + 1;
    }
    assert(r@.take(g@.len() as int) =~= g@);
    r
}

/// Bit `k % 64` of value `k / 64`.
pub open spec fn bit_of(v: Seq<u64>, k: int) -> nat {
    ((v[k / 64] >> ((k % 64) as u64)) & 1) as nat
}

/// The bits of the values, 64 per value, least significant first.
fn scalars_vec_from_bits_of_values_array(v: &[u64]) -> (r: Vec<Scalar>)
    requires
        64 * v@.len() <= usize::MAX,
    ensures
        r@.len() == 64 * v@.len(),
        forall|k: int| 0 <= k < r@.len() ==> (#[trigger] r@[k]).value() == bit_of(v@, k),
{
    let mut r: Vec<Scalar> = Vec::new();
    let mut j: usize = 0;
    while j < v.len()
        invariant
            64 * v@.len() <= usize::MAX,
            j <= v@.len(),
            r@.len() == 64 * j,
            forall|k: int| 0 <= k < r@.len() ==> (#[trigger] r@[k]).value() == bit_of(v@, k),
        decreases v@.len() - j,
    {
        let mut w = v[j];
        let mut i: u64 = 0;
        assert(w >> 0u64 == w) by (bit_vector);
        while i < 64
            invariant
                64 * v@.len() <= usize::MAX,
                j < v@.len(),
                i <= 64,
                r@.len() == 64 * j + i,
                w == v@[j as int] >> i,
                forall|k: int| 0 <= k < r@.len() ==> (#[trigger] r@[k]).value() == bit_of(v@, k),
            decreases 64 - i,
        {
            let bit = w & 1u64;
            proof {
                let k = 64 * j + i;
                vstd::arithmetic::div_mod::lemma_fundamental_div_mod_converse(k as int, 64, j as int, i as int);
                assert(bit_of(v@, k as int) == ((v@[j as int] >> i) & 1) as nat);
            }
            r.push(sc_from_u64(bit));
            let ghost vj = v@[j as int];
            assert((vj >> i) >> 1u64 == vj >> ((i + 1) as u64)) by (bit_vector)
                requires
                    i < 64,
            ;
            w = w >> 1u64;
            i = i + 1;
        }
        j = j + 1;
    }
    r
}

/// The powers of `x` restarting for each block of `n`, block `j` scaled by
/// `z^(j + 2)`: item `j * n + i` is `z^(j + 2) * x^i`.
pub open spec fn block_powers(x: nat, z: nat, n: nat, m: nat) -> Seq<nat> {
    Seq::new(n * m, |q: int| ((pow(z as int, (q / n as int + 2) as nat) * pow(x as int, (q % n as int) as nat)) % (ell() as int)) as nat)
}

fn to_the_n_multi_var(x: Scalar, z: Scalar, n: usize, m: usize) -> (r: Vec<Scalar>)
    requires
        n * m <= usize::MAX,
        n > 0,
    ensures
        r@.len() == n * m,
        values(r@) == block_powers(x.value(), z.value(), n as nat, m as nat),
{
    let ghost xv = x.value() as int;
    let ghost zv = z.value() as int;
    let ghost el = ell() as int;
    let mut r: Vec<Scalar> = Vec::new();
    let mut z_pow = sc_mul(z, z);
    proof {
        vstd::arithmetic::power::lemma_pow_adds(zv, 1, 1);
        vstd::arithmetic::power::lemma_pow1(zv);
    }
    let mut j: usize = 0;
    while j < m
        invariant
            n * m <= usize::MAX,
            n > 0,
            j <= m,
            r@.len() == n * j,
            z_pow.value() == pow(zv, (j + 2) as nat) % el,
            xv == x.value(),
            zv == z.value(),
            el == ell(),
            forall|q: int| 0 <= q < n * j ==> (#[trigger] r@[q]).value() == (pow(zv, (q / n as int + 2) as nat) * pow(xv, (q % n as int) as nat)) % el,
        decreases m - j,
    {
        let mut prod = z_pow;
        let mut i: usize = 0;
        proof {
            vstd::arithmetic::power::lemma_pow0(xv);
        }
        while i < n
            invariant
                n * m <= usize::MAX,
                n > 0,
                j < m,
                i <= n,
                r@.len() == n * j + i,
                xv == x.value(),
                zv == z.value(),
                el == ell(),
                prod.value() == (pow(zv, (j + 2) as nat) * pow(xv, i as nat)) % el,
                z_pow.value() == pow(zv, (j + 2) as nat) % el,
                forall|q: int| 0 <= q < n * j + i ==> (#[trigger] r@[q]).value() == (pow(zv, (q / n as int + 2) as nat) * pow(xv, (q % n as int) as nat)) % el,
            decreases n - i,
        {
            proof {
                let q = n * j + i;
                assert(q == j * n + i) by (nonlinear_arith)
                    requires q == n * j + i;
                vstd::arithmetic::div_mod::lemma_fundamental_div_mod_converse(q as int, n as int, j as int, i as int);
            }
            r.push(prod);
            let ghost pv = pow(zv, (j + 2) as nat) * pow(xv, i as nat);
            prod = sc_mul(prod, x);
            proof {
                vstd::arithmetic::div_mod::lemma_mul_mod_noop_left(pv, xv, el);
                vstd::arithmetic::power::lemma_pow_adds(xv, i as nat, 1);
                vstd::arithmetic::power::lemma_pow1(xv);
                assert(pv * xv == pow(zv, (j + 2) as nat) * pow(xv, (i + 1) as nat)) by (nonlinear_arith)
                    requires
                        pv == pow(zv, (j + 2) as nat) * pow(xv, i as nat),
                        pow(xv, (i + 1) as nat) == pow(xv, i as nat) * xv,
                ;
            }
            i = i + 1;
        }
        proof {
            assert(n * j + n == n * (j + 1)) by (nonlinear_arith);
        }
        let ghost zp = pow(zv, (j + 2) as nat);
        z_pow = sc_mul(z_pow, z);
        proof {
            vstd::arithmetic::div_mod::lemma_mul_mod_noop_left(zp, zv, el);
            vstd::arithmetic::power::lemma_pow_adds(zv, (j + 2) as nat, 1);
            vstd::arithmetic::power::lemma_pow1(zv);
        }
        j = j + 1;
    }
    assert(values(r@) =~= block_powers(x.value(), z.value(), n as nat, m as nat));
    r
}

/// `n` random scalars.
fn random_scalars(n: usize) -> (r: Vec<Scalar>)
    ensures
        r@.len() == n,
{
    let mut r: Vec<Scalar> = Vec::new();
    let mut i: usize = 0;
    while i < n
        invariant
            i <= n,
            r@.len() == i,
        decreases n - i,
    {
        r.push(Scalar::random());
        i = i + 1;
    }
    r
}

/// An aggregated range proof over the commitments `V`.
#[derive(Clone, Debug)]
#[allow(non_snake_case)]
pub struct BulletRangeProof {
    pub A: Point,
    pub SS: Point,
    pub T1: Point,
    pub T2: Point,
    pub tao_x: Scalar,
    pub mu: Scalar,
    pub t_cap: Scalar,
    pub V: Vec<Point>,
    pub bullet_proof: BulletProof,
}

impl BulletRangeProof {
    /// The commitments that the proof is about.
    pub open spec fn vs(&self) -> Seq<Point> {
        self.V@
    }

    pub fn commitments(&self) -> (r: &Vec<Point>)
        ensures
            r@ == self.vs(),
    {
        &self.V
    }

    /// The same proof with commitment `k` replaced by `p`.
    pub fn with_commitment(&self, k: usize, p: Point) -> (r: BulletRangeProof)
        requires
            k < self.vs().len(),
        ensures
            r.vs() == self.vs().update(k as int, p),
            r.parts() == self.parts(),
            r.inner().fa() == self.inner().fa(),
            r.inner().fb() == self.inner().fb(),
            r.tau_x() == self.tau_x(),
            r.inner().ls() == self.inner().ls(),
            r.inner().rs() == self.inner().rs(),
            r.t1() == self.t1(),
            r.t2() == self.t2(),
    {
        let mut v = crate::sort::to_vec(self.V.as_slice());
        v[k] = p;
        BulletRangeProof {
            A: self.A,
            SS: self.SS,
            T1: self.T1,
            T2: self.T2,
            tao_x: self.tao_x,
            mu: self.mu,
            t_cap: self.t_cap,
            V: v,
            bullet_proof: self.bullet_proof.duplicate(),
        }
    }

    /// The inner-product proof.
    pub fn inner_proof(&self) -> (r: &BulletProof)
        ensures
            *r == self.inner(),
    {
        &self.bullet_proof
    }

    pub open spec fn inner(&self) -> BulletProof {
        self.bullet_proof
    }

    #[allow(non_snake_case)]
    pub open spec fn t1(&self) -> Point {
        self.T1
    }

    #[allow(non_snake_case)]
    pub open spec fn t2(&self) -> Point {
        self.T2
    }

    pub open spec fn tau_x(&self) -> Scalar {
        self.tao_x
    }

    /// The proof with the given parts.
    #[allow(non_snake_case)]
    pub fn from_parts(
        A: Point,
        SS: Point,
        T1: Point,
        T2: Point,
        tao_x: Scalar,
        mu: Scalar,
        t_cap: Scalar,
        V: Vec<Point>,
        bullet_proof: BulletProof,
    ) -> (r: BulletRangeProof)
        ensures
            r.parts() == (A, SS, T1, T2, tao_x, mu, t_cap),
            r.vs() == V@,
            r.inner() == bullet_proof,
    {
        BulletRangeProof { A, SS, T1, T2, tao_x, mu, t_cap, V, bullet_proof }
    }

    /// `(A, S, T1, T2, tau_x, mu, t_cap)`.
    pub open spec fn parts(&self) -> (Point, Point, Point, Point, Scalar, Scalar, Scalar) {
        (self.A, self.SS, self.T1, self.T2, self.tao_x, self.mu, self.t_cap)
    }

    /// `(A, S, T1, T2, tau_x, mu, t_cap)`.
    pub fn scalar_and_point_parts(&self) -> (r: (Point, Point, Point, Point, Scalar, Scalar, Scalar))
        ensures
            r == self.parts(),
    {
        (self.A, self.SS, self.T1, self.T2, self.tao_x, self.mu, self.t_cap)
    }

    /// The blinding response `tau_x`.
    pub fn tao_x(&self) -> (r: Scalar)
        ensures
            r == self.tau_x(),
    {
        self.tao_x
    }

    /// The same proof with another `tau_x`.
    pub fn with_tao_x(&self, t: Scalar) -> (r: BulletRangeProof)
        ensures
            r.tau_x() == t,
            r.vs() == self.vs(),
            r.inner().ls() == self.inner().ls(),
            r.inner().rs() == self.inner().rs(),
            r.t1() == self.t1(),
            r.t2() == self.t2(),
    {
        BulletRangeProof {
            A: self.A,
            SS: self.SS,
            T1: self.T1,
            T2: self.T2,
            tao_x: t,
            mu: self.mu,
            t_cap: self.t_cap,
            V: crate::sort::to_vec(self.V.as_slice()),
            bullet_proof: self.bullet_proof.duplicate(),
        }
    }
}

/// The commitment `v * G_0 + gamma * H_0`.
pub open spec fn commitment(bases: Bases, v: nat, gamma: nat) -> Seq<u8> {
    lin2(v, bases.g0()@, gamma, bases.h0()@)
}

/// The bits `a_L` of the values, 64 per value.
pub open spec fn bits_l(v: Seq<u64>) -> Seq<nat> {
    Seq::new(64 * v.len(), |k: int| bit_of(v, k))
}

/// `a_R = a_L - 1`, reduced.
pub open spec fn bits_r(v: Seq<u64>) -> Seq<nat> {
    Seq::new(64 * v.len(), |k: int| md((bits_l(v)[k] - powers(1, 64 * v.len())[k]) as int))
}

/// `l_0 = a_L - z`, reduced.
pub open spec fn l0_of(v: Seq<u64>, z: nat) -> Seq<nat> {
    Seq::new(64 * v.len(), |k: int| md((bits_l(v)[k] - z) as int))
}

/// `r_0 = y^n o (a_R + z) + z^(j+2) 2^i`, reduced.
pub open spec fn r0_of(v: Seq<u64>, y: nat, z: nat) -> Seq<nat> {
    let nm = 64 * v.len();
    Seq::new(
        nm,
        |k: int|
            md((md((powers(y, nm)[k] * md((bits_r(v)[k] + z) as int)) as int) + block_powers(2, z, 64, v.len())[k]) as int),
    )
}

/// `r_1 = y^n o s_R`, reduced.
pub open spec fn r1_of(y: nat, sr: Seq<nat>) -> Seq<nat> {
    Seq::new(sr.len(), |k: int| md((powers(y, sr.len())[k] * sr[k]) as int))
}

/// `a + x b`, reduced, element by element.
pub open spec fn fold_vec(a: Seq<nat>, b: Seq<nat>, x: nat) -> Seq<nat> {
    Seq::new(a.len(), |k: int| md((a[k] + md((b[k] * x) as int)) as int))
}

/// The values padded with zeros to `n` items.
pub open spec fn pad_values(v: Seq<u64>, n: nat) -> Seq<u64> {
    Seq::new(n, |k: int| if k < v.len() { v[k] } else { 0u64 })
}

/// The blindings padded with zeros to `n` items.
pub open spec fn pad_blindings(g: Seq<nat>, n: nat) -> Seq<nat> {
    Seq::new(n, |k: int| if k < g.len() { g[k] } else { 0nat })
}

/// The range proof of the padded values `v` with blindings `gamma` and
/// challenge `x`, for the nonces `alpha`, `rho`, `tau1`, `tau2` and the
/// blinding vectors `sl`, `sr`: `A = alpha H + <a_L, G> + <a_R, H>`,
/// `S = rho H + <s_L, G> + <s_R, H>`, `y = H(A || S)`, `z = H(S || A)`,
/// `T1 = t1 G + tau1 H` (less `shift G` where a shift is given),
/// `T2 = t2 G + tau2 H`, `tau_x = x^2 tau2 + x tau1 + z^2 <z^m, gamma>`,
/// `mu = alpha + rho x`, `t_cap = <l, r>` with `l = l_0 + x s_L` and
/// `r = r_0 + x r_1`, and the inner proof of `l`, `r` against `G` and
/// `y^-i H_i` with `u = H`.
pub open spec fn range_made_with(
    proof: BulletRangeProof,
    bases: Bases,
    v: Seq<u64>,
    gamma: Seq<nat>,
    x: nat,
    alpha: nat,
    rho: nat,
    sl: Seq<nat>,
    sr: Seq<nat>,
    tau1: nat,
    tau2: nat,
    shift: Option<nat>,
) -> bool {
    let m = v.len();
    let nm = 64 * m;
    let gs = encodings(bases.gs().take(nm as int));
    let hs = encodings(bases.hs().take(nm as int));
    let g = bases.g0()@;
    let h = bases.h0()@;
    let y = hash_scalar(proof.A@ + proof.SS@);
    let z = hash_scalar(proof.SS@ + proof.A@);
    let l0 = l0_of(v, z);
    let r0 = r0_of(v, y, z);
    let r1 = r1_of(y, sr);
    let t1 = md((md(dot(l0, r1)) + md(dot(sl, r0))) as int);
    let t2 = md(dot(sl, r1));
    let l = fold_vec(l0, sl, x);
    let r = fold_vec(r0, r1, x);
    let hy = Seq::new(nm, |k: int| edwards_mul(powers(scalar_inverse(y), nm)[k], hs[k]));
    let res = ipa_prove(gs, hy, h, l, r);
    let zz = md((z * z) as int);
    let xx = md((x * x) as int);
    &&& sl.len() == nm
    &&& sr.len() == nm
    &&& proof.A@ == edwards_add(edwards_mul(alpha, h), edwards_msm(bits_l(v) + bits_r(v), gs + hs))
    &&& proof.SS@ == edwards_add(edwards_mul(rho, h), edwards_msm(sl + sr, gs + hs))
    &&& proof.T1@ == match shift {
        Some(sh) => edwards_sub(lin2(t1, g, tau1, h), edwards_mul(sh, g)),
        None => lin2(t1, g, tau1, h),
    }
    &&& proof.T2@ == lin2(t2, g, tau2, h)
    &&& proof.tao_x.value() == md(
        (md((md((xx * tau2) as int) + md((x * tau1) as int)) as int) + md(
            (zz * md(dot(powers(z, m), gamma))) as int,
        )) as int,
    )
    &&& proof.mu.value() == md((alpha + md((rho * x) as int)) as int)
    &&& proof.t_cap.value() == md(dot(l, r))
    &&& encodings(proof.bullet_proof.ls()) == res.0
    &&& encodings(proof.bullet_proof.rs()) == res.1
    &&& proof.bullet_proof.fa().value() == res.2
    &&& proof.bullet_proof.fb().value() == res.3
}

/// `range_made_with` for some nonces and blinding vectors.
pub open spec fn range_made(proof: BulletRangeProof, bases: Bases, v: Seq<u64>, gamma: Seq<nat>, x: nat, shift: Option<nat>) -> bool {
    exists|alpha: nat, rho: nat, sl: Seq<nat>, sr: Seq<nat>, tau1: nat, tau2: nat|
        range_made_with(proof, bases, v, gamma, x, alpha, rho, sl, sr, tau1, tau2, shift)
}

/// The prover's state after the commitments `T1`, `T2` and before the
/// challenge `x`.
#[allow(non_snake_case)]
struct RangeProverState {
    T1: Point,
    T2: Point,
    l0: Vec<Scalar>,
    r0: Vec<Scalar>,
    l1: Vec<Scalar>,
    r1: Vec<Scalar>,
    tao1: Scalar,
    tao2: Scalar,
    z: Scalar,
    m: usize,
    alpha: Scalar,
    rho: Scalar,
    gs: Vec<Point>,
    hs: Vec<Point>,
    A: Point,
    SS: Point,
    y: Scalar,
    v: Vec<u64>,
    gamma: Vec<Scalar>,
}

impl RangeProverState {
    /// The state after the commitment phase for the blinding vector `sr`.
    spec fn committed(&self, bases: Bases, sr: Seq<nat>) -> bool {
        let nm = 64 * self.m;
        let gs = encodings(bases.gs().take(nm as int));
        let hs = encodings(bases.hs().take(nm as int));
        let g = bases.g0()@;
        let h = bases.h0()@;
        let v = self.v@;
        let y = hash_scalar(self.A@ + self.SS@);
        let z = hash_scalar(self.SS@ + self.A@);
        let sl = values(self.l1@);
        &&& sr.len() == nm
        &&& self.gs@ == bases.gs().take(nm as int)
        &&& self.hs@ == bases.hs().take(nm as int)
        &&& self.y.value() == y
        &&& self.z.value() == z
        &&& self.A@ == edwards_add(edwards_mul(self.alpha.value(), h), edwards_msm(bits_l(v) + bits_r(v), gs + hs))
        &&& self.SS@ == edwards_add(edwards_mul(self.rho.value(), h), edwards_msm(sl + sr, gs + hs))
        &&& values(self.l0@) == l0_of(v, z)
        &&& values(self.r0@) == r0_of(v, y, z)
        &&& values(self.r1@) == r1_of(y, sr)
        &&& self.T2@ == lin2(md(dot(sl, values(self.r1@))), g, self.tao2.value(), h)
    }

    /// `T1 = t1 G + tau1 H`.
    spec fn t1_honest(&self, bases: Bases) -> Seq<u8> {
        let t1 = md((md(dot(values(self.l0@), values(self.r1@))) + md(dot(values(self.l1@), values(self.r0@)))) as int);
        lin2(t1, bases.g0()@, self.tao1.value(), bases.h0()@)
    }

    spec fn wf(&self, bases: Bases) -> bool {
        &&& self.m >= 1
        &&& 64 * self.m <= usize::MAX
        &&& is_power_of_two(self.m as nat)
        &&& 64 * self.m <= bases.gs().len()
        &&& 64 * self.m <= bases.hs().len()
        &&& self.gs@.len() == 64 * self.m
        &&& self.hs@.len() == 64 * self.m
        &&& self.l0@.len() == 64 * self.m
        &&& self.r0@.len() == 64 * self.m
        &&& self.l1@.len() == 64 * self.m
        &&& self.r1@.len() == 64 * self.m
        &&& self.v@.len() == self.m
        &&& self.gamma@.len() == self.m
    }
}

/// Range-size requirements on the values and the generator set.
pub open spec fn range_inputs_ok(gamma_len: nat, v_len: nat, bases: Bases) -> bool {
    &&& gamma_len == v_len
    &&& v_len >= 1
    &&& v_len <= usize::MAX / 128
    &&& 64 * padded_len(v_len) <= bases.gs().len()
    &&& 64 * padded_len(v_len) <= bases.hs().len()
}

proof fn lemma_power_of_two_mul64(m: nat)
    requires
        is_power_of_two(m),
    ensures
        is_power_of_two(64 * m),
        log2(64 * m) == 6 + log2(m),
{
    let a = 64 * m;
    assert(a / 2 == 32 * m);
    assert((32 * m) / 2 == 16 * m);
    assert((16 * m) / 2 == 8 * m);
    assert((8 * m) / 2 == 4 * m);
    assert((4 * m) / 2 == 2 * m);
    assert((2 * m) / 2 == m);
    assert(is_power_of_two(2 * m));
    assert(is_power_of_two(4 * m));
    assert(is_power_of_two(8 * m));
    assert(is_power_of_two(16 * m));
    assert(is_power_of_two(32 * m));
    lemma_power_of_two_positive(m);
    assert(log2(2 * m) == 1 + log2(m));
    assert(log2(4 * m) == 1 + log2(2 * m));
    assert(log2(8 * m) == 1 + log2(4 * m));
    assert(log2(16 * m) == 1 + log2(8 * m));
    assert(log2(32 * m) == 1 + log2(16 * m));
    assert(log2(64 * m) == 1 + log2(32 * m));
}

proof fn lemma_power_of_two_positive(m: nat)
    requires
        is_power_of_two(m),
    ensures
        m >= 1,
    decreases m,
{
    if m != 1 {
        lemma_power_of_two_positive(m / 2);
    }
}

/// The first half of the prover, up to `T1` and `T2`.
#[allow(non_snake_case)]
fn bullet_range_proof_ex_T1_T2(gamma: &[Scalar], v: &[u64], bases: &Bases) -> (st: RangeProverState)
    requires
        range_inputs_ok(gamma@.len(), v@.len(), *bases),
    ensures
        st.wf(*bases),
        st.m == padded_len(v@.len()),
        st.m >= v@.len(),
        st.v@.take(v@.len() as int) == v@,
        forall|k: int| v@.len() <= k < st.m ==> st.v@[k] == 0,
        st.gamma@.take(v@.len() as int) == gamma@,
        forall|k: int| v@.len() <= k < st.m ==> (#[trigger] st.gamma@[k]).value() == 0,
        exists|sr: Seq<nat>| st.committed(*bases, sr),
        st.T1@ == st.t1_honest(*bases),
{
    let v_pad = to_2s_pow_vec(v);
    let gamma_pad = to_2s_pow_scalar_vec(gamma);
    let m = v_pad.len();
    proof {
        lemma_pow2_at_least(v@.len(), 1);
        lemma_power_of_two_mul64(padded_len(v@.len()));
        let n = v@.len();
        if n > 1 {
            assert(m < 2 * n);
        }
        assert(64 * m <= usize::MAX) by (nonlinear_arith)
            requires
                m <= 2 * n,
                n <= usize::MAX / 128,
        ;
    }
    let nm = RANGE_SIZE * m;
    let (gs, hs) = bases.prefixes(nm);
    let g = bases.g_init();
    let h = bases.h_init();
    let aL = scalars_vec_from_bits_of_values_array(v_pad.as_slice());
    let ones = to_the_n(sc_from_u64(1), nm);
    let aR = substract_scalar_arrays(aL.as_slice(), ones.as_slice());
    let alpha = Scalar::random();
    let sL = random_scalars(nm);
    let sR = random_scalars(nm);
    let rho = Scalar::random();
    let A = point_add(&point_mul(&alpha, &h), &multiscalar_mul_add(aL.as_slice(), gs.as_slice(), aR.as_slice(), hs.as_slice()));
    let SS = point_add(&point_mul(&rho, &h), &multiscalar_mul_add(sL.as_slice(), gs.as_slice(), sR.as_slice(), hs.as_slice()));
    let y = get_hash(&A, &SS);
    let z = get_hash(&SS, &A);
    let tao1 = Scalar::random();
    let tao2 = Scalar::random();
    let zmn = array_of(z, nm);
    let l0 = substract_scalar_arrays(aL.as_slice(), zmn.as_slice());
    let l1 = sL;
    let ymn = to_the_n(y, nm);
    let twon_z_pow = to_the_n_multi_var(sc_from_u64(2), z, RANGE_SIZE, m);
    let r1 = multiply_scalar_arrays(ymn.as_slice(), sR.as_slice());
    let r0 = add_scalar_arrays(
        multiply_scalar_arrays(ymn.as_slice(), add_scalar_arrays(aR.as_slice(), zmn.as_slice()).as_slice()).as_slice(),
        twon_z_pow.as_slice(),
    );
    let t1 = sc_add(inner_product(l0.as_slice(), r1.as_slice()), inner_product(l1.as_slice(), r0.as_slice()));
    let t2 = inner_product(l1.as_slice(), r1.as_slice());
    let T1 = lin_comb(&t1, &g, &tao1, &h);
    let T2 = lin_comb(&t2, &g, &tao2, &h);
    let st = RangeProverState {
        T1, T2, l0, r0, l1, r1, tao1, tao2, z, m, alpha, rho, gs, hs, A, SS, y, v: v_pad, gamma: gamma_pad,
    };
    proof {
        let nm2 = nm as nat;
        let vv = v_pad@;
        let zv = z.value();
        let yv = y.value();
        assert(values(aL@) =~= bits_l(vv));
        assert(values(ones@) =~= powers(1, nm2));
        assert(values(aR@) =~= bits_r(vv));
        assert(values(ymn@) =~= powers(yv, nm2));
        assert(encodings(gs@) == encodings(bases.gs().take(nm as int)));
        assert(values(l0@) =~= l0_of(vv, zv));
        assert(values(r1@) =~= r1_of(yv, values(sR@)));
        assert(values(twon_z_pow@) == block_powers(2, zv, 64, m as nat));
        assert(values(r0@) =~= r0_of(vv, yv, zv));
        assert(st.committed(*bases, values(sR@)));
    }
    st
}

/// The second half of the prover, given the challenge `x`.
#[allow(non_snake_case)]
fn bullet_range_proof_rest(bases: &Bases, st: RangeProverState, challenge: Scalar) -> (r: BulletRangeProof)
    requires
        st.wf(*bases),
    ensures
        r.vs().len() == st.m,
        forall|k: int| 0 <= k < st.m ==> (#[trigger] r.vs()[k])@ == commitment(*bases, st.v@[k] as nat, st.gamma@[k].value()),
        r.inner().ls().len() == log2(64 * st.m as nat),
        r.inner().rs().len() == log2(64 * st.m as nat),
        r.t1() == st.T1,
        r.t2() == st.T2,
        forall|sr: Seq<nat>|
            #[trigger] st.committed(*bases, sr) ==> (st.T1@ == st.t1_honest(*bases) ==> range_made_with(
                r,
                *bases,
                st.v@,
                values(st.gamma@),
                challenge.value(),
                st.alpha.value(),
                st.rho.value(),
                values(st.l1@),
                sr,
                st.tao1.value(),
                st.tao2.value(),
                None,
            )),
        forall|sr: Seq<nat>, sh: nat|
            #![trigger st.committed(*bases, sr), edwards_mul(sh, bases.g0()@)]
            st.committed(*bases, sr) && st.T1@ == edwards_sub(st.t1_honest(*bases), edwards_mul(sh, bases.g0()@)) ==> range_made_with(
                r,
                *bases,
                st.v@,
                values(st.gamma@),
                challenge.value(),
                st.alpha.value(),
                st.rho.value(),
                values(st.l1@),
                sr,
                st.tao1.value(),
                st.tao2.value(),
                Some(sh),
            ),
{
    let g = bases.g_init();
    let h = bases.h_init();
    let x = challenge;
    let m = st.m;
    let nm = RANGE_SIZE * m;
    let l = add_scalar_arrays(st.l0.as_slice(), multiply_scalar_to_array(st.l1.as_slice(), x).as_slice());
    let r = add_scalar_arrays(st.r0.as_slice(), multiply_scalar_to_array(st.r1.as_slice(), x).as_slice());
    let z_m = to_the_n(st.z, m);
    let xx = sc_mul(x, x);
    let zz = sc_mul(st.z, st.z);
    let tao_x = sc_add(
        sc_add(sc_mul(xx, st.tao2), sc_mul(x, st.tao1)),
        sc_mul(zz, inner_product(z_m.as_slice(), st.gamma.as_slice())),
    );
    let t_cap = inner_product(l.as_slice(), r.as_slice());
    let mu = sc_add(st.alpha, sc_mul(st.rho, x));
    let mut V: Vec<Point> = Vec::new();
    let mut k: usize = 0;
    while k < m
        invariant
            st.wf(*bases),
            m == st.m,
            g == bases.g0(),
            h == bases.h0(),
            k <= m,
            V@.len() == k,
            forall|i: int| 0 <= i < k ==> (#[trigger] V@[i])@ == commitment(*bases, st.v@[i] as nat, st.gamma@[i].value()),
        decreases m - k,
    {
        let vk = sc_from_u64(st.v[k]);
        V.push(lin_comb(&vk, &g, &st.gamma[k], &h));
        k = k + 1;
    }
    let y_inv = sc_invert(st.y);
    let y_pows = to_the_n(y_inv, nm);
    let h_ = crate::ipa::mult_ed(y_pows.as_slice(), st.hs.as_slice());
    proof {
        lemma_power_of_two_mul64(m as nat);
    }
    let bullet_proof = create_bulletproof(nm, st.gs.as_slice(), h_.as_slice(), h, &l, &r);
    let res = BulletRangeProof { A: st.A, SS: st.SS, T1: st.T1, T2: st.T2, tao_x, t_cap, mu, V, bullet_proof };
    proof {
        let nm2 = nm as nat;
        let xv = x.value();
        assert(values(l@) =~= fold_vec(values(st.l0@), values(st.l1@), xv));
        assert(values(r@) =~= fold_vec(values(st.r0@), values(st.r1@), xv));
        assert(values(z_m@) =~= powers(st.z.value(), m as nat));
        assert(tao_x.value() == md((md((md((md((x.value() * x.value()) as int) * st.tao2.value()) as int) + md((x.value() * st.tao1.value()) as int)) as int) + md((md((st.z.value() * st.z.value()) as int) * md(dot(powers(st.z.value(), m as nat), values(st.gamma@)))) as int)) as int));
        assert forall|sr: Seq<nat>| #[trigger] st.committed(*bases, sr) implies {
            let hs = encodings(bases.hs().take(nm as int));
            encodings(h_@) == Seq::new(nm2, |k: int| edwards_mul(powers(scalar_inverse(st.y.value()), nm2)[k], hs[k]))
        } by {
            let hs = encodings(bases.hs().take(nm as int));
            assert(encodings(h_@) =~= Seq::new(nm2, |k: int| edwards_mul(powers(scalar_inverse(st.y.value()), nm2)[k], hs[k])));
        }
    }
    res
}

/// Proves that each `v[k]` lies in `[0, 2^64)`, committing to it with
/// blinding `gamma[k]`; the vectors are padded with zeros to a power-of-two
/// length.
pub fn bullet_range_proof_ex(gamma: &[Scalar], v: &[u64], bases: &Bases) -> (r: BulletRangeProof)
    requires
        range_inputs_ok(gamma@.len(), v@.len(), *bases),
    ensures
        r.vs().len() == padded_len(v@.len()),
        r.vs().len() >= v@.len(),
        forall|k: int| 0 <= k < v@.len() ==> (#[trigger] r.vs()[k])@ == commitment(*bases, v@[k] as nat, gamma@[k].value()),
        forall|k: int| v@.len() <= k < r.vs().len() ==> (#[trigger] r.vs()[k])@ == commitment(*bases, 0, 0),
        r.inner().ls().len() == log2(64 * padded_len(v@.len())),
        r.inner().rs().len() == log2(64 * padded_len(v@.len())),
        range_made(
            r,
            *bases,
            pad_values(v@, padded_len(v@.len())),
            pad_blindings(values(gamma@), padded_len(v@.len())),
            hash_scalar(r.t1()@ + r.t2()@),
            None,
        ),
{
    proof {
        lemma_pow2_at_least(v@.len(), 1);
    }
    let st = bullet_range_proof_ex_T1_T2(gamma, v, bases);
    let challenge = get_hash(&st.T1, &st.T2);
    let ghost sv = st.v@;
    let ghost sg = st.gamma@;
    let ghost sr = choose|sr: Seq<nat>| st.committed(*bases, sr);
    let ghost st0 = st;
    proof {
        assert(sv =~= pad_values(v@, padded_len(v@.len())));
        assert(values(sg) =~= pad_blindings(values(gamma@), padded_len(v@.len())));
        assert(st.committed(*bases, sr));
    }
    let r = bullet_range_proof_rest(bases, st, challenge);
    proof {
        assert(range_made_with(
            r,
            *bases,
            pad_values(v@, padded_len(v@.len())),
            pad_blindings(values(gamma@), padded_len(v@.len())),
            hash_scalar(r.t1()@ + r.t2()@),
            st0.alpha.value(),
            st0.rho.value(),
            values(st0.l1@),
            sr,
            st0.tao1.value(),
            st0.tao2.value(),
            None,
        ));
        assert forall|k: int| 0 <= k < v@.len() implies (#[trigger] r.vs()[k])@ == commitment(*bases, v@[k] as nat, gamma@[k].value()) by {
            assert(sv.take(v@.len() as int)[k] == sv[k]);
            assert(sg.take(v@.len() as int)[k] == sg[k]);
        }
    }
    r
}

/// Proves that each `v[k]` lies in `[0, 2^64)`.
pub fn bullet_range_proof(gamma: &[Scalar], v: &[u64], bases: &Bases) -> (r: BulletRangeProof)
    requires
        range_inputs_ok(gamma@.len(), v@.len(), *bases),
    ensures
        r.vs().len() == padded_len(v@.len()),
        r.vs().len() >= v@.len(),
        forall|k: int| 0 <= k < v@.len() ==> (#[trigger] r.vs()[k])@ == commitment(*bases, v@[k] as nat, gamma@[k].value()),
        forall|k: int| v@.len() <= k < r.vs().len() ==> (#[trigger] r.vs()[k])@ == commitment(*bases, 0, 0),
        r.inner().ls().len() == log2(64 * padded_len(v@.len())),
        r.inner().rs().len() == log2(64 * padded_len(v@.len())),
        range_made(
            r,
            *bases,
            pad_values(v@, padded_len(v@.len())),
            pad_blindings(values(gamma@), padded_len(v@.len())),
            hash_scalar(r.t1()@ + r.t2()@),
            None,
        ),
{
    bullet_range_proof_ex(gamma, v, bases)
}

/// What any accepted range proof looks like: at least one commitment,
/// enough generators, and an inner proof of the matching shape.
pub open spec fn range_shape(proof: BulletRangeProof, bases: Bases) -> bool {
    let n = 64 * proof.vs().len();
    &&& proof.vs().len() >= 1
    &&& n <= bases.gs().len()
    &&& n <= bases.hs().len()
    &&& ipa_shape(n, n, n, n, proof.inner())
}

/// `a` reduced modulo `ell`.
pub open spec fn md(a: int) -> nat {
    (a % (ell() as int)) as nat
}

/// The powers `x^0, ..., x^(n-1)`, reduced.
pub open spec fn powers(x: nat, n: nat) -> Seq<nat> {
    Seq::new(n, |i: int| md((pow(x as int, i as nat)) as int))
}

/// The encodings of the message and points that the disjunction binds.
pub open spec fn extra_view(e: Option<(&[u8], &Point, &Point)>) -> Option<(Seq<u8>, Seq<u8>, Seq<u8>)> {
    match e {
        Some((m, r, p)) => Some((m@, r@, p@)),
        None => None,
    }
}

/// The range challenge `x`: `H(T1 || T2)`, or `H(m || T1 || T2 || R || P) -
/// other` in the disjunction.
pub open spec fn range_x(t1: Seq<u8>, t2: Seq<u8>, extra: Option<(Seq<u8>, Seq<u8>, Seq<u8>)>, other: nat) -> nat {
    match extra {
        Some((m, r, p)) => md((hash_scalar(m + concat(seq![t1, t2, r, p])) - other) as int),
        None => hash_scalar(t1 + t2),
    }
}

/// `delta = (z - z^2) <1, y^nm> - z^3 <1, 2^64> <z^m, 1>`, as computed.
pub open spec fn range_sigma(y: nat, z: nat, m: nat) -> nat {
    let nm = 64 * m;
    let zz = md((z * z) as int);
    let ip1 = md((dot(Seq::new(nm, |i: int| 1nat), powers(y, nm))) as int);
    let ip2 = md((dot(powers(1, 64), powers(2, 64))) as int);
    let ip3 = md((dot(powers(z, m), powers(1, m))) as int);
    md((md((md((z - zz) as int) * ip1) as int) - md((md((md((zz * z) as int) * ip2) as int) * ip3) as int)) as int)
}

/// What `bullet_range_verify_ex` accepts: enough generators, the balance
/// `t_cap G + tau_x H - delta G - x T1 - x^2 T2 - sum z^(k+2) V_k = 0`, and
/// the inner-product proof for the reconstructed `P' = A + x S - z <1, G> +
/// <2^n z-powers y^-n + z y^n y^-n, H> - mu H + t_cap H` against `H` weighted
/// by `y^-n`.
pub open spec fn range_accepts(
    proof: BulletRangeProof,
    bases: Bases,
    extra: Option<(Seq<u8>, Seq<u8>, Seq<u8>)>,
    other: nat,
) -> bool {
    let m = proof.V@.len();
    let nm = 64 * m;
    if m == 0 || m > bases.gs().len() / 64 || m > usize::MAX / 64 || nm > bases.hs().len() {
        false
    } else {
        let gs = bases.gs().take(nm as int);
        let hs = bases.hs().take(nm as int);
        let g = bases.g0()@;
        let h = bases.h0()@;
        let x = range_x(proof.T1@, proof.T2@, extra, other);
        let y = hash_scalar(proof.A@ + proof.SS@);
        let z = hash_scalar(proof.SS@ + proof.A@);
        let zz = md((z * z) as int);
        let sig = range_sigma(y, z, m);
        let scalars = seq![proof.t_cap.value(), proof.tao_x.value(), md((0 - sig) as int), md((0 - x) as int), md((0 - md((x * x) as int)) as int)]
            + Seq::new(m, |k: int| md((powers(z, m)[k] * md((0 - zz) as int)) as int));
        let points = seq![g, h, g, proof.T1@, proof.T2@] + encodings(proof.V@);
        let yi = powers(scalar_inverse(y), nm);
        let w1 = Seq::new(nm, |i: int| md((block_powers(2, z, 64, m)[i] * yi[i]) as int));
        let w2 = Seq::new(nm, |i: int| md((md((powers(y, nm)[i] * z) as int) * yi[i]) as int));
        let hsum = edwards_msm(w1 + w2, encodings(hs) + encodings(hs));
        let gsum = edwards_msm(Seq::new(nm, |i: int| md((0 - z) as int)), encodings(gs));
        let pp = edwards_add(edwards_add(edwards_add(proof.A@, edwards_mul(x, proof.SS@)), gsum), hsum);
        let pp2 = edwards_add(edwards_sub(pp, edwards_mul(proof.mu.value(), h)), edwards_mul(proof.t_cap.value(), h));
        &&& edwards_msm(scalars, points) == identity_encoding()
        &&& ipa_shape(nm, nm, nm, nm, proof.bullet_proof)
        &&& ipa_equation(nm, gs, hs, yi, h, pp2, proof.bullet_proof)
    }
}

/// An accepted range proof has the shape that `range_shape` describes.
pub proof fn lemma_range_accepts_shape(proof: BulletRangeProof, bases: Bases, extra: Option<(Seq<u8>, Seq<u8>, Seq<u8>)>, other: nat)
    requires
        range_accepts(proof, bases, extra, other),
    ensures
        range_shape(proof, bases),
{
}

/// A proof made by `bullet_range_proof` for values and blindings that the
/// generators cover has the shape that the verifier asks for.
pub proof fn lemma_made_range_proof_has_shape(proof: BulletRangeProof, bases: Bases, n: nat)
    requires
        range_inputs_ok(n, n, bases),
        proof.vs().len() == padded_len(n),
        proof.inner().ls().len() == log2(64 * padded_len(n)),
        proof.inner().rs().len() == log2(64 * padded_len(n)),
    ensures
        range_shape(proof, bases),
{
    lemma_pow2_at_least(n, 1);
    lemma_power_of_two_mul64(padded_len(n));
}

/// Checks a range proof; in the disjunction with a Schnorr signature the
/// challenge is `H(message || T1 || T2 || R || P) - other_hash`.
#[allow(non_snake_case)]
pub fn bullet_range_verify_ex(
    proof: &BulletRangeProof,
    bases: &Bases,
    extra_hash_input: Option<(&[u8], &Point, &Point)>,
    other_hash: Scalar,
) -> (r: bool)
    ensures
        r == range_accepts(*proof, *bases, extra_view(extra_hash_input), other_hash.value()),
{
    let m = proof.V.len();
    if m == 0 || m > bases.len() / 64 || m > usize::MAX / 64 {
        return false;
    }
    let nm = RANGE_SIZE * m;
    if nm > bases.h_len() {
        return false;
    }
    let (gs, hs) = bases.prefixes(nm);
    let g = bases.g_init();
    let h = bases.h_init();
    let x = match extra_hash_input {
        Some((message, R, P)) => {
            let pts: Vec<Point> = vec![proof.T1, proof.T2, *R, *P];
            assert(encodings(pts@) =~= seq![proof.T1@, proof.T2@, R@, P@]);
            sc_sub(get_hash_of_data_and_points(message, pts.as_slice()), other_hash)
        },
        None => get_hash(&proof.T1, &proof.T2),
    };
    let y = get_hash(&proof.A, &proof.SS);
    let z = get_hash(&proof.SS, &proof.A);
    let ymn = to_the_n(y, nm);
    let z_m = to_the_n(z, m);
    let two = sc_from_u64(2);
    let one = sc_from_u64(1);
    let twon = to_the_n(two, RANGE_SIZE);
    let onen = to_the_n(one, RANGE_SIZE);
    let one_m = to_the_n(one, m);
    let zz = sc_mul(z, z);
    let z2_z_m = multiply_scalar_to_array(z_m.as_slice(), sc_neg(zz));
    let twon_z_pow = to_the_n_multi_var(two, z, RANGE_SIZE, m);
    let one_mn = array_of(one, nm);
    let ip1 = inner_product(one_mn.as_slice(), ymn.as_slice());
    let ip2 = inner_product(onen.as_slice(), twon.as_slice());
    let ip3 = inner_product(z_m.as_slice(), one_m.as_slice());
    let sig = sc_sub(sc_mul(sc_sub(z, zz), ip1), sc_mul(sc_mul(sc_mul(zz, z), ip2), ip3));
    proof {
        assert(values(ymn@) =~= powers(y.value(), nm as nat));
        assert(values(z_m@) =~= powers(z.value(), m as nat));
        assert(values(twon@) =~= powers(2, 64));
        assert(values(onen@) =~= powers(1, 64));
        assert(values(one_m@) =~= powers(1, m as nat));
        assert(values(one_mn@) =~= Seq::new(nm as nat, |i: int| 1nat));
        assert(sig.value() == range_sigma(y.value(), z.value(), m as nat));
    }
    let mut mult_scalars: Vec<Scalar> = vec![proof.t_cap, proof.tao_x, sc_neg(sig), sc_neg(x), sc_neg(sc_mul(x, x))];
    let mut mult_points: Vec<Point> = vec![g, h, g, proof.T1, proof.T2];
    let ghost head_scalars = values(mult_scalars@);
    let ghost head_points = encodings(mult_points@);
    let mut zpart = z2_z_m;
    let mut vpart = crate::sort::to_vec(proof.V.as_slice());
    let ghost zv = values(zpart@);
    let ghost vv = encodings(vpart@);
    mult_scalars.append(&mut zpart);
    mult_points.append(&mut vpart);
    let sum = point_msm(mult_scalars.as_slice(), mult_points.as_slice());
    let balanced = sum.equals(&Point::identity());
    let ghost spec_scalars = seq![proof.t_cap.value(), proof.tao_x.value(), md((0 - sig.value()) as int), md((0 - x.value()) as int), md((0 - md((x.value() * x.value()) as int)) as int)]
        + Seq::new(m as nat, |k: int| md((powers(z.value(), m as nat)[k] * md((0 - md((z.value() * z.value()) as int)) as int)) as int));
    proof {
        assert(values(mult_scalars@) =~= head_scalars + zv);
        assert(encodings(mult_points@) =~= head_points + vv);
        assert(zv =~= Seq::new(m as nat, |k: int| md((powers(z.value(), m as nat)[k] * md((0 - md((z.value() * z.value()) as int)) as int)) as int)));
        assert(values(mult_scalars@) =~= spec_scalars);
        assert(encodings(mult_points@) =~= seq![g@, h@, g@, proof.T1@, proof.T2@] + encodings(proof.V@));
        assert(x.value() == range_x(proof.T1@, proof.T2@, extra_view(extra_hash_input), other_hash.value()));
    }
    if !balanced {
        return false;
    }
    let y_mn = to_the_n(sc_invert(y), nm);
    let zymn = multiply_scalar_to_array(ymn.as_slice(), z);
    let w1 = multiply_scalar_arrays(twon_z_pow.as_slice(), y_mn.as_slice());
    let w2 = multiply_scalar_arrays(zymn.as_slice(), y_mn.as_slice());
    let h__ = multiscalar_mul_add(w1.as_slice(), hs.as_slice(), w2.as_slice(), hs.as_slice());
    let minus_z = array_of(sc_neg(z), nm);
    let g__ = point_msm(minus_z.as_slice(), gs.as_slice());
    let P = point_add(&point_add(&point_add(&proof.A, &point_mul(&x, &proof.SS)), &g__), &h__);
    let P_ = point_add(&point_sub(&P, &point_mul(&proof.mu, &h)), &point_mul(&proof.t_cap, &h));
    proof {
        let yi = powers(scalar_inverse(y.value()), nm as nat);
        assert(values(y_mn@) =~= yi);
        assert(values(w1@) =~= Seq::new(nm as nat, |i: int| md((block_powers(2, z.value(), 64, m as nat)[i] * yi[i]) as int)));
        assert(values(w2@) =~= Seq::new(nm as nat, |i: int| md((md((powers(y.value(), nm as nat)[i] * z.value()) as int) * yi[i]) as int)));
        assert(values(minus_z@) =~= Seq::new(nm as nat, |i: int| md((0 - z.value()) as int)));
    }
    verify_bulletproof_hmul(nm, gs.as_slice(), hs.as_slice(), y_mn.as_slice(), h, P_, &proof.bullet_proof)
}

/// Checks a range proof.
pub fn bullet_range_verify(proof: &BulletRangeProof, bases: Bases) -> (r: bool)
    ensures
        r == range_accepts(*proof, bases, None, 0),
{
    bullet_range_verify_ex(proof, &bases, None, sc_from_u64(0))
}

/// Relies on `RngCore::next_u64` of the operating system's generator.
#[verifier::external_body]
fn random_u64() -> u64 {
    rand_core::RngCore::next_u64(&mut rand_core::OsRng)
}

/// A proof that a commitment opens to a value in range, or that its maker
/// holds the auditor's private key.
pub struct RangeOrSchnorrProof {
    pub range_proof: BulletRangeProof,
    pub schnorr: (Scalar, Scalar),
    pub range_hash: Scalar,
}

impl RangeOrSchnorrProof {
    pub open spec fn range(&self) -> BulletRangeProof {
        self.range_proof
    }

    pub open spec fn signature(&self) -> (Scalar, Scalar) {
        self.schnorr
    }

    pub open spec fn hash(&self) -> Scalar {
        self.range_hash
    }
}

/// The global challenge `H(message || T1 || T2 || P || R)`.
pub open spec fn global_challenge(m: Seq<u8>, t1: Seq<u8>, t2: Seq<u8>, p: Seq<u8>, r: Seq<u8>) -> nat {
    hash_scalar(m + concat(seq![t1, t2, p, r]))
}

/// The nonce point `R = s * G_0 + h * P` of the signature part.
pub open spec fn or_nonce(bases: Bases, proof: RangeOrSchnorrProof, ap_key: Seq<u8>) -> Seq<u8> {
    lin2(proof.signature().0.value(), bases.g0()@, proof.signature().1.value(), ap_key)
}

/// The two challenges sum to the global one.
pub open spec fn or_challenges_split(bases: Bases, proof: RangeOrSchnorrProof, ap_key: Seq<u8>, m: Seq<u8>) -> bool {
    global_challenge(m, proof.range().t1()@, proof.range().t2()@, ap_key, or_nonce(bases, proof, ap_key))
        == (proof.signature().1.value() + proof.hash().value()) % ell()
}

/// The shift `z^2 x^-1 (v - vf)` of `T1` by which the simulated range
/// proof of `vf` opens to `v` under challenge `x`.
pub open spec fn fake_shift(proof: BulletRangeProof, v: nat, vf: u64, x: nat) -> nat {
    let z = hash_scalar(proof.SS@ + proof.A@);
    md((md((md((z * z) as int) * scalar_inverse(x)) as int) * md((v - vf) as int)) as int)
}

/// Makes the disjunction with the range branch simulated: the maker holds
/// the auditor's private key and proves nothing of `v`, whose commitment
/// stands first in the proof.
#[allow(non_snake_case)]
pub fn create_range_or_schnorr_fake_range(
    gamma: Scalar,
    v: Scalar,
    bases: &Bases,
    AP_pr_key: Scalar,
    schnorr_message: &[u8],
) -> (r: RangeOrSchnorrProof)
    requires
        64 <= bases.gs().len(),
        64 <= bases.hs().len(),
    ensures
        r.range().vs().len() == 1,
        r.range().vs()[0]@ == commitment(*bases, v.value(), gamma.value()),
        schnorr_made(
            bases.g0()@,
            schnorr_message@,
            AP_pr_key.value(),
            r.range().t1()@,
            r.range().t2()@,
            r.hash().value(),
            r.signature().0.value(),
            r.signature().1.value(),
        ),
        exists|vf: u64|
            range_made(
                r.range(),
                *bases,
                seq![vf],
                seq![gamma.value()],
                r.hash().value(),
                Some(fake_shift(r.range(), v.value(), vf, r.hash().value())),
            ),
{
    let g = bases.g_init();
    let V = lin_comb(&v, &g, &gamma, &bases.h_init());
    let v_ = random_u64();
    let challenge = Scalar::random();
    let gammas: Vec<Scalar> = vec![gamma];
    let vs: Vec<u64> = vec![v_];
    proof {
        assert(padded_len(1) == 1);
    }
    let mut st = bullet_range_proof_ex_T1_T2(gammas.as_slice(), vs.as_slice(), bases);
    let ghost sr = choose|sr: Seq<nat>| st.committed(*bases, sr);
    let v_diff = sc_sub(v, sc_from_u64(v_));
    let shift = sc_mul(sc_mul(sc_mul(st.z, st.z), sc_invert(challenge)), v_diff);
    let T1 = point_sub(&st.T1, &point_mul(&shift, &g));
    let T2 = st.T2;
    let sig = create_modified_schnorr(bases, schnorr_message, AP_pr_key, (&T1, &T2), challenge);
    st.T1 = T1;
    let ghost st0 = st;
    proof {
        assert(st.committed(*bases, sr));
        assert(st.v@ =~= seq![v_]);
        assert(values(st.gamma@) =~= seq![gamma.value()]);
    }
    let proof = bullet_range_proof_rest(bases, st, challenge);
    let range_proof = proof.with_commitment(0, V);
    let r = RangeOrSchnorrProof { range_proof, schnorr: sig, range_hash: challenge };
    proof {
        assert(shift.value() == fake_shift(r.range(), v.value(), v_, r.hash().value()));
        assert(range_made_with(
            r.range(),
            *bases,
            seq![v_],
            seq![gamma.value()],
            r.hash().value(),
            st0.alpha.value(),
            st0.rho.value(),
            values(st0.l1@),
            sr,
            st0.tao1.value(),
            st0.tao2.value(),
            Some(fake_shift(r.range(), v.value(), v_, r.hash().value())),
        ));
    }
    r
}

/// Makes the disjunction with the signature branch simulated: the range
/// proof of `v` is genuine.
#[allow(non_snake_case)]
pub fn create_range_or_schnorr_fake_schnorr(
    gamma: Scalar,
    v: u64,
    bases: &Bases,
    AP_key: &Point,
    schnorr_message: &[u8],
) -> (r: RangeOrSchnorrProof)
    requires
        64 <= bases.gs().len(),
        64 <= bases.hs().len(),
    ensures
        r.range().vs().len() == 1,
        r.range().vs()[0]@ == commitment(*bases, v as nat, gamma.value()),
        or_challenges_split(*bases, r, AP_key@, schnorr_message@),
        range_made(r.range(), *bases, seq![v], seq![gamma.value()], r.hash().value(), None),
{
    let s = Scalar::random();
    let h = Scalar::random();
    let g = bases.g_init();
    let R = lin_comb(&s, &g, &h, AP_key);
    let gammas: Vec<Scalar> = vec![gamma];
    let vs: Vec<u64> = vec![v];
    proof {
        assert(padded_len(1) == 1);
    }
    let st = bullet_range_proof_ex_T1_T2(gammas.as_slice(), vs.as_slice(), bases);
    let pts: Vec<Point> = vec![st.T1, st.T2, *AP_key, R];
    proof {
        assert(crate::point::encodings(pts@) =~= seq![st.T1@, st.T2@, AP_key@, R@]);
    }
    let hash = get_hash_of_data_and_points(schnorr_message, pts.as_slice());
    let challenge = sc_sub(hash, h);
    let ghost sv = st.v@;
    let ghost sg = st.gamma@;
    let ghost sr = choose|sr: Seq<nat>| st.committed(*bases, sr);
    let ghost st0 = st;
    proof {
        assert(st.committed(*bases, sr));
        assert(st.v@ =~= seq![v]);
        assert(values(st.gamma@) =~= seq![gamma.value()]);
    }
    let range_proof = bullet_range_proof_rest(bases, st, challenge);
    let r = RangeOrSchnorrProof { range_proof, schnorr: (s, h), range_hash: challenge };
    proof {
        assert(range_made_with(
            r.range(),
            *bases,
            seq![v],
            seq![gamma.value()],
            r.hash().value(),
            st0.alpha.value(),
            st0.rho.value(),
            values(st0.l1@),
            sr,
            st0.tao1.value(),
            st0.tao2.value(),
            None,
        ));
        assert(sv.take(1)[0] == sv[0]);
        assert(sg.take(1)[0] == sg[0]);
        let hv = hash.value() as int;
        vstd::arithmetic::div_mod::lemma_add_mod_noop(h.value() as int, hv - h.value(), ell() as int);
        vstd::arithmetic::div_mod::lemma_mod_twice(hv - h.value(), ell() as int);
        vstd::arithmetic::div_mod::lemma_add_mod_noop(h.value() as int, challenge.value() as int, ell() as int);
        vstd::arithmetic::div_mod::lemma_small_mod(hash.value(), ell());
        vstd::arithmetic::div_mod::lemma_small_mod(h.value(), ell());
    }
    r
}

/// Checks the disjunction: the two challenges sum to the global one, the
/// range proof holds under its challenge and the signature under its.
#[allow(non_snake_case)]
pub fn verify_range_or_schnorr(bases: &Bases, proof: &RangeOrSchnorrProof, AP_key: &Point, message: &[u8]) -> (r: bool)
    ensures
        r == (or_challenges_split(*bases, *proof, AP_key@, message@) && range_accepts(
            proof.range(),
            *bases,
            Some((message@, AP_key@, or_nonce(*bases, *proof, AP_key@))),
            proof.signature().1.value(),
        ) && schnorr_accepts(
            bases.g0()@,
            message@,
            proof.signature().0.value(),
            proof.signature().1.value(),
            AP_key@,
            proof.range().t1()@,
            proof.range().t2()@,
            proof.hash().value(),
        )),
{
    let t1 = proof.range_proof.T1;
    let t2 = proof.range_proof.T2;
    let R = lin_comb(&proof.schnorr.0, &bases.g_init(), &proof.schnorr.1, AP_key);
    let pts: Vec<Point> = vec![t1, t2, *AP_key, R];
    proof {
        assert(crate::point::encodings(pts@) =~= seq![t1@, t2@, AP_key@, R@]);
    }
    let hash = get_hash_of_data_and_points(message, pts.as_slice());
    if !hash.equals(&sc_add(proof.schnorr.1, proof.range_hash)) {
        return false;
    }
    if !bullet_range_verify_ex(&proof.range_proof, bases, Some((message, AP_key, &R)), proof.schnorr.1) {
        return false;
    }
    verify_modified_schnorr(bases, message, &proof.schnorr, AP_key, (&t1, &t2), proof.range_hash)
}

/// For a disjunction made with the range branch simulated under the
/// auditor's private key `sk`, the two challenges sum to the global one
/// under the public key `sk G_0`, given that the curve computes
/// `s G_0 + h (sk G_0)` as `((s + h sk) mod ell) G_0`.
pub proof fn lemma_fake_range_split_given_linearity(bases: Bases, proof: RangeOrSchnorrProof, m: Seq<u8>, sk: nat)
    requires
        schnorr_made(
            bases.g0()@,
            m,
            sk,
            proof.range().t1()@,
            proof.range().t2()@,
            proof.hash().value(),
            proof.signature().0.value(),
            proof.signature().1.value(),
        ),
        forall|a: nat, b: nat| #[trigger] lin2(a, bases.g0()@, b, edwards_mul(sk, bases.g0()@)) == edwards_mul(
            (a + b * sk) % ell(),
            bases.g0()@,
        ),
    ensures
        or_challenges_split(bases, proof, edwards_mul(sk, bases.g0()@), m),
{
    let g0 = bases.g0()@;
    let s = proof.signature().0.value();
    let h = proof.signature().1.value();
    let rh = proof.hash().value();
    let t1 = proof.range().t1()@;
    let t2 = proof.range().t2()@;
    let r = choose|r: nat|
        {
            &&& r < ell()
            &&& h == crate::schnorr::schnorr_challenge(m, t1, t2, edwards_mul(sk, g0), edwards_mul(r, g0), rh)
            &&& s == (r - h * sk) % (ell() as int)
        };
    assert((s + h * sk) % ell() == r) by {
        vstd::arithmetic::div_mod::lemma_add_mod_noop(r - h * sk, (h * sk) as int, ell() as int);
        vstd::arithmetic::div_mod::lemma_mod_twice(r - h * sk, ell() as int);
        vstd::arithmetic::div_mod::lemma_add_mod_noop(s as int, (h * sk) as int, ell() as int);
        vstd::arithmetic::div_mod::lemma_small_mod(r, ell());
        vstd::arithmetic::div_mod::lemma_mod_bound(r - h * sk, ell() as int);
    }
    assert(lin2(s, g0, h, edwards_mul(sk, g0)) == edwards_mul(r, g0));
    let big_h = global_challenge(m, t1, t2, edwards_mul(sk, g0), edwards_mul(r, g0)) as int;
    assert((h + rh) % ell() == big_h) by {
        vstd::arithmetic::div_mod::lemma_add_mod_noop(big_h - rh, rh as int, ell() as int);
        vstd::arithmetic::div_mod::lemma_mod_twice(big_h - rh, ell() as int);
        vstd::arithmetic::div_mod::lemma_add_mod_noop(h as int, rh as int, ell() as int);
        vstd::arithmetic::div_mod::lemma_mod_bound(big_h - rh, ell() as int);
        vstd::arithmetic::div_mod::lemma_small_mod(big_h as nat, ell());
    }
}

} // verus!
