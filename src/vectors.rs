//! Element-wise arithmetic on vectors of scalars, modulo `ell`.
use vstd::prelude::*;
use vstd::arithmetic::power::pow;
use crate::scalar::{Scalar, ell, values, sc_add, sc_sub, sc_mul, sc_from_u64};

verus! {

/// `sum_i a[i] * b[i]`, as an integer.
pub open spec fn dot(a: Seq<nat>, b: Seq<nat>) -> int
    decreases a.len(),
{
    if a.len() == 0 || b.len() == 0 {
        0
    } else {
        dot(a.drop_last(), b.take(a.len() - 1)) + a.last() * b[a.len() - 1]
    }
}

proof fn lemma_mod_acc(x: int, y: int, m: int)
    requires
        m > 0,
    ensures
        ((x % m) + (y % m)) % m == (x + y) % m,
{
    vstd::arithmetic::div_mod::lemma_add_mod_noop(x, y, m);
}

/// The inner product `<a, b>`.
pub fn inner_product(a: &[Scalar], b: &[Scalar]) -> (r: Scalar)
    requires
        a@.len() == b@.len(),
    ensures
        r.value() == dot(values(a@), values(b@)) % (ell() as int),
{
    let mut acc = sc_from_u64(0);
    let mut i: usize = 0;
    while i < a.len()
        invariant
            a@.len() == b@.len(),
            i <= a@.len(),
            acc.value() == dot(values(a@).take(i as int), values(b@).take(i as int)) % (ell() as int),
        decreases a@.len() - i,
    {
        let p = sc_mul(a[i], b[i]);
        let ghost old_acc = acc.value();
        acc = sc_add(acc, p);
        proof {
            let va = values(a@);
            let vb = values(b@);
            assert(va.take(i + 1).drop_last() =~= va.take(i as int));
            assert(vb.take(i + 1).take(i as int) =~= vb.take(i as int));
            let prev = dot(va.take(i as int), vb.take(i as int));
            let term = a@[i as int].value() * b@[i as int].value();
            assert(dot(va.take(i + 1), vb.take(i + 1)) == prev + term);
            vstd::arithmetic::div_mod::lemma_mod_twice(prev, ell() as int);
            vstd::arithmetic::div_mod::lemma_mod_twice(term as int, ell() as int);
            lemma_mod_acc(prev, term as int, ell() as int);
        }
        i = i + 1;
    }
    assert(values(a@).take(a@.len() as int) =~= values(a@));
    assert(values(b@).take(b@.len() as int) =~= values(b@));
    acc
}

/// `x * a + y * b`, element by element.
pub fn add_mult(x: Scalar, a: &[Scalar], y: Scalar, b: &[Scalar]) -> (r: Vec<Scalar>)
    requires
        a@.len() == b@.len(),
    ensures
        r@.len() == a@.len(),
        forall|i: int|
            0 <= i < a@.len() ==> (#[trigger] r@[i]).value() == ((x.value() * a@[i].value()) % ell() + (
            y.value() * b@[i].value()) % ell()) % ell(),
{
    let mut r: Vec<Scalar> = Vec::new();
    let mut i: usize = 0;
    while i < a.len()
        invariant
            a@.len() == b@.len(),
            i <= a@.len(),
            r@.len() == i,
            forall|k: int|
                0 <= k < i ==> (#[trigger] r@[k]).value() == ((x.value() * a@[k].value()) % ell() + (
                y.value() * b@[k].value()) % ell()) % ell(),
        decreases a@.len() - i,
    {
        r.push(sc_add(sc_mul(x, a[i]), sc_mul(y, b[i])));
        i = i + 1;
    }
    r
}

/// `a[i] * b[i]`, element by element.
pub fn multiply_scalar_arrays(a: &[Scalar], b: &[Scalar]) -> (r: Vec<Scalar>)
    requires
        a@.len() <= b@.len(),
    ensures
        r@.len() == a@.len(),
        forall|i: int|
            0 <= i < a@.len() ==> (#[trigger] r@[i]).value() == (a@[i].value() * b@[i].value()) % ell(),
{
    let mut r: Vec<Scalar> = Vec::new();
    let mut i: usize = 0;
    while i < a.len()
        invariant
            a@.len() <= b@.len(),
            i <= a@.len(),
            r@.len() == i,
            forall|k: int|
                0 <= k < i ==> (#[trigger] r@[k]).value() == (a@[k].value() * b@[k].value()) % ell(),
        decreases a@.len() - i,
    {
        r.push(sc_mul(a[i], b[i]));
        i = i + 1;
    }
    r
}

/// `a[i] + b[i]`, element by element.
pub fn add_scalar_arrays(a: &[Scalar], b: &[Scalar]) -> (r: Vec<Scalar>)
    requires
        a@.len() <= b@.len(),
    ensures
        r@.len() == a@.len(),
        forall|i: int|
            0 <= i < a@.len() ==> (#[trigger] r@[i]).value() == (a@[i].value() + b@[i].value()) % ell(),
{
    let mut r: Vec<Scalar> = Vec::new();
    let mut i: usize = 0;
    while i < a.len()
        invariant
            a@.len() <= b@.len(),
            i <= a@.len(),
            r@.len() == i,
            forall|k: int|
                0 <= k < i ==> (#[trigger] r@[k]).value() == (a@[k].value() + b@[k].value()) % ell(),
        decreases a@.len() - i,
    {
        r.push(sc_add(a[i], b[i]));
        i = i + 1;
    }
    r
}

/// `a[i] - b[i]`, element by element.
pub fn substract_scalar_arrays(a: &[Scalar], b: &[Scalar]) -> (r: Vec<Scalar>)
    requires
        a@.len() <= b@.len(),
    ensures
        r@.len() == a@.len(),
        forall|i: int|
            0 <= i < a@.len() ==> (#[trigger] r@[i]).value() == (a@[i].value() - b@[i].value()) % (
            ell() as int),
{
    let mut r: Vec<Scalar> = Vec::new();
    let mut i: usize = 0;
    while i < a.len()
        invariant
            a@.len() <= b@.len(),
            i <= a@.len(),
            r@.len() == i,
            forall|k: int|
                0 <= k < i ==> (#[trigger] r@[k]).value() == (a@[k].value() - b@[k].value()) % (
                ell() as int),
        decreases a@.len() - i,
    {
        r.push(sc_sub(a[i], b[i]));
        i = i + 1;
    }
    r
}

/// `a[i] * b`, element by element.
pub fn multiply_scalar_to_array(a: &[Scalar], b: Scalar) -> (r: Vec<Scalar>)
    ensures
        r@.len() == a@.len(),
        forall|i: int|
            0 <= i < a@.len() ==> (#[trigger] r@[i]).value() == (a@[i].value() * b.value()) % ell(),
{
    let mut r: Vec<Scalar> = Vec::new();
    let mut i: usize = 0;
    while i < a.len()
        invariant
            i <= a@.len(),
            r@.len() == i,
            forall|k: int|
                0 <= k < i ==> (#[trigger] r@[k]).value() == (a@[k].value() * b.value()) % ell(),
        decreases a@.len() - i,
    {
        r.push(sc_mul(a[i], b));
        i = i + 1;
    }
    r
}

/// `n` copies of `z`.
pub fn array_of(z: Scalar, n: usize) -> (r: Vec<Scalar>)
    ensures
        r@.len() == n,
        forall|i: int| 0 <= i < n ==> #[trigger] r@[i] == z,
{
    let mut r: Vec<Scalar> = Vec::new();
    let mut i: usize = 0;
    while i < n
        invariant
            i <= n,
            r@.len() == i,
            forall|k: int| 0 <= k < i ==> #[trigger] r@[k] == z,
        decreases n - i,
    {
        r.push(z);
        i = i + 1;
    }
    r
}

/// The powers `x^0, ..., x^(n-1)`.
pub fn to_the_n(x: Scalar, n: usize) -> (r: Vec<Scalar>)
    ensures
        r@.len() == n,
        forall|i: int| 0 <= i < n ==> (#[trigger] r@[i]).value() == pow(x.value() as int, i as nat) % (ell() as int),
{
    let mut r: Vec<Scalar> = Vec::new();
    let mut prod = sc_from_u64(1);
    let mut i: usize = 0;
    proof {
        vstd::arithmetic::power::lemma_pow0(x.value() as int);
        vstd::arithmetic::div_mod::lemma_small_mod(1, ell());
    }
    while i < n
        invariant
            i <= n,
            r@.len() == i,
            prod.value() == pow(x.value() as int, i as nat) % (ell() as int),
            forall|k: int| 0 <= k < i ==> (#[trigger] r@[k]).value() == pow(x.value() as int, k as nat) % (ell() as int),
        decreases n - i,
    {
        r.push(prod);
        let ghost p = pow(x.value() as int, i as nat);
        prod = sc_mul(prod, x);
        proof {
            vstd::arithmetic::power::lemma_pow_adds(x.value() as int, i as nat, 1);
            vstd::arithmetic::power::lemma_pow1(x.value() as int);
            vstd::arithmetic::div_mod::lemma_mul_mod_noop_left(p, x.value() as int, ell() as int);
        }
        i = i + 1;
    }
    r
}

} // verus!
