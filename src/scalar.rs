//! Scalars of the prime field of order `ell`, held as canonical 32-byte
//! little-endian encodings. Arithmetic is carried out by curve25519-dalek.
use vstd::prelude::*;
use curve25519_dalek::scalar::Scalar as DalekScalar;
use rand_core::OsRng;
use sha2::Sha512;

verus! {

/// The order of the prime-order subgroup of the Edwards curve.
pub open spec fn ell() -> nat {
    7237005577332262213973186563042994240857116359379907606001950938285454250989nat
}

/// The little-endian integer that a byte string encodes.
pub open spec fn le_nat(b: Seq<u8>) -> nat
    decreases b.len(),
{
    if b.len() == 0 {
        0
    } else {
        b[0] as nat + 256 * le_nat(b.drop_first())
    }
}

/// The SHA-512 digest of a byte string.
pub uninterp spec fn sha512_digest(data: Seq<u8>) -> Seq<u8>;

/// Two byte strings of one length that encode the same integer are equal.
pub proof fn lemma_le_nat_injective(a: Seq<u8>, b: Seq<u8>)
    requires
        a.len() == b.len(),
        le_nat(a) == le_nat(b),
    ensures
        a == b,
    decreases a.len(),
{
    if a.len() > 0 {
        let x = le_nat(a.drop_first());
        let y = le_nat(b.drop_first());
        let a0 = a[0] as int;
        let b0 = b[0] as int;
        assert(a0 == b0 && x == y) by (nonlinear_arith)
            requires
                a0 + 256 * x == b0 + 256 * y,
                0 <= a0 < 256,
                0 <= b0 < 256,
                x >= 0,
                y >= 0,
        ;
        lemma_le_nat_injective(a.drop_first(), b.drop_first());
        assert(a =~= seq![a[0]] + a.drop_first());
        assert(b =~= seq![b[0]] + b.drop_first());
    }
}

/// An element of the scalar field, always reduced below `ell`.
#[derive(Clone, Copy, Debug)]
pub struct Scalar {
    bytes: [u8; 32],
}

/// The values of a sequence of scalars.
pub open spec fn values(s: Seq<Scalar>) -> Seq<nat> {
    s.map_values(|x: Scalar| x.value())
}

/// The sum of the values of a sequence of scalars, as an integer.
pub open spec fn sum_values(s: Seq<Scalar>) -> int
    decreases s.len(),
{
    if s.len() == 0 {
        0
    } else {
        sum_values(s.drop_last()) + s.last().value()
    }
}

impl Scalar {
    /// Every scalar is reduced below `ell`; the curve library's arithmetic
    /// is stated for such scalars.
    #[verifier::type_invariant]
    spec fn reduced(&self) -> bool {
        le_nat(self.bytes@) < ell()
    }

    /// The field element that this scalar stands for.
    pub closed spec fn value(&self) -> nat {
        le_nat(self.bytes@)
    }

    /// Relies on `Scalar::from_canonical_bytes`: the bytes are accepted
    /// exactly when they encode an integer below `ell`.
    #[verifier::external_body]
    pub fn from_canonical_bytes(b: [u8; 32]) -> (r: Option<Scalar>)
        ensures
            r is Some <==> le_nat(b@) < ell(),
            r is Some ==> r->0.value() == le_nat(b@),
    {
        DalekScalar::from_canonical_bytes(b).map(|s| Scalar { bytes: s.to_bytes() })
    }

    /// The canonical little-endian encoding.
    pub closed spec fn encoding(&self) -> Seq<u8> {
        self.bytes@
    }

    /// The canonical little-endian encoding.
    pub fn to_bytes(&self) -> (r: [u8; 32])
        ensures
            le_nat(r@) == self.value(),
            r@ == self.encoding(),
    {
        self.bytes
    }

    /// Relies on `Scalar::random` fed by the operating system's generator:
    /// the result is a reduced scalar.
    #[verifier::external_body]
    pub(crate) fn random() -> (r: Scalar)
        ensures
            r.value() < ell(),
    {
        Scalar { bytes: DalekScalar::random(&mut OsRng).to_bytes() }
    }

    /// The scalar `v`.
    pub fn from_u64(v: u64) -> (r: Scalar)
        ensures
            r.value() == v as nat,
    {
        sc_from_u64(v)
    }

    pub fn zero() -> (r: Scalar)
        ensures
            r.value() == 0,
    {
        sc_from_u64(0)
    }

    pub fn one() -> (r: Scalar)
        ensures
            r.value() == 1,
    {
        sc_from_u64(1)
    }

    /// Equality of field elements.
    pub fn equals(&self, o: &Scalar) -> (r: bool)
        ensures
            r == (self.value() == o.value()),
    {
        let mut i: usize = 0;
        while i < 32
            invariant
                0 <= i <= 32,
                forall|k: int| 0 <= k < i ==> self.bytes@[k] == o.bytes@[k],
            decreases 32 - i,
        {
            if self.bytes[i] != o.bytes[i] {
                proof {
                    if self.value() == o.value() {
                        lemma_le_nat_injective(self.bytes@, o.bytes@);
                    }
                }
                return false;
            }
            i = i + 1;
        }
        assert(self.bytes@ =~= o.bytes@);
        true
    }
}

impl PartialEq for Scalar {
    fn eq(&self, o: &Scalar) -> (r: bool) {
        self.equals(o)
    }
}

impl vstd::std_specs::cmp::PartialEqSpecImpl for Scalar {
    open spec fn obeys_eq_spec() -> bool {
        true
    }

    open spec fn eq_spec(&self, o: &Scalar) -> bool {
        self.value() == o.value()
    }
}

/// Relies on `Scalar::from(u64)`: the scalar with that integer value.
#[verifier::external_body]
pub(crate) fn sc_from_u64(v: u64) -> (r: Scalar)
    ensures
        r.value() == v as nat,
{
    Scalar { bytes: DalekScalar::from(v).to_bytes() }
}

/// Relies on scalar addition, which reduces modulo `ell`.
#[verifier::external_body]
pub(crate) fn sc_add(a: Scalar, b: Scalar) -> (r: Scalar)
    ensures
        r.value() == (a.value() + b.value()) % ell(),
{
    Scalar { bytes: (DalekScalar::from_bits(a.bytes) + DalekScalar::from_bits(b.bytes)).to_bytes() }
}

/// Relies on scalar subtraction, which reduces modulo `ell`.
#[verifier::external_body]
pub(crate) fn sc_sub(a: Scalar, b: Scalar) -> (r: Scalar)
    ensures
        r.value() == (a.value() - b.value()) % (ell() as int),
{
    Scalar { bytes: (DalekScalar::from_bits(a.bytes) - DalekScalar::from_bits(b.bytes)).to_bytes() }
}

/// Relies on scalar multiplication, which reduces modulo `ell`.
#[verifier::external_body]
pub(crate) fn sc_mul(a: Scalar, b: Scalar) -> (r: Scalar)
    ensures
        r.value() == (a.value() * b.value()) % ell(),
{
    Scalar { bytes: (DalekScalar::from_bits(a.bytes) * DalekScalar::from_bits(b.bytes)).to_bytes() }
}

/// Relies on scalar negation, which reduces modulo `ell`.
#[verifier::external_body]
pub(crate) fn sc_neg(a: Scalar) -> (r: Scalar)
    ensures
        r.value() == (0 - a.value()) % (ell() as int),
{
    Scalar { bytes: (-DalekScalar::from_bits(a.bytes)).to_bytes() }
}

/// The inverse of `a` modulo `ell`; zero for zero.
#[verifier::opaque]
pub open spec fn scalar_inverse(a: nat) -> nat {
    if a % ell() == 0 {
        0
    } else {
        choose|r: nat| r < ell() && (#[trigger] (r * a)) % ell() == 1
    }
}

/// An inverse modulo `ell` is unique.
pub proof fn lemma_inverse_unique(a: nat, r: nat)
    requires
        a % ell() != 0,
        r < ell(),
        (r * a) % ell() == 1,
    ensures
        r == scalar_inverse(a),
{
    reveal(scalar_inverse);
    assert(r < ell() && (r * a) % ell() == 1);
    let c = scalar_inverse(a);
    assert(c < ell() && (c * a) % ell() == 1);
    let m = ell() as int;
    vstd::arithmetic::div_mod::lemma_mul_mod_noop_left((c * a) as int, r as int, m);
    vstd::arithmetic::div_mod::lemma_mul_mod_noop_right(c as int, (a * r) as int, m);
    assert((c * a) * r == c * (a * r)) by (nonlinear_arith);
    assert(a * r == r * a) by (nonlinear_arith);
    vstd::arithmetic::div_mod::lemma_small_mod(r, ell());
    vstd::arithmetic::div_mod::lemma_small_mod(c, ell());
}

/// Relies on `Scalar::invert`: the multiplicative inverse of a nonzero
/// scalar, reduced; zero for zero, which it raises to the power `ell - 2`.
#[verifier::external_body]
pub(crate) fn sc_invert_raw(a: Scalar) -> (r: Scalar)
    ensures
        r.value() < ell(),
        a.value() % ell() != 0 ==> (r.value() * a.value()) % ell() == 1,
        a.value() % ell() == 0 ==> r.value() == 0,
{
    Scalar { bytes: DalekScalar::from_bits(a.bytes).invert().to_bytes() }
}

/// The inverse of `a` modulo `ell`; zero for zero.
pub(crate) fn sc_invert(a: Scalar) -> (r: Scalar)
    ensures
        r.value() == scalar_inverse(a.value()),
{
    let r = sc_invert_raw(a);
    proof {
        if a.value() % ell() != 0 {
            lemma_inverse_unique(a.value(), r.value());
        } else {
            reveal(scalar_inverse);
        }
    }
    r
}

/// Relies on `Scalar::from_bytes_mod_order`: the 256-bit little-endian
/// integer reduced modulo `ell`.
#[verifier::external_body]
pub(crate) fn sc_from_bytes_mod_order(b: [u8; 32]) -> (r: Scalar)
    ensures
        r.value() == le_nat(b@) % ell(),
{
    Scalar { bytes: DalekScalar::from_bytes_mod_order(b).to_bytes() }
}

/// Relies on `Scalar::hash_from_bytes::<Sha512>`: the 512-bit digest read
/// as a little-endian integer and reduced modulo `ell`.
#[verifier::external_body]
pub(crate) fn sc_hash_sha512(data: &[u8]) -> (r: Scalar)
    ensures
        r.value() == le_nat(sha512_digest(data@)) % ell(),
{
    Scalar { bytes: DalekScalar::hash_from_bytes::<Sha512>(data).to_bytes() }
}

/// The sum of a slice of scalars.
pub fn sum_scalars(s: &[Scalar]) -> (r: Scalar)
    ensures
        r.value() == sum_values(s@) % (ell() as int),
{
    let mut acc = sc_from_u64(0);
    let mut i: usize = 0;
    while i < s.len()
        invariant
            0 <= i <= s@.len(),
            acc.value() == sum_values(s@.take(i as int)) % (ell() as int),
        decreases s@.len() - i,
    {
        proof {
            assert(s@.take(i as int + 1).drop_last() =~= s@.take(i as int));
            vstd::arithmetic::div_mod::lemma_add_mod_noop(
                sum_values(s@.take(i as int)),
                s@[i as int].value() as int,
                ell() as int,
            );
            vstd::arithmetic::div_mod::lemma_mod_bound(s@[i as int].value() as int, ell() as int);
        }
        let x = s[i];
        let old_acc = acc;
        acc = sc_add(acc, x);
        proof {
            vstd::arithmetic::div_mod::lemma_mod_twice(s@[i as int].value() as int, ell() as int);
            vstd::arithmetic::div_mod::lemma_add_mod_noop(
                sum_values(s@.take(i as int)),
                s@[i as int].value() as int,
                ell() as int,
            );
        }
        i = i + 1;
    }
    assert(s@.take(s@.len() as int) =~= s@);
    acc
}

} // verus!
