//! The one-of-many linear relation proof: given `m` tuples of `n` pairs
//! `(x_i, y_i)`, it shows knowledge of a scalar `s` and an index `j` with
//! `y_i = s * x_i` for every pair of tuple `j`, without telling which.
use vstd::prelude::*;
use crate::scalar::{Scalar, ell, le_nat, sha512_digest, sum_values, sum_scalars, sc_hash_sha512, sc_sub, sc_mul};
use crate::point::{CurveVector, VectorTuple, concat, lemma_concat_push, edwards_mul, lin2, point_mul, lin_comb, push_point};
use crate::sort::{shuffle, is_permutation, permuted};

verus! {

/// A proof: one pair of response scalars `(c_j, d_j)` per tuple.
#[derive(Clone, Debug)]
pub struct Proof {
    pub c: Vec<Scalar>,
    pub d: Vec<Scalar>,
}

impl Proof {
    pub open spec fn cs(&self) -> Seq<Scalar> {
        self.c@
    }

    pub open spec fn ds(&self) -> Seq<Scalar> {
        self.d@
    }

    /// The proof with responses `c` and `d`.
    pub fn from_parts(c: Vec<Scalar>, d: Vec<Scalar>) -> (r: Proof)
        ensures
            r.cs() == c@,
            r.ds() == d@,
    {
        Proof { c, d }
    }

    pub fn c_values(&self) -> (r: &Vec<Scalar>)
        ensures
            r@ == self.cs(),
    {
        &self.c
    }

    pub fn d_values(&self) -> (r: &Vec<Scalar>)
        ensures
            r@ == self.ds(),
    {
        &self.d
    }
}

/// The encodings `(x, y)` of the pairs of a tuple.
pub open spec fn pair_views(v: Seq<CurveVector>) -> Seq<(Seq<u8>, Seq<u8>)> {
    v.map_values(|c: CurveVector| (c.x@, c.y@))
}

/// The encodings of the pairs of each tuple.
pub open spec fn tuple_views(t: Seq<VectorTuple>) -> Seq<Seq<(Seq<u8>, Seq<u8>)>> {
    t.map_values(|x: VectorTuple| pair_views(x.values@))
}

/// At least one tuple, tuples of at least one pair, all of one arity.
pub open spec fn well_shaped(t: Seq<Seq<(Seq<u8>, Seq<u8>)>>) -> bool {
    &&& t.len() > 0
    &&& t[0].len() > 0
    &&& forall|j: int| 0 <= j < t.len() ==> (#[trigger] t[j]).len() == t[0].len()
}

/// Tuples that all have `n > 0` pairs are well shaped.
pub proof fn lemma_well_shaped(t: Seq<VectorTuple>, n: nat)
    requires
        t.len() > 0,
        n > 0,
        forall|j: int| 0 <= j < t.len() ==> (#[trigger] t[j]).values@.len() == n,
    ensures
        well_shaped(tuple_views(t)),
{
    assert forall|j: int| 0 <= j < t.len() implies (#[trigger] tuple_views(t)[j]).len() == tuple_views(t)[0].len() by {
        assert(tuple_views(t)[j] == pair_views(t[j].values@));
        assert(tuple_views(t)[0] == pair_views(t[0].values@));
    }
    assert(tuple_views(t)[0] == pair_views(t[0].values@));
}

/// The value of an optional scalar.
pub open spec fn opt_value(r: Option<Scalar>) -> Option<nat> {
    match r {
        Some(x) => Some(x.value()),
        None => None,
    }
}

/// The commitments of one tuple: `c * x_i + d * y_i`, or `r * x_i` for the
/// tuple whose relation the prover knows.
pub open spec fn row_commitments(v: Seq<(Seq<u8>, Seq<u8>)>, c: nat, d: nat, masked: Option<nat>) -> Seq<Seq<u8>> {
    Seq::new(
        v.len(),
        |i: int|
            match masked {
                Some(r) => edwards_mul(r, v[i].0),
                None => lin2(c, v[i].0, d, v[i].1),
            },
    )
}

/// The encoded commitments of each tuple. No tuple is masked where
/// `hidden` is no index.
pub open spec fn commitment_rows(
    t: Seq<Seq<(Seq<u8>, Seq<u8>)>>,
    c: Seq<Scalar>,
    d: Seq<Scalar>,
    hidden: int,
    r: nat,
) -> Seq<Seq<u8>> {
    Seq::new(
        t.len(),
        |j: int|
            concat(
                row_commitments(
                    t[j],
                    c[j].value(),
                    d[j].value(),
                    if j == hidden {
                        Some(r)
                    } else {
                        None
                    },
                ),
            ),
    )
}

/// The encodings of all commitments, tuple after tuple.
pub open spec fn commitments_bytes(
    t: Seq<Seq<(Seq<u8>, Seq<u8>)>>,
    c: Seq<Scalar>,
    d: Seq<Scalar>,
    hidden: int,
    r: nat,
) -> Seq<u8> {
    concat(commitment_rows(t, c, d, hidden, r))
}

/// The encoding `x_1 || y_1 || ... || x_n || y_n` of a tuple.
pub open spec fn pair_bytes(v: Seq<(Seq<u8>, Seq<u8>)>) -> Seq<u8> {
    concat(v.map_values(|p: (Seq<u8>, Seq<u8>)| p.0 + p.1))
}

/// The encodings of all tuples, one after the other.
pub open spec fn tuples_bytes(t: Seq<Seq<(Seq<u8>, Seq<u8>)>>) -> Seq<u8> {
    concat(Seq::new(t.len(), |j: int| pair_bytes(t[j])))
}

/// `n` zero bytes.
pub open spec fn zero_bytes(n: nat) -> Seq<u8> {
    Seq::new(n, |i: int| 0u8)
}

/// The hashed buffer: the commitments in a region of twice their size
/// whose second half is zero, then the tuples.
pub open spec fn transcript(t: Seq<Seq<(Seq<u8>, Seq<u8>)>>, c: Seq<Scalar>, d: Seq<Scalar>, hidden: int, r: nat) -> Seq<u8> {
    let ls = commitments_bytes(t, c, d, hidden, r);
    ls + zero_bytes(ls.len()) + tuples_bytes(t)
}

/// The challenge: SHA-512 of the transcript, reduced.
pub open spec fn challenge(t: Seq<Seq<(Seq<u8>, Seq<u8>)>>, c: Seq<Scalar>, d: Seq<Scalar>, hidden: int, r: nat) -> nat {
    le_nat(sha512_digest(transcript(t, c, d, hidden, r))) % ell()
}

/// Appends `n` zero bytes.
fn push_zeros(buf: &mut Vec<u8>, n: usize)
    ensures
        final(buf)@ == old(buf)@ + zero_bytes(n as nat),
{
    let mut i: usize = 0;
    while i < n
        invariant
            i <= n,
            buf@ == old(buf)@ + zero_bytes(i as nat),
        decreases n - i,
    {
        buf.push(0u8);
        assert(buf@ =~= old(buf)@ + zero_bytes(i as nat + 1));
        i = i + 1;
    }
}

/// What the verifier accepts: well-shaped tuples, one response pair per
/// tuple, and the `d_j` summing to the challenge recomputed from
/// `c_j * x + d_j * y`.
pub open spec fn accepts(t: Seq<Seq<(Seq<u8>, Seq<u8>)>>, c: Seq<Scalar>, d: Seq<Scalar>) -> bool {
    &&& well_shaped(t)
    &&& c.len() == t.len()
    &&& d.len() == t.len()
    &&& challenge(t, c, d, -1, 0) == sum_values(d) % (ell() as int)
}

/// What the prover makes for tuple `hidden` and secret `s`: for some nonce
/// `r`, `c_hidden = r - d_hidden * s`, and the `d_j` sum to the challenge of
/// the commitments in which tuple `hidden` is committed to as `r * x_i`.
pub open spec fn made_for(t: Seq<Seq<(Seq<u8>, Seq<u8>)>>, hidden: int, s: nat, c: Seq<Scalar>, d: Seq<Scalar>) -> bool {
    &&& c.len() == t.len()
    &&& d.len() == t.len()
    &&& exists|r: nat|
        {
            &&& r < ell()
            &&& c[hidden].value() == (r - d[hidden].value() * s) % (ell() as int)
            &&& challenge(t, c, d, hidden, r) == sum_values(d) % (ell() as int)
        }
}

/// Appends the commitments of one tuple to a buffer.
fn push_row(buf: &mut Vec<u8>, v: &Vec<CurveVector>, c: &Scalar, d: &Scalar, masked: Option<Scalar>)
    ensures
        final(buf)@ == old(buf)@ + concat(row_commitments(pair_views(v@), c.value(), d.value(), opt_value(masked))),
{
    let ghost row = row_commitments(pair_views(v@), c.value(), d.value(), opt_value(masked));
    let mut i: usize = 0;
    while i < v.len()
        invariant
            i <= v@.len(),
            row == row_commitments(pair_views(v@), c.value(), d.value(), opt_value(masked)),
            buf@ == old(buf)@ + concat(row.take(i as int)),
        decreases v@.len() - i,
    {
        proof {
            lemma_concat_push(row, i as int);
        }
        let cv = v[i];
        let l = match masked {
            Some(r) => point_mul(&r, &cv.x),
            None => lin_comb(c, &cv.x, d, &cv.y),
        };
        push_point(buf, &l);
        assert(buf@ =~= old(buf)@ + concat(row.take(i as int + 1)));
        i = i + 1;
    }
    assert(row.take(v@.len() as int) =~= row);
}

/// Appends the commitments of all tuples; tuple `hidden` is committed to
/// with nonce `r`.
fn push_commitments(
    buf: &mut Vec<u8>,
    t: &[VectorTuple],
    c: &Vec<Scalar>,
    d: &Vec<Scalar>,
    hidden: Option<usize>,
    r: &Scalar,
)
    requires
        c@.len() == t@.len(),
        d@.len() == t@.len(),
    ensures
        final(buf)@ == old(buf)@ + commitments_bytes(
            tuple_views(t@),
            c@,
            d@,
            match hidden {
                Some(h) => h as int,
                None => -1,
            },
            r.value(),
        ),
{
    let ghost h: int = match hidden {
        Some(h) => h as int,
        None => -1,
    };
    let ghost rows = commitment_rows(tuple_views(t@), c@, d@, h, r.value());
    let mut j: usize = 0;
    while j < t.len()
        invariant
            j <= t@.len(),
            c@.len() == t@.len(),
            d@.len() == t@.len(),
            h == match hidden {
                Some(h) => h as int,
                None => -1,
            },
            rows.len() == t@.len(),
            rows == commitment_rows(tuple_views(t@), c@, d@, h, r.value()),
            buf@ == old(buf)@ + concat(rows.take(j as int)),
        decreases t@.len() - j,
    {
        proof {
            lemma_concat_push(rows, j as int);
        }
        let masked = match hidden {
            Some(hh) => if hh == j {
                Some(*r)
            } else {
                None
            },
            None => None,
        };
        assert(opt_value(masked) == if j as int == h {
            Some(r.value())
        } else {
            None::<nat>
        });
        assert(tuple_views(t@)[j as int] == pair_views(t@[j as int].values@));
        push_row(buf, &t[j].values, &c[j], &d[j], masked);
        assert(buf@ =~= old(buf)@ + concat(rows.take(j as int + 1)));
        j = j + 1;
    }
    assert(rows.take(t@.len() as int) =~= rows);
}

/// Appends the encodings of all tuples.
fn push_tuples(buf: &mut Vec<u8>, t: &[VectorTuple])
    ensures
        final(buf)@ == old(buf)@ + tuples_bytes(tuple_views(t@)),
{
    let ghost s = Seq::new(t@.len(), |j: int| pair_bytes(tuple_views(t@)[j]));
    let mut j: usize = 0;
    while j < t.len()
        invariant
            j <= t@.len(),
            s == Seq::new(t@.len(), |j: int| pair_bytes(tuple_views(t@)[j])),
            buf@ == old(buf)@ + concat(s.take(j as int)),
        decreases t@.len() - j,
    {
        proof {
            lemma_concat_push(s, j as int);
        }
        t[j].push_bytes(buf);
        proof {
            let vs = t@[j as int].values@;
            assert(tuple_views(t@)[j as int] == pair_views(vs));
            assert(vs.map_values(|c: CurveVector| c.bytes()) =~= pair_views(vs).map_values(
                |p: (Seq<u8>, Seq<u8>)| p.0 + p.1,
            ));
        }
        assert(buf@ =~= old(buf)@ + concat(s.take(j as int + 1)));
        j = j + 1;
    }
    assert(s.take(t@.len() as int) =~= s);
    assert(s =~= Seq::new(tuple_views(t@).len(), |j: int| pair_bytes(tuple_views(t@)[j])));
}

/// The sum with one summand replaced.
pub proof fn lemma_sum_values_update(s: Seq<Scalar>, k: int, x: Scalar)
    requires
        0 <= k < s.len(),
    ensures
        sum_values(s.update(k, x)) == sum_values(s) - s[k].value() + x.value(),
    decreases s.len(),
{
    if k == s.len() - 1 {
        assert(s.update(k, x).drop_last() =~= s.drop_last());
    } else {
        lemma_sum_values_update(s.drop_last(), k, x);
        assert(s.update(k, x).drop_last() =~= s.drop_last().update(k, x));
    }
}

proof fn lemma_mod_complete(s: int, h: int, m: int)
    requires
        m > 0,
        0 <= h < m,
    ensures
        (s + (h - s % m) % m) % m == h,
{
    let a = s % m;
    vstd::arithmetic::div_mod::lemma_mod_bound(s, m);
    vstd::arithmetic::div_mod::lemma_add_mod_noop(s, (h - a) % m, m);
    vstd::arithmetic::div_mod::lemma_mod_twice(h - a, m);
    vstd::arithmetic::div_mod::lemma_add_mod_noop(a, h - a, m);
    vstd::arithmetic::div_mod::lemma_small_mod(a as nat, m as nat);
    vstd::arithmetic::div_mod::lemma_small_mod(h as nat, m as nat);
}

/// Checks that the tuples are well shaped.
fn check_shape(t: &[VectorTuple]) -> (r: bool)
    ensures
        r == well_shaped(tuple_views(t@)),
{
    if t.len() == 0 {
        return false;
    }
    let n = t[0].values.len();
    if n == 0 {
        assert(tuple_views(t@)[0] == pair_views(t@[0].values@));
        return false;
    }
    let mut j: usize = 0;
    while j < t.len()
        invariant
            j <= t@.len(),
            t@.len() > 0,
            n == t@[0].values@.len(),
            forall|k: int| 0 <= k < j ==> (#[trigger] t@[k]).values@.len() == n,
        decreases t@.len() - j,
    {
        if t[j].values.len() != n {
            assert(tuple_views(t@)[j as int] == pair_views(t@[j as int].values@));
            assert(tuple_views(t@)[0] == pair_views(t@[0].values@));
            return false;
        }
        j = j + 1;
    }
    proof {
        lemma_well_shaped(t@, n as nat);
    }
    true
}

/// Proves knowledge of `secret` with `y_i = secret * x_i` for every pair of
/// tuple `hidden_index`.
pub fn create_zkplmt(tuples: &[VectorTuple], hidden_index: usize, secret: Scalar) -> (p: Proof)
    requires
        well_shaped(tuple_views(tuples@)),
        hidden_index < tuples@.len(),
    ensures
        made_for(tuple_views(tuples@), hidden_index as int, secret.value(), p.cs(), p.ds()),
{
    let m = tuples.len();
    let r = Scalar::random();
    let mut c: Vec<Scalar> = Vec::new();
    let mut d: Vec<Scalar> = Vec::new();
    let mut j: usize = 0;
    while j < m
        invariant
            m == tuples@.len(),
            hidden_index < m,
            j <= m,
            c@.len() == j,
            d@.len() == j,
            j > hidden_index ==> d@[hidden_index as int].value() == 0,
        decreases m - j,
    {
        if j == hidden_index {
            c.push(Scalar::zero());
            d.push(Scalar::zero());
        } else {
            c.push(Scalar::random());
            d.push(Scalar::random());
        }
        j = j + 1;
    }
    let sum = sum_scalars(d.as_slice());
    let mut buf: Vec<u8> = Vec::new();
    push_commitments(&mut buf, tuples, &c, &d, Some(hidden_index), &r);
    let n_ls = buf.len();
    push_zeros(&mut buf, n_ls);
    push_tuples(&mut buf, tuples);
    let h = sc_hash_sha512(buf.as_slice());
    let ghost c0 = c@;
    let ghost d0 = d@;
    let dh = sc_sub(h, sum);
    d[hidden_index] = dh;
    let ch = sc_sub(r, sc_mul(dh, secret));
    c[hidden_index] = ch;
    proof {
        let hi = hidden_index as int;
        let tv = tuple_views(tuples@);
        let rows0 = commitment_rows(tv, c0, d0, hi, r.value());
        let rows1 = commitment_rows(tv, c@, d@, hi, r.value());
        assert forall|j: int| 0 <= j < rows0.len() implies #[trigger] rows0[j] == rows1[j] by {
            if j != hi {
                assert(c@[j] == c0[j]);
                assert(d@[j] == d0[j]);
            } else {
                assert(row_commitments(tv[j], c0[j].value(), d0[j].value(), Some(r.value()))
                    =~= row_commitments(tv[j], c@[j].value(), d@[j].value(), Some(r.value())));
            }
        }
        assert(rows0 =~= rows1);
        assert(d@ == d0.update(hi, dh));
        lemma_sum_values_update(d0, hi, dh);
        vstd::arithmetic::div_mod::lemma_mod_bound(sum_values(d0), ell() as int);
        lemma_mod_complete(sum_values(d0), h.value() as int, ell() as int);
        assert(sum_values(d@) % (ell() as int) == h.value());
        vstd::arithmetic::div_mod::lemma_mod_bound(r.value() - d@[hi].value() * secret.value(), ell() as int);
        assert(ch.value() == (r.value() - (dh.value() * secret.value()) % ell()) % (ell() as int));
        vstd::arithmetic::div_mod::lemma_sub_mod_noop_right(
            r.value() as int,
            (dh.value() * secret.value()) as int,
            ell() as int,
        );
        assert(c@[hi].value() == (r.value() - d@[hi].value() * secret.value()) % (ell() as int));
        assert(challenge(tv, c@, d@, hi, r.value()) == sum_values(d@) % (ell() as int));
    }
    Proof { c, d }
}

/// Checks a proof against the tuples.
pub fn verify_zkplmt(tuples: &[VectorTuple], proof: &Proof) -> (r: bool)
    ensures
        r == accepts(tuple_views(tuples@), proof.cs(), proof.ds()),
{
    if !check_shape(tuples) {
        return false;
    }
    if proof.c.len() != tuples.len() || proof.d.len() != tuples.len() {
        return false;
    }
    let mut buf: Vec<u8> = Vec::new();
    let zero = Scalar::zero();
    push_commitments(&mut buf, tuples, &proof.c, &proof.d, None, &zero);
    let n_ls = buf.len();
    push_zeros(&mut buf, n_ls);
    push_tuples(&mut buf, tuples);
    let h = sc_hash_sha512(buf.as_slice());
    let sum = sum_scalars(proof.d.as_slice());
    h.equals(&sum)
}

/// Shuffles the tuples, of which the first must be the one whose relation
/// `secret` satisfies, and proves knowledge of it at its new place.
pub fn create_zkplmt_shuffle(tuples: &mut [VectorTuple], secret: Scalar) -> (p: Proof)
    requires
        well_shaped(tuple_views(old(tuples)@)),
    ensures
        exists|perm: Seq<int>, k: int|
            {
                &&& is_permutation(perm, old(tuples)@.len() as int)
                &&& permuted(final(tuples)@, old(tuples)@, perm)
                &&& 0 <= k < old(tuples)@.len()
                &&& perm[k] == 0
                &&& made_for(tuple_views(final(tuples)@), k, secret.value(), p.cs(), p.ds())
            },
{
    let ghost t0 = tuples@;
    let hidden_index = shuffle(tuples);
    let ghost perm = choose|perm: Seq<int>|
        {
            &&& is_permutation(perm, t0.len() as int)
            &&& permuted(tuples@, t0, perm)
            &&& perm[hidden_index as int] == 0
        };
    proof {
        let n = tuple_views(t0)[0].len();
        assert forall|j: int| 0 <= j < tuples@.len() implies (#[trigger] tuples@[j]).values@.len() == n by {
            assert(tuples@[j] == t0[perm[j]]);
            assert(tuple_views(t0)[perm[j]] == pair_views(t0[perm[j]].values@));
            assert(tuple_views(t0)[0] == pair_views(t0[0].values@));
        }
        lemma_well_shaped(tuples@, n);
    }
    create_zkplmt(tuples, hidden_index, secret)
}

/// Completeness, given linearity: a proof made for tuple `hidden` with a
/// secret `s` such that `y_i = s * x_i` for each pair of that tuple is
/// accepted, provided that for each such pair the curve computes
/// `c * x_i + d * (s * x_i)` as `((c + d * s) mod ell) * x_i`.
pub proof fn lemma_zkplmt_complete_given_linearity(
    t: Seq<Seq<(Seq<u8>, Seq<u8>)>>,
    hidden: int,
    s: nat,
    c: Seq<Scalar>,
    d: Seq<Scalar>,
)
    requires
        well_shaped(t),
        0 <= hidden < t.len(),
        made_for(t, hidden, s, c, d),
        forall|i: int| 0 <= i < t[hidden].len() ==> (#[trigger] t[hidden][i]).1 == edwards_mul(s, t[hidden][i].0),
        forall|a: nat, b: nat, i: int|
            0 <= i < t[hidden].len() ==> #[trigger] lin2(a, t[hidden][i].0, b, edwards_mul(s, t[hidden][i].0))
                == edwards_mul((a + b * s) % ell(), t[hidden][i].0),
    ensures
        accepts(t, c, d),
{
    let r = choose|r: nat|
        {
            &&& r < ell()
            &&& c[hidden].value() == (r - d[hidden].value() * s) % (ell() as int)
            &&& challenge(t, c, d, hidden, r) == sum_values(d) % (ell() as int)
        };
    let ch = c[hidden].value();
    let dh = d[hidden].value();
    assert((ch + dh * s) % ell() == r) by {
        vstd::arithmetic::div_mod::lemma_add_mod_noop(r - dh * s, (dh * s) as int, ell() as int);
        vstd::arithmetic::div_mod::lemma_mod_twice(r - dh * s, ell() as int);
        vstd::arithmetic::div_mod::lemma_add_mod_noop(ch as int, (dh * s) as int, ell() as int);
        vstd::arithmetic::div_mod::lemma_small_mod(r, ell());
        vstd::arithmetic::div_mod::lemma_mod_bound(r - dh * s, ell() as int);
    }
    let v = t[hidden];
    assert(row_commitments(v, ch, dh, None) =~= row_commitments(v, ch, dh, Some(r))) by {
        assert forall|i: int| 0 <= i < v.len() implies row_commitments(v, ch, dh, None)[i]
            == row_commitments(v, ch, dh, Some(r))[i] by {
            assert(v[i] == t[hidden][i]);
            assert(lin2(ch, v[i].0, dh, edwards_mul(s, v[i].0)) == edwards_mul((ch + dh * s) % ell(), v[i].0));
        }
    }
    let rows_v = commitment_rows(t, c, d, -1, 0);
    let rows_p = commitment_rows(t, c, d, hidden, r);
    assert(rows_v =~= rows_p);
    assert(commitments_bytes(t, c, d, -1, 0) == commitments_bytes(t, c, d, hidden, r));
}

} // verus!
