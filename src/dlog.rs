//! Recovery of small discrete logarithms by the auditing party, by
//! baby-step giant-step over a table bucketed by 20 bits of the encoding.
use vstd::prelude::*;
use vstd::arithmetic::power2::pow2;
use crate::point::{Point, edwards_add, edwards_sub, identity_encoding, point_add, point_sub};

verus! {

/// The number of buckets of the table.
pub const BUCKETS: usize = 1048576;

/// The bucket of an encoding: the low four bits of byte 29 and bytes 30
/// and 31.
pub open spec fn bucket_of(b: Seq<u8>) -> int {
    (b[29] % 16) as int * 65536 + b[30] as int * 256 + b[31] as int
}

/// The encoding of `j * g`, as `j` additions of `g` to the identity.
pub open spec fn iter_add(g: Seq<u8>, j: nat) -> Seq<u8>
    decreases j,
{
    if j == 0 {
        identity_encoding()
    } else {
        edwards_add(iter_add(g, (j - 1) as nat), g)
    }
}

/// The encoding of `h - i * v`, as `i` subtractions of `v` from `h`.
pub open spec fn iter_sub(h: Seq<u8>, v: Seq<u8>, i: nat) -> Seq<u8>
    decreases i,
{
    if i == 0 {
        h
    } else {
        edwards_sub(iter_sub(h, v, (i - 1) as nat), v)
    }
}

/// A table from point encodings to integers.
pub struct DLTable {
    pub array: Vec<Vec<([u8; 32], u64)>>,
}

impl DLTable {
    pub open spec fn wf(&self) -> bool {
        &&& self.array@.len() == BUCKETS
        &&& forall|b: int, k: int|
            0 <= b < BUCKETS && 0 <= k < self.array@[b]@.len() ==> bucket_of(
                (#[trigger] self.array@[b]@[k]).0@,
            ) == b
    }

    /// The table maps `e` to `v`.
    pub open spec fn holds(&self, e: Seq<u8>, v: u64) -> bool {
        exists|b: int, k: int|
            0 <= b < self.array@.len() && 0 <= k < self.array@[b]@.len() && (#[trigger] self.array@[b]@[k]).0@
                == e && self.array@[b]@[k].1 == v
    }

    pub fn new() -> (r: DLTable)
        ensures
            r.wf(),
            forall|e: Seq<u8>, v: u64| !r.holds(e, v),
    {
        let mut list: Vec<Vec<([u8; 32], u64)>> = Vec::new();
        let mut i: usize = 0;
        while i < BUCKETS
            invariant
                i <= BUCKETS,
                list@.len() == i,
                forall|b: int| 0 <= b < i ==> (#[trigger] list@[b])@.len() == 0,
            decreases BUCKETS - i,
        {
            list.push(Vec::new());
            i = i + 1;
        }
        DLTable { array: list }
    }

    fn index(b: &[u8; 32]) -> (r: usize)
        ensures
            r == bucket_of(b@),
            r < BUCKETS,
    {
        (b[29] % 16) as usize * 65536 + (b[30] as usize) * 256 + (b[31] as usize)
    }

    #[allow(non_snake_case)]
    pub fn insert(&mut self, V: &Point, i: u64)
        requires
            old(self).wf(),
        ensures
            final(self).wf(),
            forall|e: Seq<u8>, v: u64|
                final(self).holds(e, v) <==> (old(self).holds(e, v) || (e == V@ && v == i)),
    {
        let b = V.to_bytes();
        let index = DLTable::index(&b);
        let mut bucket = crate::sort::to_vec(self.array[index].as_slice());
        bucket.push((b, i));
        let ghost old_array = self.array@;
        self.array.set(index, bucket);
        proof {
            let idx = index as int;
            assert forall|e: Seq<u8>, v: u64|
                self.holds(e, v) <==> (old(self).holds(e, v) || (e == V@ && v == i)) by {
                if self.holds(e, v) {
                    let (bb, kk) = choose|bb: int, kk: int|
                        0 <= bb < self.array@.len() && 0 <= kk < self.array@[bb]@.len() && (#[trigger] self.array@[bb]@[kk]).0@
                            == e && self.array@[bb]@[kk].1 == v;
                    if bb != idx || kk < old_array[idx]@.len() {
                        assert(old_array[bb]@[kk] == self.array@[bb]@[kk]);
                    }
                }
                if old(self).holds(e, v) {
                    let (bb, kk) = choose|bb: int, kk: int|
                        0 <= bb < old_array.len() && 0 <= kk < old_array[bb]@.len() && (#[trigger] old_array[bb]@[kk]).0@
                            == e && old_array[bb]@[kk].1 == v;
                    assert(self.array@[bb]@[kk] == old_array[bb]@[kk]);
                }
                if e == V@ && v == i {
                    let kk = old_array[idx]@.len() as int;
                    assert(self.array@[idx]@[kk] == (b, i));
                }
            }
        }
    }

    #[allow(non_snake_case)]
    pub fn get(&self, V: &Point) -> (r: Option<u64>)
        requires
            self.wf(),
        ensures
            r matches Some(j) ==> self.holds(V@, j),
            r is None ==> forall|j: u64| !self.holds(V@, j),
    {
        let b = V.to_bytes();
        let index = DLTable::index(&b);
        let list = &self.array[index];
        let mut k: usize = 0;
        while k < list.len()
            invariant
                self.wf(),
                index == bucket_of(b@),
                b@ == V@,
                list@ == self.array@[index as int]@,
                k <= list@.len(),
                forall|q: int| 0 <= q < k ==> (#[trigger] list@[q]).0@ != V@,
            decreases list@.len() - k,
        {
            let entry = list[k];
            if bytes_equal(&entry.0, &b) {
                return Some(entry.1);
            }
            k = k + 1;
        }
        proof {
            assert forall|j: u64| !self.holds(V@, j) by {
                if self.holds(V@, j) {
                    let (bb, kk) = choose|bb: int, kk: int|
                        0 <= bb < self.array@.len() && 0 <= kk < self.array@[bb]@.len() && (#[trigger] self.array@[bb]@[kk]).0@
                            == V@ && self.array@[bb]@[kk].1 == j;
                    assert(bucket_of(self.array@[bb]@[kk].0@) == bb);
                }
            }
        }
        None
    }
}

fn bytes_equal(a: &[u8; 32], b: &[u8; 32]) -> (r: bool)
    ensures
        r == (a@ == b@),
{
    let mut i: usize = 0;
    while i < 32
        invariant
            i <= 32,
            forall|k: int| 0 <= k < i ==> a@[k] == b@[k],
        decreases 32 - i,
    {
        if a[i] != b[i] {
            return false;
        }
        i = i + 1;
    }
    assert(a@ =~= b@);
    true
}

/// `H - i * (2^n G) = j G` with `i, j < 2^n`, by encodings.
pub open spec fn dlog_hit(g: Seq<u8>, h: Seq<u8>, n: nat, i: nat, j: nat) -> bool {
    &&& i < pow2(n)
    &&& j < pow2(n)
    &&& iter_sub(h, iter_add(g, pow2(n)), i) == iter_add(g, j)
}

/// The result of `discrete_log_2n_bit`: `i * 2^n + j` for a hit whose `i`
/// is least, or zero where there is no hit.
pub open spec fn dlog_result(g: Seq<u8>, h: Seq<u8>, n: nat, r: nat) -> bool {
    if exists|i: nat, j: nat| #[trigger] dlog_hit(g, h, n, i, j) {
        exists|i: nat, j: nat|
            {
                &&& #[trigger] dlog_hit(g, h, n, i, j)
                &&& r == i * pow2(n) + j
                &&& forall|i2: nat, j2: nat| i2 < i ==> !#[trigger] dlog_hit(g, h, n, i2, j2)
            }
    } else {
        r == 0
    }
}

/// Finds `x < 2^(2n)` with `H = x * G`, written `x = i * 2^n + j` where
/// `H - i * (2^n * G) = j * G` and `i` is least; zero where there is none.
#[allow(non_snake_case)]
pub fn discrete_log_2n_bit(n: u64, G: Point, H: Point) -> (r: u64)
    requires
        n <= 32,
    ensures
        dlog_result(G@, H@, n as nat, r as nat),
{
    let mut two_to_the_n: u64 = 1;
    let mut t: u64 = 0;
    proof {
        vstd::arithmetic::power2::lemma2_to64();
    }
    while t < n
        invariant
            t <= n,
            n <= 32,
            two_to_the_n == pow2(t as nat),
        decreases n - t,
    {
        proof {
            vstd::arithmetic::power2::lemma_pow2_strictly_increases(t as nat, 32);
            vstd::arithmetic::power2::lemma2_to64();
            vstd::arithmetic::power2::lemma_pow2_adds(t as nat, 1);
        }
        two_to_the_n = two_to_the_n * 2;
        t = t + 1;
    }
    proof {
        if n < 32 {
            vstd::arithmetic::power2::lemma_pow2_strictly_increases(n as nat, 32);
        }
        vstd::arithmetic::power2::lemma2_to64();
    }
    let mut saved_map = DLTable::new();
    let mut V = Point::identity();
    let mut j: u64 = 0;
    while j < two_to_the_n
        invariant
            two_to_the_n == pow2(n as nat),
            two_to_the_n <= 0x1_0000_0000,
            j <= two_to_the_n,
            saved_map.wf(),
            V@ == iter_add(G@, j as nat),
            forall|e: Seq<u8>, v: u64| saved_map.holds(e, v) ==> v < j && e == iter_add(G@, v as nat),
            forall|v: u64| v < j ==> #[trigger] saved_map.holds(iter_add(G@, v as nat), v),
        decreases two_to_the_n - j,
    {
        saved_map.insert(&V, j);
        V = point_add(&V, &G);
        j = j + 1;
    }
    let mut S = H;
    let mut i: u64 = 0;
    while i < two_to_the_n
        invariant
            two_to_the_n == pow2(n as nat),
            two_to_the_n <= 0x1_0000_0000,
            i <= two_to_the_n,
            saved_map.wf(),
            V@ == iter_add(G@, pow2(n as nat)),
            S@ == iter_sub(H@, V@, i as nat),
            forall|e: Seq<u8>, v: u64| saved_map.holds(e, v) ==> v < two_to_the_n && e == iter_add(G@, v as nat),
            forall|v: u64| v < two_to_the_n ==> #[trigger] saved_map.holds(iter_add(G@, v as nat), v),
            forall|i2: nat, j2: nat| i2 < i ==> !#[trigger] dlog_hit(G@, H@, n as nat, i2, j2),
        decreases two_to_the_n - i,
    {
        match saved_map.get(&S) {
            Some(jj) => {
                proof {
                    assert(i * two_to_the_n + jj < 0x1_0000_0000 * 0x1_0000_0000) by (nonlinear_arith)
                        requires
                            i < two_to_the_n,
                            jj < two_to_the_n,
                            two_to_the_n <= 0x1_0000_0000,
                    ;
                    assert(i * two_to_the_n + jj <= (two_to_the_n - 1) * two_to_the_n + (two_to_the_n - 1)) by (nonlinear_arith)
                        requires
                            i < two_to_the_n,
                            jj < two_to_the_n,
                    ;
                    assert((two_to_the_n - 1) * two_to_the_n + (two_to_the_n - 1) < two_to_the_n * two_to_the_n) by (nonlinear_arith)
                        requires two_to_the_n >= 1;
                    assert(two_to_the_n * two_to_the_n <= 0x1_0000_0000 * 0x1_0000_0000) by (nonlinear_arith)
                        requires two_to_the_n <= 0x1_0000_0000, two_to_the_n >= 1;
                }
                let r = i * two_to_the_n + jj;
                assert(dlog_hit(G@, H@, n as nat, i as nat, jj as nat));
                return r;
            },
            None => {
                proof {
                    assert forall|j2: nat| !#[trigger] dlog_hit(G@, H@, n as nat, i as nat, j2) by {
                        if dlog_hit(G@, H@, n as nat, i as nat, j2) {
                            assert(saved_map.holds(iter_add(G@, j2), j2 as u64));
                        }
                    }
                    assert forall|i2: nat, j2: nat| i2 < i + 1 implies !#[trigger] dlog_hit(G@, H@, n as nat, i2, j2) by {
                        if i2 < i {
                        } else {
                            assert(i2 == i);
                        }
                    }
                }
                S = point_sub(&S, &V);
            },
        }
        i = i + 1;
    }
    proof {
        assert(!exists|i2: nat, j2: nat| #[trigger] dlog_hit(G@, H@, n as nat, i2, j2));
    }
    0
}

} // verus!
