//! Generator sets derived deterministically from two initial points.
use vstd::prelude::*;
use crate::point::{Point, edwards_mul, hash_scalar, get_hash, point_mul, encodings};

verus! {

/// The number of bits that a range proof covers per value.
pub const RANGE_SIZE: usize = 64;

/// The `i`-th pair of generators derived from `(g, h)`: each step maps the
/// pair `(g, h)` to `(H(g || h) * g, H(h || g) * h)`.
pub open spec fn derived_pair(g: Seq<u8>, h: Seq<u8>, i: nat) -> (Seq<u8>, Seq<u8>)
    decreases i,
{
    let prev = if i == 0 {
        (g, h)
    } else {
        derived_pair(g, h, (i - 1) as nat)
    };
    (
        edwards_mul(hash_scalar(prev.0 + prev.1), prev.0),
        edwards_mul(hash_scalar(prev.1 + prev.0), prev.1),
    )
}

/// A generator set `(G_0, H_0, G[], H[])`.
#[derive(Clone, Debug)]
#[allow(non_snake_case)]
pub struct Bases {
    pub GInit: Point,
    pub HInit: Point,
    pub Gs: Vec<Point>,
    pub Hs: Vec<Point>,
}

impl Bases {
    #[allow(non_snake_case)]
    pub open spec fn g0(&self) -> Point {
        self.GInit
    }

    #[allow(non_snake_case)]
    pub open spec fn h0(&self) -> Point {
        self.HInit
    }

    pub open spec fn gs(&self) -> Seq<Point> {
        self.Gs@
    }

    pub open spec fn hs(&self) -> Seq<Point> {
        self.Hs@
    }

    /// The set derived from `(g, h)` with `n` generators in each vector.
    pub open spec fn derived_from(&self, g: Seq<u8>, h: Seq<u8>, n: nat) -> bool {
        &&& self.g0()@ == g
        &&& self.h0()@ == h
        &&& self.gs().len() == n
        &&& self.hs().len() == n
        &&& forall|i: int| 0 <= i < n ==> (#[trigger] self.gs()[i])@ == derived_pair(g, h, i as nat).0
        &&& forall|i: int| 0 <= i < n ==> (#[trigger] self.hs()[i])@ == derived_pair(g, h, i as nat).1
    }

    /// Derives `RANGE_SIZE * max_len` generators in each vector; `None`
    /// where `max_len` is zero.
    #[allow(non_snake_case)]
    pub fn new(GInit: Point, HInit: Point, max_len: usize) -> (r: Option<Bases>)
        requires
            max_len <= usize::MAX / 64,
        ensures
            r is None <==> max_len == 0,
            r is Some ==> r->0.derived_from(GInit@, HInit@, (RANGE_SIZE * max_len) as nat),
    {
        if max_len == 0 {
            return None;
        }
        let n = RANGE_SIZE * max_len;
        let mut g = GInit;
        let mut h = HInit;
        let mut gs: Vec<Point> = Vec::new();
        let mut hs: Vec<Point> = Vec::new();
        let mut i: usize = 0;
        while i < n
            invariant
                i <= n,
                gs@.len() == i,
                hs@.len() == i,
                i == 0 ==> g@ == GInit@ && h@ == HInit@,
                i > 0 ==> g@ == derived_pair(GInit@, HInit@, (i - 1) as nat).0 && h@ == derived_pair(GInit@, HInit@, (i - 1) as nat).1,
                forall|k: int| 0 <= k < i ==> (#[trigger] gs@[k])@ == derived_pair(GInit@, HInit@, k as nat).0,
                forall|k: int| 0 <= k < i ==> (#[trigger] hs@[k])@ == derived_pair(GInit@, HInit@, k as nat).1,
            decreases n - i,
        {
            let eg = get_hash(&g, &h);
            let eh = get_hash(&h, &g);
            let ng = point_mul(&eg, &g);
            let nh = point_mul(&eh, &h);
            gs.push(ng);
            hs.push(nh);
            g = ng;
            h = nh;
            i = i + 1;
        }
        Some(Bases { GInit, HInit, Gs: gs, Hs: hs })
    }

    #[allow(non_snake_case)]
    pub fn g_init(&self) -> (r: Point)
        ensures
            r == self.g0(),
    {
        self.GInit
    }

    #[allow(non_snake_case)]
    pub fn h_init(&self) -> (r: Point)
        ensures
            r == self.h0(),
    {
        self.HInit
    }

    pub fn len(&self) -> (r: usize)
        ensures
            r == self.gs().len(),
    {
        self.Gs.len()
    }

    pub fn h_len(&self) -> (r: usize)
        ensures
            r == self.hs().len(),
    {
        self.Hs.len()
    }

    pub fn g_at(&self, i: usize) -> (r: Point)
        requires
            i < self.gs().len(),
        ensures
            r == self.gs()[i as int],
    {
        self.Gs[i]
    }

    pub fn h_at(&self, i: usize) -> (r: Point)
        requires
            i < self.hs().len(),
        ensures
            r == self.hs()[i as int],
    {
        self.Hs[i]
    }

    /// The first `n` generators of each vector.
    pub fn prefixes(&self, n: usize) -> (r: (Vec<Point>, Vec<Point>))
        requires
            n <= self.gs().len(),
            n <= self.hs().len(),
        ensures
            r.0@ == self.gs().take(n as int),
            r.1@ == self.hs().take(n as int),
    {
        let mut g: Vec<Point> = Vec::new();
        let mut h: Vec<Point> = Vec::new();
        let mut i: usize = 0;
        while i < n
            invariant
                i <= n,
                n <= self.Gs@.len(),
                n <= self.Hs@.len(),
                g@ == self.Gs@.take(i as int),
                h@ == self.Hs@.take(i as int),
            decreases n - i,
        {
            g.push(self.Gs[i]);
            h.push(self.Hs[i]);
            assert(g@ =~= self.Gs@.take(i as int + 1));
            assert(h@ =~= self.Hs@.take(i as int + 1));
            i = i + 1;
        }
        (g, h)
    }
}

/// Two generator sets derived from the same initial points and size hold
/// the same generators: derivation depends on its arguments alone.
pub proof fn lemma_bases_deterministic(a: Bases, b: Bases, g: Seq<u8>, h: Seq<u8>, n: nat)
    requires
        a.derived_from(g, h, n),
        b.derived_from(g, h, n),
    ensures
        a.g0()@ == b.g0()@,
        a.h0()@ == b.h0()@,
        encodings(a.gs()) == encodings(b.gs()),
        encodings(a.hs()) == encodings(b.hs()),
{
    assert(encodings(a.gs()) =~= encodings(b.gs()));
    assert(encodings(a.hs()) =~= encodings(b.hs()));
}

} // verus!
