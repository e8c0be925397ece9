//! Sorting a sequence of tags while applying the same moves to a second
//! sequence, and shuffling by sorting fresh random tags.
use vstd::prelude::*;
use rand_core::OsRng;
use rand_core::RngCore;

verus! {

/// `p` is a permutation of `0..n`.
pub open spec fn is_permutation(p: Seq<int>, n: int) -> bool {
    &&& p.len() == n
    &&& forall|k: int| 0 <= k < n ==> 0 <= #[trigger] p[k] < n
    &&& forall|a: int, b: int| 0 <= a < n && 0 <= b < n && a != b ==> p[a] != p[b]
}

/// `after` holds the items of `before` in the order that `p` gives.
pub open spec fn permuted<T>(after: Seq<T>, before: Seq<T>, p: Seq<int>) -> bool {
    &&& after.len() == before.len()
    &&& forall|k: int| 0 <= k < after.len() ==> after[k] == before[#[trigger] p[k]]
}

pub open spec fn sorted(s: Seq<u32>) -> bool {
    forall|a: int, b: int| 0 <= a < b < s.len() ==> s[a] <= s[b]
}

/// Items with equal keys keep the order they had before.
pub open spec fn stable(s: Seq<u32>, p: Seq<int>) -> bool {
    forall|a: int, b: int| 0 <= a < b < s.len() && s[a] == s[b] ==> p[a] < p[b]
}

/// Relies on `<[T]>::swap`: the two items exchange places.
#[verifier::external_body]
fn swap_items<T>(s: &mut [T], i: usize, j: usize)
    requires
        i < old(s)@.len(),
        j < old(s)@.len(),
    ensures
        final(s)@ == old(s)@.update(i as int, old(s)@[j as int]).update(j as int, old(s)@[i as int]),
{
    s.swap(i, j)
}

/// Sorts `input` in place, stably, making the same moves in `conjugate`,
/// and returns the position to which the first item of `input` moved.
pub fn joint_quicksort<T>(input: &mut [u32], conjugate: &mut [T]) -> (r: usize)
    requires
        old(input)@.len() == old(conjugate)@.len(),
        old(input)@.len() > 0,
    ensures
        r < old(input)@.len(),
        sorted(final(input)@),
        exists|p: Seq<int>|
            {
                &&& is_permutation(p, old(input)@.len() as int)
                &&& permuted(final(input)@, old(input)@, p)
                &&& permuted(final(conjugate)@, old(conjugate)@, p)
                &&& stable(final(input)@, p)
                &&& p[r as int] == 0
            },
{
    let n = input.len();
    let ghost in0 = input@;
    let ghost cj0 = conjugate@;
    let ghost mut p: Seq<int> = Seq::new(n as nat, |k: int| k);
    let mut first: usize = 0;
    let mut i: usize = 1;
    while i < n
        invariant
            n == input@.len(),
            n == conjugate@.len(),
            in0.len() == n,
            cj0.len() == n,
            1 <= i <= n,
            first < n,
            is_permutation(p, n as int),
            permuted(input@, in0, p),
            permuted(conjugate@, cj0, p),
            p[first as int] == 0,
            sorted(input@.take(i as int)),
            stable(input@.take(i as int), p),
            forall|k: int| i <= k < n ==> p[k] == k,
        decreases n - i,
    {
        proof {
            assert forall|a: int| 0 <= a <= i implies #[trigger] p[a] <= i by {
                if p[a] > i {
                    assert(p[p[a]] == p[a]);
                }
            }
            assert forall|a: int, b: int| 0 <= a < b < i implies #[trigger] input@[a] <= #[trigger] input@[b] by {
                assert(input@.take(i as int)[a] == input@[a]);
                assert(input@.take(i as int)[b] == input@[b]);
            }
            assert forall|a: int, b: int| 0 <= a < b < i && input@[a] == input@[b] implies #[trigger] p[a] < #[trigger] p[b] by {
                assert(input@.take(i as int)[a] == input@[a]);
                assert(input@.take(i as int)[b] == input@[b]);
            }
        }
        let mut j: usize = i;
        while j > 0 && input[j - 1] > input[j]
            invariant
                n == input@.len(),
                n == conjugate@.len(),
                in0.len() == n,
                cj0.len() == n,
                1 <= i < n,
                0 <= j <= i,
                first < n,
                is_permutation(p, n as int),
                permuted(input@, in0, p),
                permuted(conjugate@, cj0, p),
                p[first as int] == 0,
                // the prefix without position j is sorted and stable
                forall|a: int, b: int|
                    0 <= a < b <= i && a != j && b != j ==> input@[a] <= input@[b],
                forall|a: int, b: int|
                    0 <= a < b <= i && a != j && b != j && input@[a] == input@[b] ==> p[a] < p[b],
                // the moving item is smaller than everything after it
                forall|b: int| j < b <= i ==> input@[j as int] < input@[b],
                // and came after everything after it
                forall|a: int| 0 <= a <= i ==> #[trigger] p[a] <= i,
                forall|k: int| i < k < n ==> p[k] == k,
                p[j as int] == i,
            decreases j,
        {
            let ghost pre_in = input@;
            let ghost pre_p = p;
            swap_items(input, j - 1, j);
            swap_items(conjugate, j - 1, j);
            proof {
                p = p.update(j - 1, pre_p[j as int]).update(j as int, pre_p[j - 1]);
            }
            if first == j - 1 {
                first = j;
            } else if first == j {
                first = j - 1;
            }
            j = j - 1;
            proof {
                assert forall|a: int, b: int|
                    0 <= a < n && 0 <= b < n && a != b implies #[trigger] p[a] != #[trigger] p[b] by {
                    assert(pre_p[a] != pre_p[b] || a == b);
                }
            }
        }
        proof {
            assert forall|a: int, b: int| 0 <= a < b < i + 1 implies #[trigger] input@[a] <= #[trigger] input@[b] by {
                if b == j && a < j - 1 {
                    assert(input@[a] <= input@[j - 1]);
                }
            }
            assert forall|a: int, b: int|
                0 <= a < b < i + 1 && input@[a] == input@[b] implies #[trigger] p[a] < #[trigger] p[b] by {
                if b == j {
                    assert(p[a] <= i);
                    if a < j - 1 {
                        assert(input@[a] <= input@[j - 1]);
                    }
                }
            }
            assert(sorted(input@.take(i + 1)));
            assert(stable(input@.take(i + 1), p));
        }
        i = i + 1;
    }
    assert(input@.take(n as int) =~= input@);
    first
}

/// Puts the items in a random order and returns the position to which the
/// first item moved.
pub fn shuffle<T>(input: &mut [T]) -> (r: usize)
    requires
        old(input)@.len() > 0,
    ensures
        r < old(input)@.len(),
        exists|p: Seq<int>|
            {
                &&& is_permutation(p, old(input)@.len() as int)
                &&& permuted(final(input)@, old(input)@, p)
                &&& p[r as int] == 0
            },
{
    let mut tags: Vec<u32> = Vec::new();
    let mut i: usize = 0;
    while i < input.len()
        invariant
            tags@.len() == i,
            i <= input@.len(),
        decreases input@.len() - i,
    {
        tags.push(random_u32());
        i = i + 1;
    }
    joint_quicksort(tags.as_mut_slice(), input)
}

/// Relies on `RngCore::next_u32` of the operating system's generator.
#[verifier::external_body]
fn random_u32() -> u32 {
    OsRng.next_u32()
}

/// A vector holding the items of a slice.
pub fn to_vec<T: Copy>(s: &[T]) -> (r: Vec<T>)
    ensures
        r@ == s@,
{
    let mut r: Vec<T> = Vec::new();
    let mut i: usize = 0;
    while i < s.len()
        invariant
            i <= s@.len(),
            r@ == s@.take(i as int),
        decreases s@.len() - i,
    {
        r.push(s[i]);
        assert(r@ =~= s@.take(i as int + 1));
        i = i + 1;
    }
    assert(s@.take(s@.len() as int) =~= s@);
    r
}

/// Copies `source` to the front of `target`.
pub fn copy<T: Copy>(target: &mut [T], source: &[T])
    requires
        old(target)@.len() >= source@.len(),
    ensures
        final(target)@.len() == old(target)@.len(),
        forall|k: int| 0 <= k < source@.len() ==> final(target)@[k] == source@[k],
        forall|k: int| source@.len() <= k < old(target)@.len() ==> final(target)@[k] == old(target)@[k],
{
    let mut i: usize = 0;
    while i < source.len()
        invariant
            target@.len() == old(target)@.len(),
            target@.len() >= source@.len(),
            i <= source@.len(),
            forall|k: int| 0 <= k < i ==> target@[k] == source@[k],
            forall|k: int| i <= k < target@.len() ==> target@[k] == old(target)@[k],
        decreases source@.len() - i,
    {
        target[i] = source[i];
        i = i + 1;
    }
}

} // verus!
