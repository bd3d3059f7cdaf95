use vstd::prelude::*;
use rand::rngs::ThreadRng;
use rand::seq::SliceRandom;

verus! {

broadcast use vstd::seq_lib::group_to_multiset_ensures;

/// The thread-local random number generator of `rand`.
#[verifier::external_type_specification]
#[verifier::external_body]
pub struct ExThreadRng(ThreadRng);

/// Calls `rand::rng()`, which hands out a handle to the thread-local
/// generator. Nothing is promised of the handle. `rand` documents that the
/// call panics when the operating system's random source fails while the
/// generator is first seeded; no input of the call decides that.
#[verifier::external_body]
fn thread_rng() -> ThreadRng {
    rand::rng()
}

/// Calls `SliceRandom::shuffle` of `rand` on the vector. Whatever the random
/// outcome, the vector afterwards holds the same elements, each as often as
/// before, in some order (the source swaps elements in place).
#[verifier::external_body]
fn shuffle_in_place(v: &mut Vec<usize>, rng: &mut ThreadRng)
    ensures
        final(v)@.len() == old(v)@.len(),
        final(v)@.to_multiset() == old(v)@.to_multiset(),
{
    v.shuffle(rng);
}

/// `s` holds each of `0..n` exactly once.
pub open spec fn is_permutation_of_range(s: Seq<usize>, n: nat) -> bool {
    &&& s.len() == n
    &&& s.no_duplicates()
    &&& forall|k: int| 0 <= k < s.len() ==> (#[trigger] s[k]) < n
}

/// The indices `0..n` in a random order.
pub fn shuffled_range(n: usize) -> (r: Vec<usize>)
    ensures
        is_permutation_of_range(r@, n as nat),
        forall|i: usize| i < n ==> r@.contains(i),
{
    let mut v: Vec<usize> = Vec::with_capacity(n);
    let mut i: usize = 0;
    while i < n
        invariant
            i <= n,
            v@.len() == i,
            forall|k: int| 0 <= k < i ==> #[trigger] v@[k] == k as usize,
        decreases n - i,
    {
        v.push(i);
        i = i + 1;
    }
    let ghost before = v@;
    assert(before.no_duplicates());
    let mut rng = thread_rng();
    shuffle_in_place(&mut v, &mut rng);
    proof {
        before.lemma_multiset_has_no_duplicates();
        assert forall|x: usize| v@.to_multiset().contains(x) implies v@.to_multiset().count(x) == 1 by {}
        v@.lemma_multiset_has_no_duplicates_conv();
        assert forall|k: int| 0 <= k < v@.len() implies (#[trigger] v@[k]) < n by {
            assert(v@.contains(v@[k]));
            assert(before.to_multiset().count(v@[k]) > 0);
            assert(before.contains(v@[k]));
        }
        assert forall|x: usize| x < n implies v@.contains(x) by {
            assert(before[x as int] == x);
            assert(before.contains(x));
            assert(v@.to_multiset().count(x) > 0);
        }
    }
    v
}

/// The neurons that neuron sampling keeps in a training pass over a layer
/// of `n` neurons: `keep` of them (all of them when `keep >= n`), distinct,
/// drawn at random.
pub fn sampling_mask(n: usize, keep: usize) -> (r: Vec<usize>)
    ensures
        r@.len() == if keep < n { keep as nat } else { n as nat },
        r@.no_duplicates(),
        forall|k: int| 0 <= k < r@.len() ==> (#[trigger] r@[k]) < n,
{
    let mut v = shuffled_range(n);
    let ghost full = v@;
    v.truncate(keep);
    proof {
        assert forall|k: int| 0 <= k < v@.len() implies (#[trigger] v@[k]) < n by {
            assert(v@[k] == full[k]);
        }
        assert forall|a: int, b: int| 0 <= a < v@.len() && 0 <= b < v@.len() && a != b implies v@[a] != v@[b] by {
            assert(v@[a] == full[a]);
            assert(v@[b] == full[b]);
        }
    }
    v
}

/// For each index below `n`, whether `mask` lists it.
pub fn mask_gate(mask: &Vec<usize>, n: usize) -> (g: Vec<bool>)
    ensures
        g@.len() == n,
        forall|i: int| 0 <= i < n ==> #[trigger] g@[i] == mask@.contains(i as usize),
{
    let mut g: Vec<bool> = Vec::with_capacity(n);
    let mut i: usize = 0;
    while i < n
        invariant
            i <= n,
            g@.len() == i,
            forall|k: int| 0 <= k < i ==> #[trigger] g@[k] == mask@.contains(k as usize),
        decreases n - i,
    {
        let mut found = false;
        let mut j: usize = 0;
        while j < mask.len()
            invariant
                j <= mask@.len(),
                found == exists|q: int| 0 <= q < j && mask@[q] == i,
            decreases mask@.len() - j,
        {
            if mask[j] == i {
                found = true;
            }
            j = j + 1;
        }
        g.push(found);
        i = i + 1;
    }
    g
}

/// Batch `k` of `r` starts where batch `k - 1` ends.
pub open spec fn starts_after_previous(r: Seq<(usize, usize)>, k: int) -> bool {
    r[k].0 == r[k - 1].1
}

/// The outputs of a layer after a mask is applied: the value of each listed
/// neuron passed through `f` (its rescaling), every other value `zero`.
pub fn masked_outputs<W: Copy, F: Fn(W) -> W>(values: &Vec<W>, mask: &Vec<usize>, zero: W, f: F) -> (out: Vec<W>)
    requires
        forall|k: int| 0 <= k < mask@.len() ==> (#[trigger] mask@[k]) < values@.len(),
        forall|x: W| #[trigger] f.requires((x,)),
    ensures
        out@.len() == values@.len(),
        forall|i: int| 0 <= i < values@.len() && mask@.contains(i as usize) ==> f.ensures((values@[i],), #[trigger] out@[i]),
        forall|i: int| 0 <= i < values@.len() && !mask@.contains(i as usize) ==> #[trigger] out@[i] == zero,
{
    let n = values.len();
    let mut out = crate::layer::filled(zero, n);
    let mut k: usize = 0;
    while k < mask.len()
        invariant
            n == values@.len(),
            forall|q: int| 0 <= q < mask@.len() ==> (#[trigger] mask@[q]) < values@.len(),
            forall|x: W| #[trigger] f.requires((x,)),
            k <= mask@.len(),
            out@.len() == values@.len(),
            forall|i: int| 0 <= i < values@.len() && mask@.subrange(0, k as int).contains(i as usize) ==> f.ensures((values@[i],), #[trigger] out@[i]),
            forall|i: int| 0 <= i < values@.len() && !mask@.subrange(0, k as int).contains(i as usize) ==> #[trigger] out@[i] == zero,
        decreases mask@.len() - k,
    {
        let idx = mask[k];
        let v = f(values[idx]);
        let ghost prev = out@;
        out.set(idx, v);
        proof {
            let pre = mask@.subrange(0, k as int);
            let post = mask@.subrange(0, k + 1);
            assert(post == pre.push(idx));
            assert forall|i: int| 0 <= i < values@.len() && post.contains(i as usize) implies f.ensures((values@[i],), #[trigger] out@[i]) by {
                if i == idx as int {
                } else {
                    assert(out@[i] == prev[i]);
                    let w = choose|w: int| 0 <= w < post.len() && post[w] == i as usize;
                    assert(post[pre.len() as int] == idx);
                    assert((i as usize) as int == i);
                    assert(w < pre.len());
                    assert(pre[w] == i as usize);
                }
            }
            assert forall|i: int| 0 <= i < values@.len() && !post.contains(i as usize) implies #[trigger] out@[i] == zero by {
                assert(post[pre.len() as int] == idx);
                if i == idx as int {
                } else {
                    assert(out@[i] == prev[i]);
                    if pre.contains(i as usize) {
                        let w = choose|w: int| 0 <= w < pre.len() && pre[w] == i as usize;
                        assert(post[w] == i as usize);
                    }
                }
            }
        }
        k = k + 1;
    }
    assert(mask@.subrange(0, mask@.len() as int) == mask@);
    out
}

/// `r` lists the batches of one epoch over `n` samples taken `batch_size`
/// at a time: consecutive half-open ranges, starting at 0, each of
/// `batch_size` samples but the last, which ends at `n`.
pub open spec fn is_batch_split(r: Seq<(usize, usize)>, n: nat, batch_size: nat) -> bool {
    &&& (r.len() == 0 <==> n == 0)
    &&& r.len() > 0 ==> r[0].0 == 0 && r[r.len() - 1].1 == n
    &&& forall|k: int| 0 < k < r.len() ==> #[trigger] starts_after_previous(r, k)
    &&& forall|k: int|
        0 <= k < r.len() ==> (#[trigger] r[k]).0 < r[k].1 && r[k].1 == (if r[k].0 + batch_size
            < n { r[k].0 + batch_size } else { n as int })
}

/// The batches of one epoch over `n` samples: `[start, end)` ranges of
/// positions in the epoch's sample order, `batch_size` long but the last.
pub fn batch_ranges(n: usize, batch_size: usize) -> (r: Vec<(usize, usize)>)
    requires
        batch_size > 0,
    ensures
        is_batch_split(r@, n as nat, batch_size as nat),
{
    let mut r: Vec<(usize, usize)> = Vec::new();
    let mut start: usize = 0;
    while start < n
        invariant
            batch_size > 0,
            start <= n,
            (r@.len() == 0 <==> start == 0),
            r@.len() > 0 ==> r@[0].0 == 0 && r@[r@.len() - 1].1 == start,
            forall|k: int| 0 < k < r@.len() ==> #[trigger] starts_after_previous(r@, k),
            forall|k: int|
                0 <= k < r@.len() ==> (#[trigger] r@[k]).0 < r@[k].1 && r@[k].1 == (if r@[k].0
                    + batch_size < n { r@[k].0 + batch_size } else { n as int }),
        decreases n - start,
    {
        let end = if n - start > batch_size {
            start + batch_size
        } else {
            n
        };
        let ghost prev = r@;
        r.push((start, end));
        proof {
            assert forall|k: int| 0 < k < r@.len() implies #[trigger] starts_after_previous(r@, k) by {
                if k < prev.len() {
                    assert(starts_after_previous(prev, k));
                }
            }
        }
        start = end;
    }
    r
}

/// Whether training reports its progress after epoch `epoch` of `epochs`:
/// when reporting is asked for, every tenth epoch and after the last one.
pub fn report_due(verbose: bool, epoch: usize, epochs: usize) -> (r: bool)
    requires
        epoch < epochs,
    ensures
        r == (verbose && (epoch % 10 == 0 || epoch == epochs - 1)),
{
    verbose && (epoch % 10 == 0 || epoch == epochs - 1)
}

} // verus!
