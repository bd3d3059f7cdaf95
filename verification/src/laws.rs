use vstd::prelude::*;
use crate::layer::{Linear, Neuron};
use crate::network::{Network, all_flags_set};
use crate::schedule::{is_batch_split, is_permutation_of_range, starts_after_previous};

verus! {

/// Freezing a neuron that was not frozen and then unfreezing it gives back
/// the layer's neurons exactly as they were.
pub proof fn lemma_freeze_unfreeze_restores<W>(
    start: Linear<W>,
    frozen: Linear<W>,
    thawed: Linear<W>,
    idx: int,
)
    requires
        frozen.neurons_after_flag(start, idx, true),
        thawed.neurons_after_flag(frozen, idx, false),
        0 <= idx < start.neurons@.len() ==> !start.neurons@[idx].frozen,
    ensures
        thawed.neurons@ == start.neurons@,
{
    if 0 <= idx < start.neurons@.len() {
        assert(start.neurons@[idx].with_frozen(true).with_frozen(false) == start.neurons@[idx]);
        assert(thawed.neurons@ =~= start.neurons@);
    }
}

/// A frozen neuron is never among the neurons that an update changes.
pub proof fn lemma_frozen_neuron_not_updated<W>(
    net: Network<W>,
    targets: Seq<(usize, usize)>,
    upto: int,
    l: usize,
    n: usize,
)
    requires
        net.lists_trainable_before(targets, upto),
        l < net.layers@.len(),
        n < net.layers@[l as int].neurons@.len(),
        net.layers@[l as int].neurons@[n as int].frozen,
    ensures
        !targets.contains((l, n)),
{
    if targets.contains((l, n)) {
        let q = choose|q: int| 0 <= q < targets.len() && targets[q] == (l, n);
        assert(net.trainable(targets[q].0 as int, targets[q].1 as int));
    }
}

/// After new weights are stored in a neuron, reading that neuron's weights
/// gives them back, and every other neuron is as it was.
pub proof fn lemma_weights_read_back<W>(
    before: Linear<W>,
    after: Linear<W>,
    idx: int,
    weights: Vec<W>,
)
    requires
        0 <= idx < before.neurons@.len(),
        after.neurons@ == before.neurons@.update(
            idx,
            Neuron { weights: weights, ..before.neurons@[idx] },
        ),
    ensures
        after.neurons@[idx].weights@ == weights@,
        after.neurons@[idx].bias == before.neurons@[idx].bias,
        after.neurons@[idx].frozen == before.neurons@[idx].frozen,
        forall|j: int| 0 <= j < before.neurons@.len() && j != idx ==> after.neurons@[j] == before.neurons@[j],
{
}

/// Sample position `i` falls in one of the batches `r`.
pub open spec fn in_some_batch(r: Seq<(usize, usize)>, i: int) -> bool {
    exists|k: int| 0 <= k < r.len() && (#[trigger] r[k]).0 <= i < r[k].1
}

/// The batches of an epoch are in order, disjoint, at most `batch_size`
/// long, and together hold every sample position below `n` exactly once.
pub proof fn lemma_batches_partition(r: Seq<(usize, usize)>, n: nat, batch_size: nat)
    requires
        batch_size > 0,
        is_batch_split(r, n, batch_size),
    ensures
        forall|k: int| 0 <= k < r.len() ==> (#[trigger] r[k]).1 - r[k].0 <= batch_size,
        forall|k: int, j: int| 0 <= k < j < r.len() ==> (#[trigger] r[k]).1 <= (#[trigger] r[j]).0,
        forall|i: int| 0 <= i < n ==> #[trigger] in_some_batch(r, i),
{
    assert forall|k: int, j: int| 0 <= k < j < r.len() implies (#[trigger] r[k]).1 <= (#[trigger] r[j]).0 by {
        lemma_batch_order(r, n, batch_size, k, j);
    }
    assert forall|i: int| 0 <= i < n implies #[trigger] in_some_batch(r, i) by {
        lemma_batch_cover(r, n, batch_size, r.len() - 1, i);
    }
}

proof fn lemma_batch_order(r: Seq<(usize, usize)>, n: nat, batch_size: nat, k: int, j: int)
    requires
        is_batch_split(r, n, batch_size),
        0 <= k < j < r.len(),
    ensures
        r[k].1 <= r[j].0,
    decreases j - k,
{
    if j > k + 1 {
        lemma_batch_order(r, n, batch_size, k, j - 1);
        assert(r[j - 1].0 < r[j - 1].1);
        assert(starts_after_previous(r, j));
    } else {
        assert(starts_after_previous(r, j));
    }
}

proof fn lemma_batch_cover(r: Seq<(usize, usize)>, n: nat, batch_size: nat, m: int, i: int)
    requires
        is_batch_split(r, n, batch_size),
        0 <= m < r.len(),
        0 <= i < r[m].1,
    ensures
        exists|k: int| 0 <= k <= m && (#[trigger] r[k]).0 <= i < r[k].1,
    decreases m,
{
    if r[m].0 <= i {
        assert(r[m].0 <= i < r[m].1);
    } else {
        assert(m > 0);
        assert(starts_after_previous(r, m));
        lemma_batch_cover(r, n, batch_size, m - 1, i);
        let k = choose|k: int| 0 <= k <= m - 1 && (#[trigger] r[k]).0 <= i < r[k].1;
        assert(0 <= k <= m && r[k].0 <= i < r[k].1);
    }
}

/// After a layer is frozen, the network's frozen status shows every neuron
/// of that layer frozen and every other layer as it was.
pub proof fn lemma_frozen_status_after_freeze_layer<W>(
    before: Network<W>,
    after: Network<W>,
    idx: int,
)
    requires
        0 <= idx < before.layers@.len(),
        after.layer_changed(before, idx, all_flags_set(true)),
    ensures
        after.frozen_status()[idx] == Seq::new(before.layers@[idx].neurons@.len(), |i: int| true),
        forall|l: int|
            0 <= l < before.layers@.len() && l != idx ==> #[trigger] after.frozen_status()[l]
                == before.frozen_status()[l],
{
    let a = after.layers@[idx];
    let b = before.layers@[idx];
    assert(all_flags_set(true)(a, b));
    assert forall|i: int| 0 <= i < b.neurons@.len() implies a.neurons@[i].frozen by {
        assert(a.neurons@[i] == b.neurons@[i].with_frozen(true));
    }
    assert(after.frozen_status()[idx] =~= Seq::new(b.neurons@.len(), |i: int| true));
    assert forall|l: int| 0 <= l < before.layers@.len() && l != idx implies #[trigger] after.frozen_status()[l]
        == before.frozen_status()[l] by {
        assert(after.layers@[l] == before.layers@[l]);
    }
}

/// Sample `s` is visited at position `j` of the epoch's order `order`, which
/// lies in batch `k` of `batches`.
pub open spec fn visited_in(
    order: Seq<usize>,
    batches: Seq<(usize, usize)>,
    s: int,
    k: int,
    j: int,
) -> bool {
    &&& 0 <= k < batches.len()
    &&& batches[k].0 <= j < batches[k].1
    &&& order[j] == s
}

/// Sample `s` is visited somewhere in the epoch.
pub open spec fn visited(order: Seq<usize>, batches: Seq<(usize, usize)>, s: int) -> bool {
    exists|k: int, j: int| #[trigger] visited_in(order, batches, s, k, j)
}

/// In one epoch, whose sample order is a permutation of the `n` samples and
/// whose batches split the positions `0..n`, every sample is visited exactly
/// once: in exactly one batch, at exactly one position.
pub proof fn lemma_epoch_visits_each_sample_once(
    order: Seq<usize>,
    batches: Seq<(usize, usize)>,
    n: nat,
    batch_size: nat,
)
    requires
        n <= usize::MAX,
        batch_size > 0,
        is_permutation_of_range(order, n),
        is_batch_split(batches, n, batch_size),
    ensures
        forall|s: int| 0 <= s < n ==> #[trigger] visited(order, batches, s),
        forall|s: int, k1: int, j1: int, k2: int, j2: int|
            #[trigger] visited_in(order, batches, s, k1, j1) && #[trigger] visited_in(order, batches, s, k2, j2)
                ==> k1 == k2 && j1 == j2,
{
    lemma_batches_partition(batches, n, batch_size);
    assert forall|s: int| 0 <= s < n implies #[trigger] visited(order, batches, s) by {
        lemma_permutation_covers(order, n, s);
        let j = choose|j: int| 0 <= j < order.len() && order[j] == s;
        assert(in_some_batch(batches, j));
        let k = choose|k: int| 0 <= k < batches.len() && (#[trigger] batches[k]).0 <= j < batches[k].1;
        assert(visited_in(order, batches, s, k, j));
    }
    assert forall|s: int, k1: int, j1: int, k2: int, j2: int|
        #[trigger] visited_in(order, batches, s, k1, j1) && #[trigger] visited_in(order, batches, s, k2, j2)
        implies k1 == k2 && j1 == j2 by {
        assert(j1 == j2);
        if k1 < k2 {
            assert(batches[k1].1 <= batches[k2].0);
        } else if k2 < k1 {
            assert(batches[k2].1 <= batches[k1].0);
        }
    }
}

/// A permutation of `0..n` holds every sample below `n`.
proof fn lemma_permutation_covers(order: Seq<usize>, n: nat, s: int)
    requires
        n <= usize::MAX,
        is_permutation_of_range(order, n),
        0 <= s < n,
    ensures
        exists|j: int| 0 <= j < order.len() && order[j] == s,
{
    if !(exists|j: int| 0 <= j < order.len() && order[j] == s) {
        let smaller = Set::new(|x: usize| x < n && x != s as usize);
        let img = order.to_set();
        assert(img.subset_of(smaller)) by {
            assert forall|x: usize| img.contains(x) implies smaller.contains(x) by {
                let j = choose|j: int| 0 <= j < order.len() && order[j] == x;
            }
        }
        order.unique_seq_to_set();
        lemma_small_set_size(n, s as usize);
        assert(img.len() == n);
        vstd::set_lib::lemma_len_subset(img, smaller);
    }
}

/// The numbers below `n` other than `s` are `n - 1` many.
proof fn lemma_small_set_size(n: nat, s: usize)
    requires
        s < n,
        n <= usize::MAX,
    ensures
        Set::new(|x: usize| x < n && x != s).finite(),
        Set::new(|x: usize| x < n && x != s).len() == n - 1,
{
    let below = Set::new(|x: usize| x < n);
    let smaller = Set::new(|x: usize| x < n && x != s);
    lemma_below_size(n);
    assert(smaller =~= below.remove(s));
}

/// The numbers below `n` (all of which are `usize` values) are `n` many.
proof fn lemma_below_size(n: nat)
    requires
        n <= usize::MAX + 1,
    ensures
        Set::new(|x: usize| x < n).finite(),
        Set::new(|x: usize| x < n).len() == n,
    decreases n,
{
    if n == 0 {
        assert(Set::new(|x: usize| x < n) =~= Set::<usize>::empty());
    } else {
        lemma_below_size((n - 1) as nat);
        assert(Set::new(|x: usize| x < n) =~= Set::new(|x: usize| x < (n - 1) as nat).insert((n - 1) as usize));
    }
}

/// Two sequences, each strictly increasing for the strict order `lt`, that
/// hold the same elements are equal.
pub proof fn lemma_sorted_lists_equal<T>(a: Seq<T>, b: Seq<T>, lt: spec_fn(T, T) -> bool)
    requires
        forall|x: T| !#[trigger] lt(x, x),
        forall|x: T, y: T, z: T| #[trigger] lt(x, y) && #[trigger] lt(y, z) ==> lt(x, z),
        forall|i: int, j: int| 0 <= i < j < a.len() ==> lt(#[trigger] a[i], #[trigger] a[j]),
        forall|i: int, j: int| 0 <= i < j < b.len() ==> lt(#[trigger] b[i], #[trigger] b[j]),
        forall|x: T| a.contains(x) <==> b.contains(x),
    ensures
        a == b,
    decreases a.len(),
{
    if a.len() == 0 {
        if b.len() > 0 {
            assert(b.contains(b[0]));
        }
        assert(b.len() == 0);
        assert(a =~= b);
    } else {
        assert(a.contains(a[0]));
        assert(b.len() > 0);
        assert(b.contains(b[0]));
        let j = choose|j: int| 0 <= j < b.len() && b[j] == a[0];
        let i = choose|i: int| 0 <= i < a.len() && a[i] == b[0];
        if j > 0 {
            assert(lt(b[0], b[j]));
            if i > 0 {
                assert(lt(a[0], a[i]));
                assert(lt(a[0], a[0]));
            } else {
                assert(lt(b[0], b[0]));
            }
        }
        assert(a[0] == b[0]);
        let a1 = a.drop_first();
        let b1 = b.drop_first();
        assert forall|x: T| a1.contains(x) <==> b1.contains(x) by {
            if a1.contains(x) {
                let p = choose|p: int| 0 <= p < a1.len() && a1[p] == x;
                assert(a[p + 1] == x);
                assert(lt(a[0], a[p + 1]));
                assert(b.contains(x));
                let q = choose|q: int| 0 <= q < b.len() && b[q] == x;
                if q == 0 {
                    assert(lt(x, x));
                }
                assert(b1[q - 1] == x);
            }
            if b1.contains(x) {
                let p = choose|p: int| 0 <= p < b1.len() && b1[p] == x;
                assert(b[p + 1] == x);
                assert(lt(b[0], b[p + 1]));
                assert(a.contains(x));
                let q = choose|q: int| 0 <= q < a.len() && a[q] == x;
                if q == 0 {
                    assert(lt(x, x));
                }
                assert(a1[q - 1] == x);
            }
        }
        assert forall|i: int, j: int| 0 <= i < j < a1.len() implies lt(#[trigger] a1[i], #[trigger] a1[j]) by {
            assert(a1[i] == a[i + 1] && a1[j] == a[j + 1]);
        }
        assert forall|i: int, j: int| 0 <= i < j < b1.len() implies lt(#[trigger] b1[i], #[trigger] b1[j]) by {
            assert(b1[i] == b[i + 1] && b1[j] == b[j + 1]);
        }
        lemma_sorted_lists_equal(a1, b1, lt);
        assert(a =~= b) by {
            assert forall|k: int| 0 <= k < a.len() implies a[k] == b[k] by {
                if k > 0 {
                    assert(a[k] == a1[k - 1]);
                    assert(b[k] == b1[k - 1]);
                }
            }
        }
    }
}

/// There is only one list, in (layer, neuron) order, of the trainable
/// neurons of a network's first `k` layers. In particular a network update
/// given one gradient per neuron of every layer changes exactly the neurons
/// that a training step changes.
pub proof fn lemma_trainable_list_unique<W>(
    net: Network<W>,
    r1: Seq<(usize, usize)>,
    r2: Seq<(usize, usize)>,
    k: int,
)
    requires
        net.lists_trainable_before(r1, k),
        net.lists_trainable_before(r2, k),
    ensures
        r1 == r2,
{
    let lt = |a: (usize, usize), b: (usize, usize)| crate::network::lex_lt(a, b);
    assert forall|x: (usize, usize)| r1.contains(x) <==> r2.contains(x) by {
        if r1.contains(x) {
            let q = choose|q: int| 0 <= q < r1.len() && r1[q] == x;
            assert(net.trainable(r1[q].0 as int, r1[q].1 as int));
        }
        if r2.contains(x) {
            let q = choose|q: int| 0 <= q < r2.len() && r2[q] == x;
            assert(net.trainable(r2[q].0 as int, r2[q].1 as int));
        }
    }
    assert forall|i: int, j: int| 0 <= i < j < r1.len() implies lt(#[trigger] r1[i], #[trigger] r1[j]) by {
        assert(crate::network::lex_lt(r1[i], r1[j]));
    }
    assert forall|i: int, j: int| 0 <= i < j < r2.len() implies lt(#[trigger] r2[i], #[trigger] r2[j]) by {
        assert(crate::network::lex_lt(r2[i], r2[j]));
    }
    lemma_sorted_lists_equal(r1, r2, lt);
}

/// There is only one increasing list of the indices below `n` that satisfy
/// `p`. In particular a layer update given one gradient per neuron changes
/// exactly the layer's trainable neurons.
pub proof fn lemma_index_list_unique(r1: Seq<usize>, r2: Seq<usize>, n: nat, p: spec_fn(int) -> bool)
    requires
        crate::layer::enumerates(r1, n, p),
        crate::layer::enumerates(r2, n, p),
    ensures
        r1 == r2,
{
    let lt = |a: usize, b: usize| a < b;
    assert forall|x: usize| r1.contains(x) <==> r2.contains(x) by {
        if r1.contains(x) {
            let q = choose|q: int| 0 <= q < r1.len() && r1[q] == x;
            assert(p(r1[q] as int));
            assert(p(x as int));
        }
        if r2.contains(x) {
            let q = choose|q: int| 0 <= q < r2.len() && r2[q] == x;
            assert(p(r2[q] as int));
            assert(p(x as int));
        }
    }
    assert forall|i: int, j: int| 0 <= i < j < r1.len() implies lt(#[trigger] r1[i], #[trigger] r1[j]) by {}
    assert forall|i: int, j: int| 0 <= i < j < r2.len() implies lt(#[trigger] r2[i], #[trigger] r2[j]) by {}
    lemma_sorted_lists_equal(r1, r2, lt);
}

} // verus!
