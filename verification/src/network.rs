use vstd::prelude::*;
use crate::layer::{Linear, enumerates};
use crate::task::{Task, task_named};

verus! {

/// A stack of fully connected layers and the task it is trained for.
#[derive(Clone)]
pub struct Network<W> {
    pub layers: Vec<Linear<W>>,
    pub task: Task,
}

/// Errors of the network-level operations.
#[derive(Debug, Clone, Copy, PartialEq, Eq, Structural)]
pub enum NetworkError {
    /// The task name is none of `"binary"`, `"multi"`, `"regression"`.
    InvalidTask,
    /// Class probabilities were asked of a regression network.
    ProbabilitiesForRegression,
    /// A network update was handed gradients for another number of layers.
    LayerCountMismatch,
    /// The gradients for this layer are not one per neuron.
    NeuronCountMismatch { layer: usize },
}

/// `a` comes before `b` in (layer, neuron) order.
pub open spec fn lex_lt(a: (usize, usize), b: (usize, usize)) -> bool {
    a.0 < b.0 || (a.0 == b.0 && a.1 < b.1)
}

/// The change that setting every frozen flag of a layer to `f` makes: the
/// new layer `a` is the old layer `b` with all flags `f`.
pub open spec fn all_flags_set<W>(f: bool) -> spec_fn(Linear<W>, Linear<W>) -> bool {
    |a: Linear<W>, b: Linear<W>| a.same_config(b) && a.neurons_after_all_flags(b, f)
}

/// The change that setting the frozen flag of neuron `idx` of a layer to `f`
/// makes (none when `idx` is out of range).
pub open spec fn one_flag_set<W>(idx: int, f: bool) -> spec_fn(Linear<W>, Linear<W>) -> bool {
    |a: Linear<W>, b: Linear<W>| a.same_config(b) && a.neurons_after_flag(b, idx, f)
}

impl<W> Network<W> {
    /// Every layer is well formed.
    pub open spec fn wf(self) -> bool {
        forall|l: int| 0 <= l < self.layers@.len() ==> (#[trigger] self.layers@[l]).wf()
    }

    /// The frozen flags of every neuron, layer by layer.
    pub open spec fn frozen_status(self) -> Seq<Seq<bool>> {
        Seq::new(self.layers@.len(), |l: int| self.layers@[l].frozen_mask())
    }

    /// Neuron `n` of layer `l` exists and is not frozen.
    pub open spec fn trainable(self, l: int, n: int) -> bool {
        &&& 0 <= l < self.layers@.len()
        &&& 0 <= n < self.layers@[l].neurons@.len()
        &&& !self.layers@[l].neurons@[n].frozen
    }

    /// `r` lists, in (layer, neuron) order, exactly the trainable neurons of
    /// the layers below `k`.
    pub open spec fn lists_trainable_before(self, r: Seq<(usize, usize)>, k: int) -> bool {
        &&& forall|q: int| 0 <= q < r.len() ==> (#[trigger] r[q]).0 < k && self.trainable(
            r[q].0 as int,
            r[q].1 as int,
        )
        &&& forall|q: int, p: int| 0 <= q < p < r.len() ==> lex_lt(#[trigger] r[q], #[trigger] r[p])
        &&& forall|l: int, n: int|
            0 <= l < k && #[trigger] self.trainable(l, n) ==> r.contains((l as usize, n as usize))
    }

    /// Layer `idx` of `self` is obtained from that of `old` by `step`, the
    /// other layers and the task are unchanged; an index out of range
    /// changes nothing.
    pub open spec fn layer_changed(
        self,
        old: Network<W>,
        idx: int,
        step: spec_fn(Linear<W>, Linear<W>) -> bool,
    ) -> bool {
        &&& self.task == old.task
        &&& self.layers@.len() == old.layers@.len()
        &&& forall|l: int| 0 <= l < old.layers@.len() && l != idx ==> self.layers@[l] == #[trigger] old.layers@[l]
        &&& (0 <= idx < old.layers@.len() ==> step(self.layers@[idx], old.layers@[idx]))
    }
}

impl<W: Copy> Network<W> {
    /// A network of the given layers for the given task.
    pub fn new(layers: Vec<Linear<W>>, task: Task) -> (n: Network<W>)
        ensures
            n.layers@ == layers@,
            n.task == task,
    {
        Network { layers, task }
    }

    /// Whether every layer is well formed.
    pub fn is_wf(&self) -> (r: bool)
        ensures
            r == self.wf(),
    {
        let mut l: usize = 0;
        while l < self.layers.len()
            invariant
                l <= self.layers@.len(),
                forall|k: int| 0 <= k < l ==> (#[trigger] self.layers@[k]).wf(),
            decreases self.layers@.len() - l,
        {
            if !self.layers[l].is_wf() {
                return false;
            }
            l = l + 1;
        }
        true
    }

    /// A network with no layers, set up for regression.
    pub fn new_empty() -> (n: Network<W>)
        ensures
            n.layers@.len() == 0,
            n.task == Task::Regression,
            n.wf(),
    {
        Network { layers: Vec::new(), task: Task::Regression }
    }

    /// Sets the task by name; an unknown name is refused with `InvalidTask`
    /// and the task left as it was.
    pub fn set_task(&mut self, name: &str) -> (r: Result<(), NetworkError>)
        ensures
            final(self).layers@ == old(self).layers@,
            task_named(name@) is Some ==> r == Ok::<(), NetworkError>(()) && final(self).task
                == task_named(name@)->Some_0,
            task_named(name@) is None ==> r == Err::<(), NetworkError>(NetworkError::InvalidTask)
                && final(self).task == old(self).task,
    {
        match Task::from_name(name) {
            Some(t) => {
                self.task = t;
                Ok(())
            },
            None => Err(NetworkError::InvalidTask),
        }
    }

    /// Replaces all layers.
    pub fn set_layers(&mut self, layers: Vec<Linear<W>>)
        ensures
            final(self).layers@ == layers@,
            final(self).task == old(self).task,
    {
        self.layers = layers;
    }

    /// The number of layers.
    pub fn num_layers(&self) -> (n: usize)
        ensures
            n == self.layers@.len(),
    {
        self.layers.len()
    }

    /// Checks that the network's outputs can be read as class probabilities:
    /// refused with `ProbabilitiesForRegression` for a regression network.
    pub fn check_probabilities(&self) -> (r: Result<(), NetworkError>)
        ensures
            self.task == Task::Regression ==> r == Err::<(), NetworkError>(
                NetworkError::ProbabilitiesForRegression,
            ),
            self.task != Task::Regression ==> r == Ok::<(), NetworkError>(()),
    {
        if self.task.has_probabilities() {
            Ok(())
        } else {
            Err(NetworkError::ProbabilitiesForRegression)
        }
    }

    /// Freezes every neuron of layer `idx`; an index out of range is ignored.
    pub fn freeze_layer(&mut self, idx: usize)
        requires
            old(self).wf(),
        ensures
            final(self).wf(),
            final(self).layer_changed(
                *old(self),
                idx as int,
                all_flags_set(true),
            ),
    {
        if idx < self.layers.len() {
            self.layers[idx].freeze_all();
        }
    }

    /// Unfreezes every neuron of layer `idx`; an index out of range is
    /// ignored.
    pub fn unfreeze_layer(&mut self, idx: usize)
        requires
            old(self).wf(),
        ensures
            final(self).wf(),
            final(self).layer_changed(
                *old(self),
                idx as int,
                all_flags_set(false),
            ),
    {
        if idx < self.layers.len() {
            self.layers[idx].unfreeze_all();
        }
    }

    /// Freezes neuron `neuron_idx` of layer `layer_idx`; indices out of range
    /// are ignored.
    pub fn freeze_neuron(&mut self, layer_idx: usize, neuron_idx: usize)
        requires
            old(self).wf(),
        ensures
            final(self).wf(),
            final(self).layer_changed(
                *old(self),
                layer_idx as int,
                one_flag_set(neuron_idx as int, true),
            ),
    {
        if layer_idx < self.layers.len() {
            self.layers[layer_idx].freeze_neuron(neuron_idx);
        }
    }

    /// Unfreezes neuron `neuron_idx` of layer `layer_idx`; indices out of
    /// range are ignored.
    pub fn unfreeze_neuron(&mut self, layer_idx: usize, neuron_idx: usize)
        requires
            old(self).wf(),
        ensures
            final(self).wf(),
            final(self).layer_changed(
                *old(self),
                layer_idx as int,
                one_flag_set(neuron_idx as int, false),
            ),
    {
        if layer_idx < self.layers.len() {
            self.layers[layer_idx].unfreeze_neuron(neuron_idx);
        }
    }
}

impl<W: Copy> Network<W> {
    /// Sets every frozen flag of every layer to `f`.
    fn set_all_frozen(&mut self, f: bool)
        requires
            old(self).wf(),
        ensures
            final(self).wf(),
            final(self).task == old(self).task,
            final(self).layers@.len() == old(self).layers@.len(),
            forall|l: int|
                0 <= l < old(self).layers@.len() ==> (#[trigger] final(self).layers@[l]).same_config(
                    old(self).layers@[l],
                ) && final(self).layers@[l].neurons_after_all_flags(old(self).layers@[l], f),
    {
        let n = self.layers.len();
        let mut i: usize = 0;
        while i < n
            invariant
                n == old(self).layers@.len(),
                n == self.layers@.len(),
                i <= n,
                self.task == old(self).task,
                forall|l: int| 0 <= l < n ==> (#[trigger] self.layers@[l]).wf(),
                forall|l: int|
                    0 <= l < i ==> (#[trigger] self.layers@[l]).same_config(old(self).layers@[l])
                        && self.layers@[l].neurons_after_all_flags(old(self).layers@[l], f),
                forall|l: int| i <= l < n ==> self.layers@[l] == #[trigger] old(self).layers@[l],
            decreases n - i,
        {
            if f {
                self.layers[i].freeze_all();
            } else {
                self.layers[i].unfreeze_all();
            }
            i = i + 1;
        }
    }

    /// Freezes every neuron of every layer.
    pub fn freeze_all(&mut self)
        requires
            old(self).wf(),
        ensures
            final(self).wf(),
            final(self).task == old(self).task,
            final(self).layers@.len() == old(self).layers@.len(),
            forall|l: int|
                0 <= l < old(self).layers@.len() ==> (#[trigger] final(self).layers@[l]).same_config(
                    old(self).layers@[l],
                ) && final(self).layers@[l].neurons_after_all_flags(old(self).layers@[l], true),
    {
        self.set_all_frozen(true)
    }

    /// Unfreezes every neuron of every layer.
    pub fn unfreeze_all(&mut self)
        requires
            old(self).wf(),
        ensures
            final(self).wf(),
            final(self).task == old(self).task,
            final(self).layers@.len() == old(self).layers@.len(),
            forall|l: int|
                0 <= l < old(self).layers@.len() ==> (#[trigger] final(self).layers@[l]).same_config(
                    old(self).layers@[l],
                ) && final(self).layers@[l].neurons_after_all_flags(old(self).layers@[l], false),
    {
        self.set_all_frozen(false)
    }

    /// The frozen flags of every neuron, layer by layer.
    pub fn get_frozen_status(&self) -> (r: Vec<Vec<bool>>)
        ensures
            r@.len() == self.layers@.len(),
            forall|l: int| 0 <= l < r@.len() ==> (#[trigger] r@[l])@ == self.frozen_status()[l],
    {
        let mut r: Vec<Vec<bool>> = Vec::with_capacity(self.layers.len());
        let mut l: usize = 0;
        while l < self.layers.len()
            invariant
                l <= self.layers@.len(),
                r@.len() == l,
                forall|k: int| 0 <= k < l ==> (#[trigger] r@[k])@ == self.frozen_status()[k],
            decreases self.layers@.len() - l,
        {
            let m = self.layers[l].get_frozen_mask();
            r.push(m);
            l = l + 1;
        }
        r
    }

    /// Appends the trainable neurons of layer `l` to `r`.
    fn push_trainable_of_layer(&self, l: usize, r: &mut Vec<(usize, usize)>)
        requires
            l < self.layers@.len(),
            self.lists_trainable_before(old(r)@, l as int),
        ensures
            self.lists_trainable_before(final(r)@, l + 1),
    {
        let t = self.layers[l].trainable_neurons();
        let ghost r0 = r@;
        let mut j: usize = 0;
        while j < t.len()
            invariant
                l < self.layers@.len(),
                self.lists_trainable_before(r0, l as int),
                enumerates(t@, self.layers@[l as int].neurons@.len(), self.layers@[l as int].unfrozen()),
                j <= t@.len(),
                r@.len() == r0.len() + j,
                forall|q: int| 0 <= q < r0.len() ==> r@[q] == r0[q],
                forall|q: int| 0 <= q < j ==> r@[r0.len() + q] == (l, #[trigger] t@[q]),
                forall|q: int| 0 <= q < r@.len() ==> (#[trigger] r@[q]).0 <= l && self.trainable(
                    r@[q].0 as int,
                    r@[q].1 as int,
                ),
                forall|q: int, p: int| 0 <= q < p < r@.len() ==> lex_lt(#[trigger] r@[q], #[trigger] r@[p]),
                j > 0 ==> r@[r@.len() - 1] == (l, t@[j - 1]),
            decreases t@.len() - j,
        {
            let n = t[j];
            proof {
                assert forall|q: int| 0 <= q < r@.len() implies lex_lt(#[trigger] r@[q], (l, n)) by {
                    if q < r0.len() {
                        assert(r0[q].0 < l);
                    } else {
                        let qq = q - r0.len();
                        assert(r@[r0.len() + qq] == (l, t@[qq]));
                        assert(t@[qq] < t@[j as int]);
                    }
                }
            }
            r.push((l, n));
            j = j + 1;
        }
        proof {
            let rr = r@;
            assert forall|q: int| 0 <= q < rr.len() implies (#[trigger] rr[q]).0 < l + 1 by {}
            assert forall|la: int, n: int| 0 <= la < l + 1 && #[trigger] self.trainable(la, n) implies rr.contains((la as usize, n as usize)) by {
                if la < l {
                    let w = choose|w: int| 0 <= w < r0.len() && r0[w] == (la as usize, n as usize);
                    assert(rr[w] == r0[w]);
                } else {
                    assert(self.layers@[l as int].unfrozen()(n));
                    assert(t@.contains(n as usize));
                    let w = choose|w: int| 0 <= w < t@.len() && t@[w] == n as usize;
                    assert(rr[r0.len() + w] == (l, t@[w]));
                }
            }
        }
    }

    /// The neurons that an optimizer step of training changes: every neuron
    /// that is not frozen, as (layer, neuron) pairs in order.
    pub fn update_targets(&self) -> (r: Vec<(usize, usize)>)
        ensures
            self.lists_trainable_before(r@, self.layers@.len() as int),
    {
        let mut r: Vec<(usize, usize)> = Vec::new();
        let mut l: usize = 0;
        while l < self.layers.len()
            invariant
                l <= self.layers@.len(),
                self.lists_trainable_before(r@, l as int),
            decreases self.layers@.len() - l,
        {
            self.push_trainable_of_layer(l, &mut r);
            l = l + 1;
        }
        r
    }
}

impl<W> Network<W> {
    /// The index of the first layer whose gradient count is not its number
    /// of neurons, if any (`grad_counts` has one entry per layer).
    pub open spec fn first_count_mismatch(self, grad_counts: Seq<usize>) -> Option<int> {
        if exists|l: int| 0 <= l < self.layers@.len() && grad_counts[l] != self.layers@[l].neurons@.len() {
            Some(choose|l: int| 0 <= l < self.layers@.len() && grad_counts[l] != self.layers@[l].neurons@.len()
                && forall|m: int| 0 <= m < l ==> grad_counts[m] == self.layers@[m].neurons@.len())
        } else {
            None
        }
    }
}

impl<W: Copy> Network<W> {
    /// What a network update with the given per-layer gradient counts does.
    ///
    /// With a count per layer, layers are taken in order; each layer whose
    /// count matches its number of neurons has its unfrozen neurons updated.
    /// At the first layer `k` whose count does not match, the update stops
    /// with `NeuronCountMismatch { layer: k }`, the earlier layers having been
    /// updated. Without a count per layer nothing is updated and the error is
    /// `LayerCountMismatch`. The returned list holds the (layer, neuron)
    /// pairs updated, in order.
    pub fn update_network_plan(&self, grad_counts: &Vec<usize>) -> (r: (
        Vec<(usize, usize)>,
        Result<(), NetworkError>,
    ))
        ensures
            grad_counts@.len() != self.layers@.len() ==> r.0@.len() == 0 && r.1 == Err::<
                (),
                NetworkError,
            >(NetworkError::LayerCountMismatch),
            grad_counts@.len() == self.layers@.len() ==> match self.first_count_mismatch(
                grad_counts@,
            ) {
                Some(k) => self.lists_trainable_before(r.0@, k) && r.1 == Err::<(), NetworkError>(
                    NetworkError::NeuronCountMismatch { layer: k as usize },
                ),
                None => self.lists_trainable_before(r.0@, self.layers@.len() as int) && r.1 == Ok::<
                    (),
                    NetworkError,
                >(()),
            },
    {
        let mut r: Vec<(usize, usize)> = Vec::new();
        if grad_counts.len() != self.layers.len() {
            return (r, Err(NetworkError::LayerCountMismatch));
        }
        let mut l: usize = 0;
        while l < self.layers.len()
            invariant
                grad_counts@.len() == self.layers@.len(),
                l <= self.layers@.len(),
                self.lists_trainable_before(r@, l as int),
                forall|m: int| 0 <= m < l ==> grad_counts@[m] == self.layers@[m].neurons@.len(),
            decreases self.layers@.len() - l,
        {
            if grad_counts[l] != self.layers[l].neurons.len() {
                proof {
                    let k = self.first_count_mismatch(grad_counts@);
                    assert(k is Some);
                    let kk = k->Some_0;
                    if kk < l {
                    } else if kk > l {
                    }
                    assert(kk == l);
                }
                return (r, Err(NetworkError::NeuronCountMismatch { layer: l }));
            }
            self.push_trainable_of_layer(l, &mut r);
            l = l + 1;
        }
        proof {
            assert(self.first_count_mismatch(grad_counts@) is None);
        }
        (r, Ok(()))
    }
}

impl<W: Copy> Network<W> {
    /// Gradient accumulators shaped like the network, all `zero`: for each
    /// layer, for each neuron, one slot per weight and one for the bias.
    pub fn zero_gradients(&self, zero: W) -> (g: Vec<Vec<(Vec<W>, W)>>)
        ensures
            g@.len() == self.layers@.len(),
            forall|l: int|
                0 <= l < g@.len() ==> (#[trigger] g@[l])@.len() == self.layers@[l].neurons@.len(),
            forall|l: int, n: int|
                0 <= l < g@.len() && 0 <= n < g@[l]@.len() ==> (#[trigger] g@[l]@[n]).0@ == Seq::new(
                    self.layers@[l].neurons@[n].width(),
                    |i: int| zero,
                ) && g@[l]@[n].1 == zero,
    {
        let mut g: Vec<Vec<(Vec<W>, W)>> = Vec::with_capacity(self.layers.len());
        let mut l: usize = 0;
        while l < self.layers.len()
            invariant
                l <= self.layers@.len(),
                g@.len() == l,
                forall|a: int| 0 <= a < l ==> (#[trigger] g@[a])@.len() == self.layers@[a].neurons@.len(),
                forall|a: int, n: int|
                    0 <= a < l && 0 <= n < g@[a]@.len() ==> (#[trigger] g@[a]@[n]).0@ == Seq::new(
                        self.layers@[a].neurons@[n].width(),
                        |i: int| zero,
                    ) && g@[a]@[n].1 == zero,
            decreases self.layers@.len() - l,
        {
            let layer = &self.layers[l];
            let mut row: Vec<(Vec<W>, W)> = Vec::with_capacity(layer.neurons.len());
            let mut n: usize = 0;
            while n < layer.neurons.len()
                invariant
                    n <= layer.neurons@.len(),
                    row@.len() == n,
                    forall|b: int| 0 <= b < n ==> (#[trigger] row@[b]).0@ == Seq::new(
                        layer.neurons@[b].width(),
                        |i: int| zero,
                    ) && row@[b].1 == zero,
                decreases layer.neurons@.len() - n,
            {
                row.push((crate::layer::filled(zero, layer.neurons[n].weights.len()), zero));
                n = n + 1;
            }
            g.push(row);
            l = l + 1;
        }
        g
    }
}

/// The (inputs, outputs) size of each layer of a network whose consecutive
/// layer sizes are `sizes`: one entry per pair of neighbours.
pub fn layer_dims(sizes: &Vec<usize>) -> (r: Vec<(usize, usize)>)
    requires
        sizes@.len() >= 1,
    ensures
        r@.len() == sizes@.len() - 1,
        forall|i: int| 0 <= i < r@.len() ==> #[trigger] r@[i] == (sizes@[i], sizes@[i + 1]),
{
    let n = sizes.len() - 1;
    let mut r: Vec<(usize, usize)> = Vec::with_capacity(n);
    let mut i: usize = 0;
    while i < n
        invariant
            n == sizes@.len() - 1,
            i <= n,
            r@.len() == i,
            forall|k: int| 0 <= k < i ==> #[trigger] r@[k] == (sizes@[k], sizes@[k + 1]),
        decreases n - i,
    {
        r.push((sizes[i], sizes[i + 1]));
        i = i + 1;
    }
    r
}

} // verus!
