use vstd::prelude::*;
use crate::activation::Activation;

verus! {

/// One unit of a fully connected layer.
///
/// The crate is generic over the scalar type `W` of the parameters; the
/// application instantiates it with its floating-point type. The buffers
/// hold what the numeric forward and backward passes keep between calls.
#[derive(Clone)]
pub struct Neuron<W> {
    pub weights: Vec<W>,
    pub bias: W,
    pub activation: Activation,
    pub frozen: bool,
    pub last_input: Option<Vec<W>>,
    pub last_output: Option<W>,
    pub grad_weights_buffer: Vec<W>,
    pub d_inputs_buffer: Vec<W>,
}

/// Errors of the per-neuron accessors of a layer.
#[derive(Debug, Clone, Copy, PartialEq, Eq, Structural)]
pub enum LayerError {
    /// The neuron index is not below the number of neurons.
    NeuronIndexOutOfRange,
    /// New weights do not have as many entries as the neuron has inputs.
    WeightsLengthMismatch,
    /// A layer update was handed a number of gradients other than the number
    /// of neurons.
    GradCountMismatch,
}

impl<W> Neuron<W> {
    /// The gradient buffers have one slot per input.
    pub open spec fn wf(self) -> bool {
        &&& self.grad_weights_buffer@.len() == self.weights@.len()
        &&& self.d_inputs_buffer@.len() == self.weights@.len()
    }

    /// The number of inputs of the neuron.
    pub open spec fn width(self) -> nat {
        self.weights@.len()
    }

    /// The same neuron with its frozen flag set to `f`.
    pub open spec fn with_frozen(self, f: bool) -> Neuron<W> {
        Neuron { frozen: f, ..self }
    }
}

/// A vector of `n` copies of `x`.
pub fn filled<W: Copy>(x: W, n: usize) -> (v: Vec<W>)
    ensures
        v@ == Seq::new(n as nat, |i: int| x),
{
    let mut v: Vec<W> = Vec::with_capacity(n);
    let mut i: usize = 0;
    while i < n
        invariant
            i <= n,
            v@ == Seq::new(i as nat, |k: int| x),
        decreases n - i,
    {
        v.push(x);
        i = i + 1;
    }
    v
}

/// An element-by-element copy of `s`.
pub fn copied<W: Copy>(s: &Vec<W>) -> (v: Vec<W>)
    ensures
        v@ == s@,
{
    let mut v: Vec<W> = Vec::with_capacity(s.len());
    let mut i: usize = 0;
    while i < s.len()
        invariant
            i <= s@.len(),
            v@ == s@.subrange(0, i as int),
        decreases s@.len() - i,
    {
        v.push(s[i]);
        i = i + 1;
    }
    v
}

impl<W: Copy> Neuron<W> {
    /// A fresh, unfrozen neuron with the given initial weights, bias `zero`,
    /// no saved forward state and zeroed gradient buffers.
    pub fn new(weights: Vec<W>, zero: W, activation: Activation) -> (n: Neuron<W>)
        ensures
            n.wf(),
            n.weights@ == weights@,
            n.bias == zero,
            n.activation == activation,
            !n.frozen,
            n.last_input is None,
            n.last_output is None,
            n.grad_weights_buffer@ == Seq::new(weights@.len(), |i: int| zero),
            n.d_inputs_buffer@ == Seq::new(weights@.len(), |i: int| zero),
    {
        let n_inputs = weights.len();
        Neuron {
            weights,
            bias: zero,
            activation,
            frozen: false,
            last_input: None,
            last_output: None,
            grad_weights_buffer: filled(zero, n_inputs),
            d_inputs_buffer: filled(zero, n_inputs),
        }
    }
}

/// A fully connected layer: its neurons and its dropout and sampling
/// configuration, with the masks that the last training pass drew.
///
/// `mask` lists the neurons that dropout kept, `sampling_mask` the neurons
/// that sampling kept; both are `None` when the last pass did not apply them.
#[derive(Clone)]
pub struct Linear<W> {
    pub neurons: Vec<Neuron<W>>,
    pub dropout_rate: W,
    pub mask: Option<Vec<usize>>,
    pub training_mode: bool,
    pub sampling_rate: W,
    pub sampling_scale: bool,
    pub sampling_strategy: String,
    pub sampling_mask: Option<Vec<usize>>,
}

impl<W> Linear<W> {
    /// Every neuron is well formed and all neurons have the same number of
    /// inputs.
    pub open spec fn wf(self) -> bool {
        &&& forall|i: int| 0 <= i < self.neurons@.len() ==> (#[trigger] self.neurons@[i]).wf()
        &&& forall|i: int|
            0 <= i < self.neurons@.len() ==> (#[trigger] self.neurons@[i]).width()
                == self.input_size()
    }

    /// The number of inputs of the layer (that of its first neuron).
    pub open spec fn input_size(self) -> nat {
        if self.neurons@.len() > 0 {
            self.neurons@[0].width()
        } else {
            0
        }
    }

    /// Holds of the indices of the neurons that are not frozen.
    pub open spec fn unfrozen(self) -> spec_fn(int) -> bool {
        |i: int| !self.neurons@[i].frozen
    }

    /// The frozen flag of each neuron, in order.
    pub open spec fn frozen_mask(self) -> Seq<bool> {
        Seq::new(self.neurons@.len(), |i: int| self.neurons@[i].frozen)
    }

    /// The two layers agree on everything but their neurons.
    pub open spec fn same_config(self, other: Linear<W>) -> bool {
        &&& self.dropout_rate == other.dropout_rate
        &&& self.mask == other.mask
        &&& self.training_mode == other.training_mode
        &&& self.sampling_rate == other.sampling_rate
        &&& self.sampling_scale == other.sampling_scale
        &&& self.sampling_strategy@ == other.sampling_strategy@
        &&& self.sampling_mask == other.sampling_mask
    }

    /// The neurons of `self` are those of `old` with the frozen flag of
    /// neuron `idx` set to `f`; an index out of range changes nothing.
    pub open spec fn neurons_after_flag(self, old: Linear<W>, idx: int, f: bool) -> bool {
        if 0 <= idx < old.neurons@.len() {
            self.neurons@ == old.neurons@.update(idx, old.neurons@[idx].with_frozen(f))
        } else {
            self.neurons@ == old.neurons@
        }
    }

    /// The neurons of `self` are those of `old` with every frozen flag set
    /// to `f`.
    pub open spec fn neurons_after_all_flags(self, old: Linear<W>, f: bool) -> bool {
        &&& self.neurons@.len() == old.neurons@.len()
        &&& forall|i: int|
            0 <= i < old.neurons@.len() ==> self.neurons@[i] == (#[trigger] old.neurons@[i]).with_frozen(f)
    }
}

impl<W: Copy> Linear<W> {
    /// A layer of the given neurons, with the given dropout and sampling
    /// rates, not in training mode, with no masks drawn, sampling scaled and
    /// the "random" sampling strategy.
    pub fn new(neurons: Vec<Neuron<W>>, dropout_rate: W, sampling_rate: W) -> (l: Linear<W>)
        ensures
            l.neurons@ == neurons@,
            l.dropout_rate == dropout_rate,
            l.sampling_rate == sampling_rate,
            l.mask is None,
            l.sampling_mask is None,
            !l.training_mode,
            l.sampling_scale,
            l.sampling_strategy@ == "random"@,
    {
        Linear {
            neurons,
            dropout_rate,
            mask: None,
            training_mode: false,
            sampling_rate,
            sampling_scale: true,
            sampling_strategy: "random".to_owned(),
            sampling_mask: None,
        }
    }

    /// Whether the layer is well formed: every neuron's gradient buffers
    /// have one slot per weight, and all neurons have as many weights as the
    /// first.
    pub fn is_wf(&self) -> (r: bool)
        ensures
            r == self.wf(),
    {
        let n = self.neurons.len();
        if n == 0 {
            return true;
        }
        let width = self.neurons[0].weights.len();
        let mut i: usize = 0;
        while i < n
            invariant
                n == self.neurons@.len(),
                n > 0,
                width == self.input_size(),
                i <= n,
                forall|k: int| 0 <= k < i ==> (#[trigger] self.neurons@[k]).wf() && self.neurons@[k].width() == width,
            decreases n - i,
        {
            let nr = &self.neurons[i];
            if nr.grad_weights_buffer.len() != nr.weights.len() || nr.d_inputs_buffer.len()
                != nr.weights.len() || nr.weights.len() != width {
                return false;
            }
            i = i + 1;
        }
        true
    }

    /// The number of neurons.
    pub fn num_neurons(&self) -> (n: usize)
        ensures
            n == self.neurons@.len(),
    {
        self.neurons.len()
    }

    /// Sets the frozen flag of neuron `idx` to `f`; does nothing when `idx`
    /// is out of range.
    fn set_frozen(&mut self, idx: usize, f: bool)
        requires
            old(self).wf(),
        ensures
            final(self).wf(),
            final(self).same_config(*old(self)),
            final(self).neurons_after_flag(*old(self), idx as int, f),
    {
        if idx < self.neurons.len() {
            self.neurons[idx].frozen = f;
        }
    }

    /// Freezes neuron `idx`, so that training leaves its parameters alone;
    /// an index out of range is ignored.
    pub fn freeze_neuron(&mut self, idx: usize)
        requires
            old(self).wf(),
        ensures
            final(self).wf(),
            final(self).same_config(*old(self)),
            final(self).neurons_after_flag(*old(self), idx as int, true),
    {
        self.set_frozen(idx, true)
    }

    /// Unfreezes neuron `idx`; an index out of range is ignored.
    pub fn unfreeze_neuron(&mut self, idx: usize)
        requires
            old(self).wf(),
        ensures
            final(self).wf(),
            final(self).same_config(*old(self)),
            final(self).neurons_after_flag(*old(self), idx as int, false),
    {
        self.set_frozen(idx, false)
    }

    /// Sets every neuron's frozen flag to `f`.
    fn set_all_frozen(&mut self, f: bool)
        requires
            old(self).wf(),
        ensures
            final(self).wf(),
            final(self).same_config(*old(self)),
            final(self).neurons_after_all_flags(*old(self), f),
    {
        let n = self.neurons.len();
        let mut i: usize = 0;
        while i < n
            invariant
                n == old(self).neurons@.len(),
                n == self.neurons@.len(),
                i <= n,
                self.same_config(*old(self)),
                forall|k: int| 0 <= k < i ==> self.neurons@[k] == (#[trigger] old(self).neurons@[k]).with_frozen(f),
                forall|k: int| i <= k < n ==> self.neurons@[k] == #[trigger] old(self).neurons@[k],
            decreases n - i,
        {
            self.neurons[i].frozen = f;
            i = i + 1;
        }
        assert forall|k: int| 0 <= k < n implies (#[trigger] self.neurons@[k]).wf()
            && self.neurons@[k].width() == self.input_size() by {
            assert(self.neurons@[k] == old(self).neurons@[k].with_frozen(f));
            assert(self.neurons@[0] == old(self).neurons@[0].with_frozen(f));
        }
    }

    /// Freezes every neuron of the layer.
    pub fn freeze_all(&mut self)
        requires
            old(self).wf(),
        ensures
            final(self).wf(),
            final(self).same_config(*old(self)),
            final(self).neurons_after_all_flags(*old(self), true),
    {
        self.set_all_frozen(true)
    }

    /// Unfreezes every neuron of the layer.
    pub fn unfreeze_all(&mut self)
        requires
            old(self).wf(),
        ensures
            final(self).wf(),
            final(self).same_config(*old(self)),
            final(self).neurons_after_all_flags(*old(self), false),
    {
        self.set_all_frozen(false)
    }

    /// The frozen flag of each neuron, in order.
    pub fn get_frozen_mask(&self) -> (m: Vec<bool>)
        ensures
            m@ == self.frozen_mask(),
    {
        let mut m: Vec<bool> = Vec::with_capacity(self.neurons.len());
        let mut i: usize = 0;
        while i < self.neurons.len()
            invariant
                i <= self.neurons@.len(),
                m@ == self.frozen_mask().subrange(0, i as int),
            decreases self.neurons@.len() - i,
        {
            m.push(self.neurons[i].frozen);
            i = i + 1;
        }
        m
    }
}

/// `r` lists, in increasing order, exactly the indices below `n` that
/// satisfy `p`.
pub open spec fn enumerates(r: Seq<usize>, n: nat, p: spec_fn(int) -> bool) -> bool {
    &&& forall|k: int| 0 <= k < r.len() ==> (#[trigger] r[k]) < n && p(r[k] as int)
    &&& forall|k: int, j: int| 0 <= k < j < r.len() ==> (#[trigger] r[k]) < (#[trigger] r[j])
    &&& forall|i: int| 0 <= i < n && #[trigger] p(i) ==> r.contains(i as usize)
}

/// The indices at which `flags` holds `true`, in increasing order.
pub fn true_indices(flags: &Vec<bool>) -> (r: Vec<usize>)
    ensures
        enumerates(r@, flags@.len(), |i: int| flags@[i]),
{
    let mut r: Vec<usize> = Vec::new();
    let mut i: usize = 0;
    while i < flags.len()
        invariant
            i <= flags@.len(),
            forall|k: int| 0 <= k < r@.len() ==> (#[trigger] r@[k]) < i && flags@[r@[k] as int],
            forall|k: int, j: int| 0 <= k < j < r@.len() ==> (#[trigger] r@[k]) < (#[trigger] r@[j]),
            forall|m: int| 0 <= m < i && #[trigger] flags@[m] ==> r@.contains(m as usize),
        decreases flags@.len() - i,
    {
        if flags[i] {
            proof {
                assert forall|m: int| 0 <= m < i + 1 && #[trigger] flags@[m] implies r@.push(i).contains(m as usize) by {
                    if m == i {
                        assert(r@.push(i)[r@.len() as int] == i);
                    } else {
                        let w = choose|w: int| 0 <= w < r@.len() && r@[w] == m as usize;
                        assert(r@.push(i)[w] == m as usize);
                    }
                }
            }
            r.push(i);
        }
        i = i + 1;
    }
    r
}

impl<W: Copy> Linear<W> {
    /// The weights of neuron `idx`, or `NeuronIndexOutOfRange`.
    pub fn get_weights(&self, idx: usize) -> (r: Result<Vec<W>, LayerError>)
        ensures
            idx < self.neurons@.len() ==> r is Ok && r->Ok_0@ == self.neurons@[idx as int].weights@,
            idx >= self.neurons@.len() ==> r == Err::<Vec<W>, LayerError>(
                LayerError::NeuronIndexOutOfRange,
            ),
    {
        if idx < self.neurons.len() {
            Ok(copied(&self.neurons[idx].weights))
        } else {
            Err(LayerError::NeuronIndexOutOfRange)
        }
    }

    /// Replaces the weights of neuron `idx`. Refused, with the layer
    /// unchanged, when `idx` is out of range (`NeuronIndexOutOfRange`) or
    /// when `weights` has another length than the neuron's current weights
    /// (`WeightsLengthMismatch`).
    pub fn set_weights(&mut self, idx: usize, weights: Vec<W>) -> (r: Result<(), LayerError>)
        requires
            old(self).wf(),
        ensures
            final(self).wf(),
            final(self).same_config(*old(self)),
            idx >= old(self).neurons@.len() ==> r == Err::<(), LayerError>(
                LayerError::NeuronIndexOutOfRange,
            ) && final(self).neurons@ == old(self).neurons@,
            idx < old(self).neurons@.len() && weights@.len() != old(self).neurons@[idx as int].width()
                ==> r == Err::<(), LayerError>(LayerError::WeightsLengthMismatch)
                && final(self).neurons@ == old(self).neurons@,
            idx < old(self).neurons@.len() && weights@.len() == old(self).neurons@[idx as int].width()
                ==> r == Ok::<(), LayerError>(()) && final(self).neurons@ == old(self).neurons@.update(
                idx as int,
                Neuron { weights: weights, ..old(self).neurons@[idx as int] },
            ),
    {
        if idx >= self.neurons.len() {
            return Err(LayerError::NeuronIndexOutOfRange);
        }
        if weights.len() != self.neurons[idx].weights.len() {
            return Err(LayerError::WeightsLengthMismatch);
        }
        self.neurons[idx].weights = weights;
        proof {
            assert forall|k: int| 0 <= k < self.neurons@.len() implies (#[trigger] self.neurons@[k]).wf()
                && self.neurons@[k].width() == self.input_size() by {
                assert(old(self).neurons@[k].wf());
                assert(old(self).neurons@[k].width() == old(self).input_size());
            }
        }
        Ok(())
    }

    /// The bias of neuron `idx`, or `NeuronIndexOutOfRange`.
    pub fn get_bias(&self, idx: usize) -> (r: Result<W, LayerError>)
        ensures
            idx < self.neurons@.len() ==> r == Ok::<W, LayerError>(self.neurons@[idx as int].bias),
            idx >= self.neurons@.len() ==> r == Err::<W, LayerError>(
                LayerError::NeuronIndexOutOfRange,
            ),
    {
        if idx < self.neurons.len() {
            Ok(self.neurons[idx].bias)
        } else {
            Err(LayerError::NeuronIndexOutOfRange)
        }
    }

    /// Replaces the bias of neuron `idx`; refused with `NeuronIndexOutOfRange`,
    /// the layer unchanged, when `idx` is out of range.
    pub fn set_bias(&mut self, idx: usize, bias: W) -> (r: Result<(), LayerError>)
        requires
            old(self).wf(),
        ensures
            final(self).wf(),
            final(self).same_config(*old(self)),
            idx >= old(self).neurons@.len() ==> r == Err::<(), LayerError>(
                LayerError::NeuronIndexOutOfRange,
            ) && final(self).neurons@ == old(self).neurons@,
            idx < old(self).neurons@.len() ==> r == Ok::<(), LayerError>(()) && final(self).neurons@
                == old(self).neurons@.update(
                idx as int,
                Neuron { bias: bias, ..old(self).neurons@[idx as int] },
            ),
    {
        if idx >= self.neurons.len() {
            return Err(LayerError::NeuronIndexOutOfRange);
        }
        self.neurons[idx].bias = bias;
        proof {
            assert forall|k: int| 0 <= k < self.neurons@.len() implies (#[trigger] self.neurons@[k]).wf()
                && self.neurons@[k].width() == self.input_size() by {
                assert(old(self).neurons@[k].wf());
                assert(old(self).neurons@[k].width() == old(self).input_size());
            }
        }
        Ok(())
    }

    /// The indices of the neurons that are not frozen, in increasing order:
    /// the neurons that an optimizer step may change.
    pub fn trainable_neurons(&self) -> (r: Vec<usize>)
        ensures
            enumerates(r@, self.neurons@.len(), self.unfrozen()),
    {
        let mask = self.get_frozen_mask();
        let mut r: Vec<usize> = Vec::new();
        let mut i: usize = 0;
        while i < mask.len()
            invariant
                mask@ == self.frozen_mask(),
                i <= mask@.len(),
                forall|k: int| 0 <= k < r@.len() ==> (#[trigger] r@[k]) < i && !self.neurons@[r@[k] as int].frozen,
                forall|k: int, j: int| 0 <= k < j < r@.len() ==> (#[trigger] r@[k]) < (#[trigger] r@[j]),
                forall|m: int| 0 <= m < i && !(#[trigger] self.neurons@[m]).frozen ==> r@.contains(m as usize),
            decreases mask@.len() - i,
        {
            if !mask[i] {
                proof {
                    assert forall|m: int| 0 <= m < i + 1 && !(#[trigger] self.neurons@[m]).frozen implies r@.push(i).contains(m as usize) by {
                        if m == i {
                            assert(r@.push(i)[r@.len() as int] == i);
                        } else {
                            let w = choose|w: int| 0 <= w < r@.len() && r@[w] == m as usize;
                            assert(r@.push(i)[w] == m as usize);
                        }
                    }
                }
                r.push(i);
            }
            i = i + 1;
        }
        r
    }

    /// The neurons that a layer update with `n_grads` gradients changes: the
    /// unfrozen ones, in order, when there is one gradient per neuron;
    /// otherwise `GradCountMismatch` and nothing is changed.
    pub fn update_plan(&self, n_grads: usize) -> (r: Result<Vec<usize>, LayerError>)
        ensures
            n_grads != self.neurons@.len() ==> r == Err::<Vec<usize>, LayerError>(
                LayerError::GradCountMismatch,
            ),
            n_grads == self.neurons@.len() ==> r is Ok && enumerates(
                r->Ok_0@,
                self.neurons@.len(),
                self.unfrozen(),
            ),
    {
        if n_grads != self.neurons.len() {
            Err(LayerError::GradCountMismatch)
        } else {
            Ok(self.trainable_neurons())
        }
    }
}

} // verus!
