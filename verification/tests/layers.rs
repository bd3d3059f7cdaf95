use deepwise::layer::{LayerError, Linear, Neuron, copied, filled, true_indices};
use deepwise::Activation;

fn layer(widths: usize, count: usize) -> Linear<f64> {
    let mut neurons = Vec::new();
    for k in 0..count {
        let w: Vec<f64> = (0..widths).map(|i| (k * 10 + i) as f64).collect();
        neurons.push(Neuron::new(w, 0.0, Activation::Relu));
    }
    Linear::new(neurons, 0.25, 0.5)
}

#[test]
fn neuron_new_has_zeroed_state() {
    let n = Neuron::new(vec![0.5, -0.5, 1.5], 0.0, Activation::Tanh);
    assert_eq!(n.weights, vec![0.5, -0.5, 1.5]);
    assert_eq!(n.bias, 0.0);
    assert_eq!(n.activation, Activation::Tanh);
    assert!(!n.frozen);
    assert!(n.last_input.is_none());
    assert!(n.last_output.is_none());
    assert_eq!(n.grad_weights_buffer, vec![0.0, 0.0, 0.0]);
    assert_eq!(n.d_inputs_buffer, vec![0.0, 0.0, 0.0]);
}

#[test]
fn linear_new_defaults() {
    let l = layer(2, 3);
    assert_eq!(l.num_neurons(), 3);
    assert_eq!(l.dropout_rate, 0.25);
    assert_eq!(l.sampling_rate, 0.5);
    assert!(l.mask.is_none());
    assert!(l.sampling_mask.is_none());
    assert!(!l.training_mode);
    assert!(l.sampling_scale);
    assert_eq!(l.sampling_strategy, "random");
}

#[test]
fn freeze_and_unfreeze_single_neuron() {
    let mut l = layer(2, 3);
    assert_eq!(l.get_frozen_mask(), vec![false, false, false]);
    l.freeze_neuron(1);
    assert_eq!(l.get_frozen_mask(), vec![false, true, false]);
    l.freeze_neuron(7);
    assert_eq!(l.get_frozen_mask(), vec![false, true, false]);
    l.unfreeze_neuron(1);
    assert_eq!(l.get_frozen_mask(), vec![false, false, false]);
    assert_eq!(l.neurons[1].weights, vec![10.0, 11.0]);
}

#[test]
fn freeze_all_and_unfreeze_all() {
    let mut l = layer(1, 4);
    l.freeze_all();
    assert_eq!(l.get_frozen_mask(), vec![true; 4]);
    l.unfreeze_all();
    assert_eq!(l.get_frozen_mask(), vec![false; 4]);
}

#[test]
fn freeze_unfreeze_restores_layer() {
    let mut l = layer(2, 2);
    let before: Vec<Vec<f64>> = l.neurons.iter().map(|n| n.weights.clone()).collect();
    l.freeze_neuron(0);
    l.unfreeze_neuron(0);
    let after: Vec<Vec<f64>> = l.neurons.iter().map(|n| n.weights.clone()).collect();
    assert_eq!(before, after);
    assert_eq!(l.get_frozen_mask(), vec![false, false]);
}

#[test]
fn weights_get_and_set() {
    let mut l = layer(2, 2);
    assert_eq!(l.get_weights(1), Ok(vec![10.0, 11.0]));
    assert_eq!(l.get_weights(2), Err(LayerError::NeuronIndexOutOfRange));
    assert_eq!(l.set_weights(0, vec![7.0, 8.0]), Ok(()));
    assert_eq!(l.get_weights(0), Ok(vec![7.0, 8.0]));
    assert_eq!(l.get_weights(1), Ok(vec![10.0, 11.0]));
    assert_eq!(l.set_weights(0, vec![1.0]), Err(LayerError::WeightsLengthMismatch));
    assert_eq!(l.get_weights(0), Ok(vec![7.0, 8.0]));
    assert_eq!(l.set_weights(5, vec![1.0, 2.0]), Err(LayerError::NeuronIndexOutOfRange));
}

#[test]
fn bias_get_and_set() {
    let mut l = layer(2, 2);
    assert_eq!(l.get_bias(0), Ok(0.0));
    assert_eq!(l.set_bias(1, 3.5), Ok(()));
    assert_eq!(l.get_bias(1), Ok(3.5));
    assert_eq!(l.get_bias(0), Ok(0.0));
    assert_eq!(l.set_bias(2, 1.0), Err(LayerError::NeuronIndexOutOfRange));
    assert_eq!(l.get_bias(2), Err(LayerError::NeuronIndexOutOfRange));
}

#[test]
fn trainable_neurons_skip_frozen() {
    let mut l = layer(1, 5);
    l.freeze_neuron(1);
    l.freeze_neuron(3);
    assert_eq!(l.trainable_neurons(), vec![0, 2, 4]);
    l.freeze_all();
    assert_eq!(l.trainable_neurons(), Vec::<usize>::new());
}

#[test]
fn update_plan_checks_gradient_count() {
    let mut l = layer(1, 3);
    l.freeze_neuron(0);
    assert_eq!(l.update_plan(3), Ok(vec![1, 2]));
    assert_eq!(l.update_plan(2), Err(LayerError::GradCountMismatch));
    assert_eq!(l.update_plan(4), Err(LayerError::GradCountMismatch));
}

#[test]
fn filled_and_copied() {
    assert_eq!(filled(2.5, 3), vec![2.5, 2.5, 2.5]);
    assert_eq!(filled(1u8, 0), Vec::<u8>::new());
    let v = vec![1.0, -2.0];
    assert_eq!(copied(&v), v);
}

#[test]
fn true_indices_lists_kept_positions() {
    assert_eq!(true_indices(&vec![true, false, true, true, false]), vec![0, 2, 3]);
    assert_eq!(true_indices(&vec![false, false]), Vec::<usize>::new());
    assert_eq!(true_indices(&vec![]), Vec::<usize>::new());
}

#[test]
fn full_layer_plan_matches_trainable_neurons() {
    let mut l = layer(2, 4);
    l.freeze_neuron(2);
    assert_eq!(l.update_plan(4), Ok(l.trainable_neurons()));
}
