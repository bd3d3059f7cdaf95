use deepwise::layer::{Linear, Neuron};
use deepwise::network::layer_dims;
use deepwise::{Activation, Network, NetworkError, Task};

fn layer(width: usize, count: usize) -> Linear<f64> {
    let neurons = (0..count).map(|_| Neuron::new(vec![0.1; width], 0.0, Activation::Sigmoid)).collect();
    Linear::new(neurons, 0.0, 0.0)
}

fn net() -> Network<f64> {
    Network::new(vec![layer(3, 4), layer(4, 2), layer(2, 1)], Task::Binary)
}

#[test]
fn empty_network_is_regression() {
    let n: Network<f64> = Network::new_empty();
    assert_eq!(n.num_layers(), 0);
    assert_eq!(n.task, Task::Regression);
    assert!(n.update_targets().is_empty());
}

#[test]
fn set_task_by_name() {
    let mut n: Network<f64> = Network::new_empty();
    assert_eq!(n.set_task("multi"), Ok(()));
    assert_eq!(n.task, Task::Multi);
    assert_eq!(n.set_task("nonsense"), Err(NetworkError::InvalidTask));
    assert_eq!(n.task, Task::Multi);
}

#[test]
fn set_layers_replaces_layers() {
    let mut n: Network<f64> = Network::new_empty();
    n.set_layers(vec![layer(2, 2), layer(2, 1)]);
    assert_eq!(n.num_layers(), 2);
    assert_eq!(n.task, Task::Regression);
}

#[test]
fn probabilities_refused_for_regression() {
    let mut n = net();
    assert_eq!(n.check_probabilities(), Ok(()));
    n.task = Task::Regression;
    assert_eq!(n.check_probabilities(), Err(NetworkError::ProbabilitiesForRegression));
}

#[test]
fn freezing_layers_and_neurons() {
    let mut n = net();
    n.freeze_layer(1);
    assert_eq!(n.get_frozen_status(), vec![vec![false; 4], vec![true, true], vec![false]]);
    n.freeze_neuron(0, 2);
    assert_eq!(n.get_frozen_status(), vec![vec![false, false, true, false], vec![true, true], vec![false]]);
    n.unfreeze_neuron(1, 0);
    assert_eq!(n.get_frozen_status()[1], vec![false, true]);
    n.unfreeze_layer(1);
    assert_eq!(n.get_frozen_status()[1], vec![false, false]);
    n.freeze_layer(9);
    n.freeze_neuron(9, 0);
    n.freeze_neuron(0, 9);
    assert_eq!(n.get_frozen_status(), vec![vec![false, false, true, false], vec![false, false], vec![false]]);
}

#[test]
fn freeze_all_and_unfreeze_all_network() {
    let mut n = net();
    n.freeze_all();
    assert_eq!(n.get_frozen_status(), vec![vec![true; 4], vec![true; 2], vec![true]]);
    n.unfreeze_all();
    assert_eq!(n.get_frozen_status(), vec![vec![false; 4], vec![false; 2], vec![false]]);
}

#[test]
fn update_targets_skip_frozen_neurons() {
    let mut n = net();
    n.freeze_neuron(0, 1);
    n.freeze_layer(1);
    assert_eq!(n.update_targets(), vec![(0, 0), (0, 2), (0, 3), (2, 0)]);
}

#[test]
fn frozen_neuron_never_a_target() {
    let mut n = net();
    n.freeze_neuron(2, 0);
    assert!(!n.update_targets().contains(&(2, 0)));
}

#[test]
fn update_network_plan_cases() {
    let mut n = net();
    n.freeze_neuron(0, 0);
    let (t, r) = n.update_network_plan(&vec![4, 2, 1]);
    assert_eq!(r, Ok(()));
    assert_eq!(t, vec![(0, 1), (0, 2), (0, 3), (1, 0), (1, 1), (2, 0)]);
    let (t, r) = n.update_network_plan(&vec![4, 3, 1]);
    assert_eq!(r, Err(NetworkError::NeuronCountMismatch { layer: 1 }));
    assert_eq!(t, vec![(0, 1), (0, 2), (0, 3)]);
    let (t, r) = n.update_network_plan(&vec![1, 2, 1]);
    assert_eq!(r, Err(NetworkError::NeuronCountMismatch { layer: 0 }));
    assert!(t.is_empty());
    let (t, r) = n.update_network_plan(&vec![4, 2]);
    assert_eq!(r, Err(NetworkError::LayerCountMismatch));
    assert!(t.is_empty());
}

#[test]
fn zero_gradients_match_shape() {
    let n = net();
    let g = n.zero_gradients(0.0);
    assert_eq!(g.len(), 3);
    assert_eq!(g[0].len(), 4);
    assert_eq!(g[1].len(), 2);
    assert_eq!(g[2].len(), 1);
    assert_eq!(g[0][3], (vec![0.0; 3], 0.0));
    assert_eq!(g[1][0], (vec![0.0; 4], 0.0));
    assert_eq!(g[2][0], (vec![0.0; 2], 0.0));
}

#[test]
fn layer_dims_pairs_neighbours() {
    assert_eq!(layer_dims(&vec![3, 5, 2]), vec![(3, 5), (5, 2)]);
    assert_eq!(layer_dims(&vec![4]), Vec::<(usize, usize)>::new());
}

#[test]
fn full_update_plan_matches_training_targets() {
    let mut n = net();
    n.freeze_neuron(1, 1);
    n.freeze_neuron(0, 3);
    let (t, r) = n.update_network_plan(&vec![4, 2, 1]);
    assert_eq!(r, Ok(()));
    assert_eq!(t, n.update_targets());
    n.unfreeze_all();
    assert_eq!(n.update_targets().len(), 7);
}
