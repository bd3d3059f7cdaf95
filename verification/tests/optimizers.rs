use deepwise::{Adam, AdamState, SGD};

#[test]
fn sgd_keeps_learning_rate() {
    let s = SGD::new(0.05);
    assert_eq!(s.learning_rate, 0.05);
}

#[test]
fn adam_new_has_no_state() {
    let a = Adam::new(0.001, 0.9, 0.999, 1e-8);
    assert_eq!(a.learning_rate(), 0.001);
    assert_eq!(a.beta1(), 0.9);
    assert_eq!(a.beta2(), 0.999);
    assert_eq!(a.epsilon(), 1e-8);
    assert_eq!(a.len(), 0);
    assert_eq!(a.steps_taken("layer_0_neuron_0"), 0);
}

#[test]
fn adam_state_new_is_zero() {
    let s = AdamState::new(3, 0.0);
    assert_eq!(s.m_w, vec![0.0; 3]);
    assert_eq!(s.v_w, vec![0.0; 3]);
    assert_eq!(s.m_b, 0.0);
    assert_eq!(s.v_b, 0.0);
    assert_eq!(s.t, 0);
}

#[test]
fn adam_counts_steps_per_id() {
    let mut a = Adam::new(0.001, 0.9, 0.999, 1e-8);
    let k0 = a.begin_step("n0", 2, 0.0);
    assert_eq!(k0, 0);
    assert_eq!(a.state(0).t, 1);
    assert_eq!(a.state(0).m_w, vec![0.0, 0.0]);
    a.set_moments(0, vec![0.1, 0.2], vec![0.3, 0.4], 0.5, 0.6);
    assert_eq!(a.state(0).t, 1);
    let k1 = a.begin_step("n1", 3, 0.0);
    assert_eq!(k1, 1);
    assert_eq!(a.state(1).v_w, vec![0.0; 3]);
    let k0b = a.begin_step("n0", 2, 0.0);
    assert_eq!(k0b, 0);
    assert_eq!(a.steps_taken("n0"), 2);
    assert_eq!(a.steps_taken("n1"), 1);
    assert_eq!(a.steps_taken("n2"), 0);
    assert_eq!(a.state(0).m_w, vec![0.1, 0.2]);
    assert_eq!(a.state(0).v_b, 0.6);
    assert_eq!(a.len(), 2);
}
