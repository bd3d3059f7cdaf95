use deepwise::{Activation, OptimizerKind, Task};
use deepwise::activation::same_text;

#[test]
fn activation_names() {
    assert_eq!(Activation::from_name("tanh"), Some(Activation::Tanh));
    assert_eq!(Activation::from_name("relu"), Some(Activation::Relu));
    assert_eq!(Activation::from_name("sigmoid"), Some(Activation::Sigmoid));
    assert_eq!(Activation::from_name("linear"), Some(Activation::Linear));
    assert_eq!(Activation::from_name("Tanh"), None);
    assert_eq!(Activation::from_name(""), None);
    assert_eq!(Activation::from_name("softmax"), None);
}

#[test]
fn task_names() {
    assert_eq!(Task::from_name("binary"), Some(Task::Binary));
    assert_eq!(Task::from_name("multi"), Some(Task::Multi));
    assert_eq!(Task::from_name("regression"), Some(Task::Regression));
    assert_eq!(Task::from_name("classification"), None);
}

#[test]
fn optimizer_names() {
    assert_eq!(OptimizerKind::from_name("sgd"), Some(OptimizerKind::Sgd));
    assert_eq!(OptimizerKind::from_name("adam"), Some(OptimizerKind::Adam));
    assert_eq!(OptimizerKind::from_name("rmsprop"), None);
}

#[test]
fn probabilities_only_for_classification() {
    assert!(Task::Binary.has_probabilities());
    assert!(Task::Multi.has_probabilities());
    assert!(!Task::Regression.has_probabilities());
}

#[test]
fn text_comparison() {
    assert!(same_text("abc", "abc"));
    assert!(!same_text("abc", "abd"));
    assert!(!same_text("ab", "abc"));
}
