use vstd::prelude::*;

verus! {

/// The activation function applied by every neuron of a layer.
#[derive(Debug, Clone, Copy, PartialEq, Eq, Structural)]
pub enum Activation {
    Tanh,
    Relu,
    Linear,
    Sigmoid,
}

/// The activation that a name denotes, as the bindings accept it.
pub open spec fn activation_named(name: Seq<char>) -> Option<Activation> {
    if name == "tanh"@ {
        Some(Activation::Tanh)
    } else if name == "relu"@ {
        Some(Activation::Relu)
    } else if name == "sigmoid"@ {
        Some(Activation::Sigmoid)
    } else if name == "linear"@ {
        Some(Activation::Linear)
    } else {
        None
    }
}

/// Whether two strings hold the same characters.
pub fn same_text(a: &str, b: &str) -> (r: bool)
    ensures
        r == (a@ == b@),
{
    let a_owned = a.to_owned();
    let b_owned = b.to_owned();
    a_owned == b_owned
}

impl Activation {
    /// Parses an activation name: `"tanh"`, `"relu"`, `"sigmoid"` or
    /// `"linear"`; any other name is refused with `None`.
    pub fn from_name(name: &str) -> (r: Option<Activation>)
        ensures
            r == activation_named(name@),
    {
        if same_text(name, "tanh") {
            Some(Activation::Tanh)
        } else if same_text(name, "relu") {
            Some(Activation::Relu)
        } else if same_text(name, "sigmoid") {
            Some(Activation::Sigmoid)
        } else if same_text(name, "linear") {
            Some(Activation::Linear)
        } else {
            None
        }
    }
}

} // verus!
