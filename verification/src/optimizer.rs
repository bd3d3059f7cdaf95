use vstd::prelude::*;
use crate::layer::filled;

verus! {

/// Plain stochastic gradient descent: every unfrozen parameter moves
/// against its gradient, scaled by the learning rate.
pub struct SGD<W> {
    pub learning_rate: W,
}

impl<W: Copy> SGD<W> {
    /// An SGD optimizer with the given learning rate.
    pub fn new(learning_rate: W) -> (s: SGD<W>)
        ensures
            s.learning_rate == learning_rate,
    {
        SGD { learning_rate }
    }
}

/// The moment estimates that Adam keeps for one neuron, and the number of
/// steps taken for it.
#[derive(Clone)]
pub struct AdamState<W> {
    pub m_w: Vec<W>,
    pub v_w: Vec<W>,
    pub m_b: W,
    pub v_b: W,
    pub t: usize,
}

impl<W: Copy> AdamState<W> {
    /// The state of a neuron with `weights_len` weights before its first
    /// step: all moments `zero`, no step taken.
    pub fn new(weights_len: usize, zero: W) -> (s: AdamState<W>)
        ensures
            s.m_w@ == Seq::new(weights_len as nat, |i: int| zero),
            s.v_w@ == Seq::new(weights_len as nat, |i: int| zero),
            s.m_b == zero,
            s.v_b == zero,
            s.t == 0,
    {
        AdamState {
            m_w: filled(zero, weights_len),
            v_w: filled(zero, weights_len),
            m_b: zero,
            v_b: zero,
            t: 0,
        }
    }
}

/// The Adam optimizer: its hyper-parameters and one state per neuron id.
///
/// The states are kept in order of first use; no id occurs twice.
pub struct Adam<W> {
    learning_rate: W,
    beta1: W,
    beta2: W,
    epsilon: W,
    states: Vec<(String, AdamState<W>)>,
}

impl<W> Adam<W> {
    /// The learning rate, `beta1`, `beta2` and `epsilon`.
    pub closed spec fn hyper_parameters(self) -> (W, W, W, W) {
        (self.learning_rate, self.beta1, self.beta2, self.epsilon)
    }

    /// The number of neuron states held.
    pub closed spec fn num_states(self) -> nat {
        self.states@.len()
    }

    /// The id of the state at position `k`.
    pub closed spec fn id_at(self, k: int) -> Seq<char> {
        self.states@[k].0@
    }

    /// The state at position `k`.
    pub closed spec fn state_at(self, k: int) -> AdamState<W> {
        self.states@[k].1
    }

    /// The ids that have a state, in order of first use.
    pub open spec fn ids(self) -> Seq<Seq<char>> {
        Seq::new(self.num_states(), |k: int| self.id_at(k))
    }

    /// No id has two states.
    #[verifier::type_invariant]
    spec fn ids_distinct(self) -> bool {
        self.ids().no_duplicates()
    }

    /// Whether `id` has a state.
    pub open spec fn has_state(self, id: Seq<char>) -> bool {
        exists|k: int| 0 <= k < self.num_states() && #[trigger] self.id_at(k) == id
    }

    /// The position of the state of `id` (meaningful when it has one).
    pub open spec fn position(self, id: Seq<char>) -> int {
        choose|k: int| 0 <= k < self.num_states() && #[trigger] self.id_at(k) == id
    }

    /// The number of steps taken for `id`; zero when it has no state.
    pub open spec fn step_count(self, id: Seq<char>) -> nat {
        if self.has_state(id) {
            self.state_at(self.position(id)).t as nat
        } else {
            0
        }
    }
}

/// `s` has the moments of `m` and the step count `t`.
pub open spec fn moments_of<W>(s: AdamState<W>, m: AdamState<W>, t: usize) -> bool {
    &&& s.m_w@ == m.m_w@
    &&& s.v_w@ == m.v_w@
    &&& s.m_b == m.m_b
    &&& s.v_b == m.v_b
    &&& s.t == t
}

impl<W: Copy> Adam<W> {
    /// An Adam optimizer with the given hyper-parameters and no state yet.
    pub fn new(learning_rate: W, beta1: W, beta2: W, epsilon: W) -> (a: Adam<W>)
        ensures
            a.hyper_parameters() == (learning_rate, beta1, beta2, epsilon),
            a.num_states() == 0,
    {
        Adam { learning_rate, beta1, beta2, epsilon, states: Vec::new() }
    }

    /// The learning rate.
    pub fn learning_rate(&self) -> (r: W)
        ensures
            r == self.hyper_parameters().0,
    {
        self.learning_rate
    }

    /// The decay rate of the first moment estimates.
    pub fn beta1(&self) -> (r: W)
        ensures
            r == self.hyper_parameters().1,
    {
        self.beta1
    }

    /// The decay rate of the second moment estimates.
    pub fn beta2(&self) -> (r: W)
        ensures
            r == self.hyper_parameters().2,
    {
        self.beta2
    }

    /// The term that keeps the step's denominator away from zero.
    pub fn epsilon(&self) -> (r: W)
        ensures
            r == self.hyper_parameters().3,
    {
        self.epsilon
    }

    /// The number of neuron states held.
    pub fn len(&self) -> (n: usize)
        ensures
            n == self.num_states(),
    {
        self.states.len()
    }

    /// The position of the state of `id`, if it has one.
    fn find(&self, id: &String) -> (r: Option<usize>)
        ensures
            r is None ==> !self.has_state(id@),
            r is Some ==> r->Some_0 < self.num_states() && self.id_at(r->Some_0 as int) == id@
                && r->Some_0 == self.position(id@),
    {
        proof {
            use_type_invariant(self);
        }
        let mut k: usize = 0;
        while k < self.states.len()
            invariant
                self.ids().no_duplicates(),
                k <= self.num_states(),
                forall|j: int| 0 <= j < k ==> #[trigger] self.id_at(j) != id@,
            decreases self.num_states() - k,
        {
            if self.states[k].0 == *id {
                proof {
                    let p = self.position(id@);
                    assert(self.id_at(k as int) == id@);
                    assert(self.id_at(p) == id@);
                    assert(self.ids()[p] == self.ids()[k as int]);
                }
                return Some(k);
            }
            k = k + 1;
        }
        None
    }

    /// The number of steps taken so far for the neuron `id`.
    pub fn steps_taken(&self, id: &str) -> (n: usize)
        ensures
            n == self.step_count(id@),
    {
        let key = id.to_owned();
        match self.find(&key) {
            Some(k) => self.states[k].1.t,
            None => 0,
        }
    }

    /// The state at position `k`.
    pub fn state(&self, k: usize) -> (s: &AdamState<W>)
        requires
            k < self.num_states(),
        ensures
            *s == self.state_at(k as int),
    {
        &self.states[k].1
    }

    /// Starts an optimizer step for the neuron `id` with `weights_len`
    /// weights: creates its state (moments `zero`) on its first step, counts
    /// the step, and returns the position of its state. No other id's state
    /// changes.
    pub fn begin_step(&mut self, id: &str, weights_len: usize, zero: W) -> (k: usize)
        requires
            old(self).step_count(id@) < usize::MAX,
        ensures
            final(self).hyper_parameters() == old(self).hyper_parameters(),
            k < final(self).num_states(),
            final(self).id_at(k as int) == id@,
            final(self).step_count(id@) == old(self).step_count(id@) + 1,
            forall|x: Seq<char>| x != id@ ==> #[trigger] final(self).step_count(x) == old(self).step_count(x),
            old(self).has_state(id@) ==> {
                &&& k == old(self).position(id@)
                &&& final(self).num_states() == old(self).num_states()
                &&& moments_of(final(self).state_at(k as int), old(self).state_at(k as int), (old(self).step_count(id@) + 1) as usize)
            },
            !old(self).has_state(id@) ==> {
                &&& k == old(self).num_states()
                &&& final(self).num_states() == old(self).num_states() + 1
                &&& final(self).state_at(k as int).m_b == zero
                &&& final(self).state_at(k as int).v_b == zero
                &&& final(self).state_at(k as int).t == 1
                &&& final(self).state_at(k as int).m_w@ == Seq::new(weights_len as nat, |i: int| zero)
                &&& final(self).state_at(k as int).v_w@ == Seq::new(weights_len as nat, |i: int| zero)
            },
            forall|j: int|
                0 <= j < old(self).num_states() && j != k ==> #[trigger] final(self).state_at(j)
                    == old(self).state_at(j) && final(self).id_at(j) == old(self).id_at(j),
    {
        proof {
            use_type_invariant(&*self);
        }
        let key = id.to_owned();
        let found = self.find(&key);
        let ghost before = *self;
        let mut states: Vec<(String, AdamState<W>)> = Vec::new();
        std::mem::swap(&mut states, &mut self.states);
        assert(states@ == before.states@);
        let k = match found {
            Some(k) => k,
            None => {
                states.push((key, AdamState::new(weights_len, zero)));
                states.len() - 1
            },
        };
        let ghost mid = states@;
        let t = states[k].1.t;
        states[k].1.t = t + 1;
        proof {
            assert(states@[k as int].0 == mid[k as int].0);
            assert forall|j: int| 0 <= j < states@.len() && j != k implies states@[j] == mid[j] by {}
            let ids = Seq::new(states@.len(), |q: int| states@[q].0@);
            assert forall|a: int, b: int| 0 <= a < ids.len() && 0 <= b < ids.len() && a != b implies ids[a] != ids[b] by {
                if found is None {
                    if a == before.num_states() as int {
                        assert(before.id_at(b) != id@) by {
                            assert(!before.has_state(id@));
                        }
                        assert(ids[b] == before.id_at(b));
                    } else if b == before.num_states() as int {
                        assert(before.id_at(a) != id@) by {
                            assert(!before.has_state(id@));
                        }
                        assert(ids[a] == before.id_at(a));
                    } else {
                        assert(before.ids()[a] != before.ids()[b]);
                    }
                } else {
                    assert(before.ids()[a] != before.ids()[b]);
                }
            }
            let next = Adam {
                learning_rate: self.learning_rate,
                beta1: self.beta1,
                beta2: self.beta2,
                epsilon: self.epsilon,
                states: states,
            };
            assert(next.ids() =~= ids);
            assert(next.ids_distinct());
        }
        self.states = states;
        proof {
            assert(self.ids().no_duplicates()) by {
                assert forall|a: int, b: int| 0 <= a < self.ids().len() && 0 <= b < self.ids().len() && a != b implies self.ids()[a] != self.ids()[b] by {
                    let ids = Seq::new(self.states@.len(), |q: int| self.states@[q].0@);
                    assert(self.ids()[a] == ids[a]);
                    assert(self.ids()[b] == ids[b]);
                }
            }
            assert(self.id_at(k as int) == id@);
            assert(self.has_state(id@));
            assert(self.ids()[self.position(id@)] == self.ids()[k as int]);
            assert forall|x: Seq<char>| x != id@ implies #[trigger] self.step_count(x) == before.step_count(x) by {
                if before.has_state(x) {
                    let p = before.position(x);
                    assert(self.id_at(p) == x);
                    assert(self.has_state(x));
                    let q = self.position(x);
                    assert(self.ids()[p] == self.ids()[q]);
                } else {
                    if self.has_state(x) {
                        let q = self.position(x);
                        assert(q != k);
                        assert(before.id_at(q) == x);
                    }
                }
            }
        }
        k
    }

    /// Stores new moment estimates in the state at position `k`, keeping its
    /// id and step count.
    pub fn set_moments(&mut self, k: usize, m_w: Vec<W>, v_w: Vec<W>, m_b: W, v_b: W)
        requires
            k < old(self).num_states(),
        ensures
            final(self).hyper_parameters() == old(self).hyper_parameters(),
            final(self).num_states() == old(self).num_states(),
            final(self).ids() == old(self).ids(),
            final(self).state_at(k as int).m_w@ == m_w@,
            final(self).state_at(k as int).v_w@ == v_w@,
            final(self).state_at(k as int).m_b == m_b,
            final(self).state_at(k as int).v_b == v_b,
            final(self).state_at(k as int).t == old(self).state_at(k as int).t,
            forall|j: int|
                0 <= j < old(self).num_states() && j != k ==> #[trigger] final(self).state_at(j)
                    == old(self).state_at(j),
            forall|x: Seq<char>| #[trigger] final(self).step_count(x) == old(self).step_count(x),
    {
        proof {
            use_type_invariant(&*self);
        }
        let ghost before = *self;
        let mut states: Vec<(String, AdamState<W>)> = Vec::new();
        std::mem::swap(&mut states, &mut self.states);
        let t = states[k].1.t;
        states[k].1 = AdamState { m_w, v_w, m_b, v_b, t };
        proof {
            let next = Adam {
                learning_rate: self.learning_rate,
                beta1: self.beta1,
                beta2: self.beta2,
                epsilon: self.epsilon,
                states: states,
            };
            assert(next.ids() =~= before.ids());
            assert(next.ids_distinct());
        }
        self.states = states;
        proof {
            assert(self.ids() =~= before.ids());
            assert forall|x: Seq<char>| #[trigger] self.step_count(x) == before.step_count(x) by {
                if before.has_state(x) {
                    let p = before.position(x);
                    assert(self.id_at(p) == x);
                    assert(self.has_state(x));
                    let q = self.position(x);
                    assert(self.ids()[p] == self.ids()[q]);
                    assert(self.ids()[p] == before.ids()[p]);
                } else {
                    if self.has_state(x) {
                        let q = self.position(x);
                        assert(before.id_at(q) == x);
                    }
                }
            }
        }
    }
}

} // verus!
