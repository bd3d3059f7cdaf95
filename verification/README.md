# deepwise

A small neural-network library with Python bindings, split in two:

- `src/` is the verified core (Verus). It is generic over the scalar type of
  the parameters and holds the layer and network containers with their shape
  invariants, neuron freezing, parameter access, the parsing of activation,
  task and optimizer names, the training schedule (shuffled sample order,
  mini-batch split, dropout and sampling masks, which neurons an update
  changes, when progress is reported), the per-neuron step bookkeeping of
  Adam and the MessagePack encoding of saved models.
  - `activation.rs`, `task.rs`: the enums and their names.
  - `layer.rs`: `Neuron`, `Linear`, freezing and parameter access.
  - `network.rs`: `Network`, layer-level freezing, update plans.
  - `schedule.rs`: shuffling, batches, masks.
  - `optimizer.rs`: `SGD`, `Adam` and its per-neuron states.
  - `saveload.rs`: MessagePack encoding and decoding of models.
  - `laws.rs`: properties that span several operations.
- `app/` is plain Rust around it: the floating-point passes (activations,
  forward and backward, losses, training, prediction, the optimizers'
  arithmetic, normalisers), the Python classes and file I/O.
- `tests/` exercises the library on concrete values.
