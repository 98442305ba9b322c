# rustgrad

The bookkeeping of a small deep-learning framework, with its behaviour stated
in Verus contracts and proved.

`src/` is the verified library:

- `tensor` — shapes (non-empty lists of positive dimensions) and dense
  row-major tensors over any element type;
- `autograd` — the append-only computation graph, dependency-first
  topological order, and the reverse-mode backward pass, generic in the
  gradient rules it is given;
- `data` — named datasets of feature and target matrices, samples, batches,
  one-hot vectors;
- `optim` — gradient sets and the checks optimizers run before an update;
- `serialize` — the plain-text checkpoint format: writing a tensor and reading
  it back, with the round trip proved;
- `cli`, `options` — commands, the option grammar of the training commands,
  help and error texts;
- `error`, `text`, `nn`, `loss`, `report`, `train` — error values and
  messages, text helpers, names and small rules shared by the rest.

`app/` holds what works on `f64` values: activations, losses, optimizer
updates, generated datasets, metrics and report formatting, and the file
handling of checkpoints. `tests/` exercises the library through its public
interface.

Left out: the training loops, the models they train, saving and loading
model checkpoints, the command runner that executes the parsed commands, and
the numeric gradient of each operation. All of them are built on code that is
defined nowhere in this codebase: the layer types (`Linear`, `Module`), tensor
arithmetic (`add`, `mul`, `div`, `matmul`, `transpose`, `sum`, `get`), and the
graph helpers that seed a chosen gradient, take gradients out and write history
bundles. What of it is decision rather than arithmetic stays in `src/`: the
option grammar, the checkpoint format, `autograd::gradient_rule` (which rule an
operation gets, and the error for one that has none) and the backward pass,
which takes the numeric rules from its caller.
