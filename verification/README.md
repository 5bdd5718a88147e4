# execution_tape

A portable, register-based bytecode tape, and graphs that run tapes incrementally. Verus proves the
library's code against its contracts. The methods of the traits that callers implement carry none.

## Tapes

| Modules | What they hold |
| --- | --- |
| `wire`, `text`, `container`, `decode`, `pack`, `program`, `roundtrip` | the container format: varints, sections, packing, and the proof that a decoded program is the one that was encoded |
| `host` | signatures of host calls and their hashes, the `Host` and `AccessSink` traits |
| `opcode`, `bytecode`, `assembler`, `builder` | instructions, their bytes, labels and spans, whole programs |
| `typing`, `faults`, `effects`, `verify`, `soundness` | the verifier, which error it reports first, and the proof that verified programs do not go wrong |
| `value`, `aggregates`, `ieee`, `eval`, `machine`, `vm`, `limits`, `alike`, `trap`, `trace`, `tracing` | the interpreter, as a step relation and as code, what its limits bound, what its runs rest on, and what a trace sink is told |
| `disasm`, `listing`, `digits`, `messages` | disassembly and text |

## Graphs

| Modules | What they hold |
| --- | --- |
| `access`, `names`, `keys`, `dirty`, `plan`, `report`, `strict` | keys, what is asked of the engine that tracks dirty ones, plans |
| `graph_model`, `graph`, `incremental` | what a graph is, its operations, and what incremental runs promise |
| `dot` | graphs as Graphviz DOT |

## Histories

What a host, a float unit, an engine or a callback answers is up to its implementation. So that
contracts can speak of the answers, each is held in a wrapper with a history: `strict::Watched`,
`ieee::Rounding`, `dirty::Tracker`, `graph::Callbacks` and `listing::FloatTexts`. Sinks are held in
`strict::Recorded` and `trace::Traced`. A run's contract says which calls it made, in which order, with
which arguments, and what followed from each answer. The states of what was called follow on each
other by these calls and by nothing else; `history` says what that means. Only of a callback, which is
a trait object, the history alone tells that it was called.

## What is left to the caller

- Rounding floating-point arithmetic comes from an implementation of `ieee::FloatUnit`, and the
  digits of floats from one of `listing::FloatWriter`. `app/` has both for the machine at hand.
- Which keys are affected by a change is decided by an implementation of `dirty::DirtyEngine`. The
  contracts of graphs say what is asked of it and what is done with each answer.
- Host calls come from an implementation of `host::Host`, native nodes from `graph::NativeNodeFn`.

The one trusted item is `text::str_from_utf8`, which calls `core::str::from_utf8`.
