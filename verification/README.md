# tir

An intermediate representation for compilers, and the library around it, in
Verus: the functions of `src/` are verified against their contracts.

The IR is a graph of operations, values, blocks and regions behind one
`Context`. A region's body is either an ordered list of blocks or an unordered
set of nodes; dialects say what the operations mean.

## Layout

- `src/ir.rs`, `src/journal.rs`, `src/overlay.rs`: storage, what changed since
  an epoch, and edits that can be committed or dropped.
- `src/context/`: what a `Context` holds and every edit it offers. `sound.rs`
  states when its cross references are in order, `kept.rs` that edits keep it so,
  `owned.rs` what leaves the IR with an operation.
- `src/operation.rs`, `src/block.rs`, `src/builder.rs`, `src/interfaces.rs`:
  operations and blocks as users see them.
- `src/verify.rs`, `src/op_tree.rs`, `src/forks.rs`, `src/dependency.rs`: what
  makes IR valid.
- `src/ty.rs`, `src/attributes.rs`, `src/layout.rs`, `src/schema.rs`: types,
  attributes, and how data lies in memory.
- `src/parse/`, `src/ir_formatter.rs`, `src/form.rs`: the textual form. Printed
  types, branches, calls, declarations and the headers of functions are read back
  as what was printed; the body of a function is taken as the text it is.
- `src/dialects/`: the operations of the `builtin`, `func`, `cfg`, `scf`, `ptr`,
  `state`, `fp` and `vector` dialects.
- `src/binding.rs`: how a region is bound to the operation that holds it.
- `src/backend/`: register classes, register allocation, frames, and the checks
  on machine code.
- `src/graph/`, `src/sem.rs`: directed acyclic graphs and what is built in them.
- `src/interp/`: a machine that runs functions. An operation that does not
  evaluate itself is handed out, with the symbols its semantic expression reads.
- `src/memstats.rs`: reports on memory.
- `src/lives.rs`: how long a handle lives.
- `src/lists.rs`: short id lists on top of `smallvec`. Their contracts are taken on
  trust, as is how `Debug` spells a text (`src/text.rs`), and nothing else is.

`app/` is ordinary Rust around the library: errors as `std` errors, reports on
standard error, the registry of passes, and the loops that run the allocator and
the interpreter. `tests/` holds the tests.
