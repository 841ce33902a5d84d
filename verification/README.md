# sokonanoda

The input side of an external checker for Lean. The host hands over addresses
of its runtime objects; this library reads them, imports names, levels and
expressions into a persistent hash-consed arena, decodes declarations and
constant infos, collects what they depend on, and describes the objects that
are handed back. The library is written in Verus, and its contracts are proved.

## Layout

- `src/memory.rs`, `src/lean_sys.rs`: memory as bytes under addresses, the
  layout of runtime objects, and the builders of new ones.
- `src/plan.rs`, `src/built.rs`: a new object as the runtime calls that build it,
  what it then stands for, and how it then lies in memory.
- `src/term.rs`: typed views of names, levels and expressions, and the trees
  that live objects stand for.
- `src/big.rs`: natural numbers of any size, with digits from `num_bigint`.
- `src/util.rs`, `src/name.rs`, `src/level.rs`, `src/expr.rs`: the arena and
  its nodes.
- `src/model.rs`, `src/arena.rs`: what an import does to the arena, over trees,
  and that the arena stays one.
- `src/importer.rs`, `src/decode.rs`, `src/env.rs`, `src/walk.rs`: imports,
  declarations, and dependencies.
- `src/extck.rs`, `src/kernel_err.rs`, `src/text.rs`: the decisions at the entry
  points, structured errors, and numbers written out.
- `src/laws.rs`, `src/decode_laws.rs`: what holds of imports and of decoding as a
  whole.
- `app/`: live memory, the calls into the host's runtime, the callback tables.

## What is proved

An import gives the pointer, the arena and the error message that `model.rs`
says for the tree behind the address, whatever the memo holds. What was imported
can be read back, stays where it is, and has one pointer; importing it again
adds nothing. `num_loose_bvars` is the number of binders that would close the
term. The names that are collected from expressions are those of the constants
that the expressions mention.
