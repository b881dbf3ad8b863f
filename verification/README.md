# panoramix_rs

An EVM decompiler whose core is verified with Verus: it reads bytecode given
as hexadecimal text, executes it symbolically, recovers loops, folds the
branchless paths of each function into structured code, simplifies the
arithmetic, and prints Solidity-like pseudocode.

## Layout

- `src/` — the verified library. Each module states its behaviour over
  mathematical models (`ExpV`, the value of an expression, and sequences and
  maps of such values) and proves its executable code against them:
  - `evm_core/` — expressions, algebraic simplification, masks, memory ranges;
  - `loader/` — hexadecimal decoding, disassembly and the opcode table;
  - `stack/`, `vm/` — the symbolic stack and the bounded symbolic execution;
  - `matcher/` — patterns over expressions;
  - `whiles.rs` — labels and jumps turned into `while` loops;
  - `folder/` — paths, their merge, and the folding of a trace;
  - `function/`, `sparser/`, `contract/` — functions, storage layout, contracts;
  - `prettify/`, `text.rs`, `decompiler/` — printing and the entry points.
- `tests/` — tests of the library on concrete inputs.
- `app/` — the command-line program, printing to standard output, and the
  JSON export of a contract.

Besides the contracts, the library proves laws such as: popping undoes a
push, swapping twice restores a stack, an expression matches the pattern that
spells it, turning `or`/`and` into lists and back is the identity, a trace
without branches folds to itself, simplification is idempotent and computes
constants, a contract lists each of its functions once by ascending
priority, post-processing keeps a contract's keys and sorts its constants
with all-caps names last, and a storage layout names each slot after its
first access.
