# bugstalker

The core of a debugger for Rust programs on x86-64 Linux, written in Verus:
every function under `src/` carries a contract that Verus proves.

- `src/debugger/debugee/dwarf/`: debug information — line tables and the
  places they describe, the entries of a unit as the reader hands them over
  (their tree, the blocks that enclose variables, the indexes of variables,
  types, declarations and functions), namespaces, type graphs
  (names, sizes, dependencies), symbol tables, the bytes of a value located in
  pieces, the evaluation requirements of location expressions, and the
  registers of calling frames.
- `src/debugger/debugee/`: shared libraries and their mappings, thread
  bookkeeping, and the decisions of the tracer: what each thread event means,
  each step of a group stop and of a single step.
- `src/debugger/register*`: register maps and the x86-64 debug registers.
- `src/debugger/step.rs`, `variable.rs`, `rust.rs`: stepping targets,
  variable rendering helpers, and the toolchain environment.
- `src/text.rs`: string helpers with their specifications.
- `tests/`: tests of the library.
- `app/`: what stays outside the proofs — `ptrace` and `/proc` access,
  running `ldd` and `rustup`, and the loop that drives the tracer.

Not part of the crate: decoding DWARF and ELF data (the reader that turns a
unit into records, the call-frame tables), the loop that evaluates location
expressions against the debugee, the walk that unwinds a stack frame by
frame, the stepping commands that chain single steps, and disassembly. The
library holds the decisions and data structures that these build on.
