# rust_to_prolog

A compiler for a Prolog subset that targets the LAM (Logic Abstract
Machine) bytecode, together with a reference VM that runs it. Every
stage is verified with Verus:

tokenize → parse → compile (WAM-style) → emit `.lam` text →
assemble to 32-bit cells → run on the reference VM.

## Layout

- `src/tokenize.rs`, `src/parse.rs`: tokens and Horn-clause terms, with
  the atom and variable tables; `src/clause_wf.rs`: the shape of every
  parsed clause.
- `src/compile.rs`: register classification, head/body/query code,
  `TRY`/`RETRY`/`TRUST` dispatchers.
- `src/emit.rs`, `src/text.rs`: the `.lam` text format.
- `src/assembler/`: the two-pass assembler from `.lam` text to cells,
  and the flat and listing outputs.
- `src/refvm/`: tagged heap cells, unification with a trail, choice
  points, the instruction dispatcher and the builtins; `chains.rs`
  shows that on a heap without reference cycles the trail undoes a
  unification.
- `src/port/`: the bounded containers the pipeline is written on.
- `src/runner.rs`, `src/demos.rs`, `src/ui.rs`: the whole pipeline on a
  source string, the bundled demo programs, and the demo page's event
  handling.
- `src/laws.rs`: properties that span several functions (undoing
  bindings, output growth, instruction widths, the two assembler
  passes agreeing).
- `app/`: the `prologc` and `lamasm` command-line tools (file I/O,
  argument parsing, error messages).

The tokenizer reads `+`, `-`, `<`, `>` and `=` as operator tokens, so a
`-` that stands alone (as in `N - 1`) is infix minus, not an error.

Dereference, unification and term printing carry a step budget large
enough for any heap without cycles; on a cyclic heap they stop with a
result instead of running forever.

Verus verifies everything under `src/`; `tests/` holds executable
tests of the library.
