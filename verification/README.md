# zkrust

zkRust proves the execution of a Rust program with a zkVM (SP1, RISC Zero,
Jolt) and can submit the proof to Aligned. A user's program has a `main()`
that runs inside the zkVM and optional `input()` and `output()` functions
that run on the host; `zk_rust_io::read/commit/write/out` mark the I/O
between them.

Layout:

- `src/` — the verified library (Verus). `text` holds the character-level
  operations (search, replacement, trimming, lines, words); `utils` the
  rewriting shared by all back ends (imports, function bodies, markers,
  guest programs, manifests, directory layout); `sp1`, `risc0` and `jolt` the
  back ends; `interaction` the code generated for a chosen guest function;
  `aligned` the decisions of a submission to Aligned and the record it saves;
  `guest` the sample guest program; `zk_rust_io` the I/O markers.
- `app/` — the command line: files, processes, prompts and network calls
  around the library.
- `tests/` — tests of the library on concrete inputs.
