# acm

The verified core of a competitive-programming judge. Submissions are C++
functions compiled to WebAssembly; the judge passes them arguments through
guest memory in the layout clang gives C++ values, reads their results back,
compares them with the expected outputs, and reports the results.

## Layout

- `src/` — the library, verified with Verus.
  - `bytes.rs`: little-endian integers (through `byteorder`) and lossy UTF-8.
  - `layout.rs`: C++ values in guest memory: what a value asks the guest's
    allocator for, the writes that store it, and reading a value back.
  - `roundtrip.rs`: applying writes to memory, and the proof that storing a
    value and reading it back gives the value again.
  - `function.rs`: the values and types of judged functions, and how a call
    is carried out (direct parameters, stored arguments, the result).
  - `diagnostics.rs`, `text.rs`: clang's diagnostics for a submission.
  - `judge.rs`: test results, the fuel limit and the report of a submission.
  - `compile.rs`: build paths and reuse of an unchanged build (through `md5`).
  - `complexity.rs`: growth classes and the transposition of measurements.
  - `auth.rs`, `service.rs`: access rules, error answers and problem listings
    of the web service.
  - `words.rs`, `convert.rs`: reading tests kept in the old text format.
  - `laws.rs`: laws that relate several operations.
- `tests/` — tests of the library.
- `app/` — the command-line runner: compiling with clang, running on
  wasmtime, JSON in and out.
