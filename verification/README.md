# stainless_compiler

Verified core of the Stainless compiler, a C++-flavoured language that
compiles to Rust, and of its Cargo build integration.

- `src/` is verified with Verus:
  - `ast`, `hir`: the syntax tree and the backend IR;
  - `interop`: native Rust bindings: the registry model, the standard
    bindings, and native binding manifests (Rust paths and types are
    checked with `syn`);
  - `resolution`: the facts name resolution records about a file;
  - `last_uses`, `ownership`: the last use of every binding, and move and
    borrow validation;
  - `hir_lowering`: control-flow exits, generated names, module placement,
    and the lowering of resolved types to backend types;
  - `codegen`: decisions of the Rust back end and the Rust text of types,
    parameters, fields, function and method signatures, interface traits
    and their implementations, JSON conversions, exception impls,
    native binding wrappers, operators, numbered temporaries, exception
    propagation and the unwrapping of native `Result`s;
  - `lowering`: the syntax-tree facts lowering relies on;
  - `cargo_build`: the build-script `Builder`.
- Not here: lowering whole functions and expressions to the backend IR
  (it reads resolution facts about classes, interfaces, pointers and
  struct layouts that `resolution` does not model); emitting whole
  statements and expressions; and parsing, which is the `stainless_syntax`
  crate's.
- `app/` is the unverified shell: reading manifests with `toml` and `serde`,
  reading sources, and driving a build.
- `tests/` exercises the library through its public API.
