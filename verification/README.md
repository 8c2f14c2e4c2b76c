# postman2openapi

A verified library that describes a Postman collection as an OpenAPI 3.0
interface. It is written in Verus: every function states what it gives, and the
statement is proved.

- `src/` is the library. `Transpiler::try_transpile` describes a collection, or
  says why it cannot be described; `Transpiler::transpile` is for collections
  that can, as `Transpiler::can_transpile` tells. `src/laws.rs` proves what
  holds of every description: its paths are those of the requests, each where
  it comes first, no path, server or parameter occurs twice, every operation
  has an identifier and a response for success, all that is required is
  declared, and the maps of a description stand in the order of their keys.
- `app/` is ordinary Rust around it: reading files and JSON documents, writing
  JSON and YAML, and the entry point for WebAssembly.
- `tests/` runs the library.

## Trust

The library calls `regex`, `serde_json`, `convert_case` and `indexmap`, and a
few functions of the standard library. Each call stands in a function of its
own, marked `external_body`, whose contract is believed. They are in
`pattern.rs`, `json.rs`, `casing.rs`, `openapi/v3_0.rs`, `text.rs` and
`number.rs`.

Floating point stays outside: the library keeps the literal of a
floating-point number that is finite, and `app/` makes the double.
