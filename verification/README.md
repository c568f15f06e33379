# jsonschema_rs

A JSON Schema (Draft 2020-12) validator whose behaviour is specified and
proved with Verus.

## Layout

- `src/` — the verified library.
  - `json.rs`, `number.rs`, `text.rs`: the JSON value model (objects keep
    their members in order; numbers are exact decimals), rendering and
    equality.
  - `validator.rs`: the validation engine.  `errors_of` specifies every
    error that a schema reports on an instance, including `$ref`
    resolution with cycle detection and a bound on reference chains;
    `ValidationContext` computes exactly those errors.
  - `keyword/`: one specification and one implementation per keyword.
  - `refs.rs`: JSON Pointers, anchors, `$id` lookup and the registry of
    external documents.
  - `compiler.rs`: `Validator`, which bundles a schema with the keyword and
    type registries.
  - `pattern.rs`: regular expressions, matched by the `regex` crate.
- `tests/`: tests run against the compiled library.
- `app/`: the command-line tool (`validate -s schema.json -d data.json`),
  which reads files with `serde_json` and converts them to the library's
  values.
