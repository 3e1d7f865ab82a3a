# bluejay_validator

Validation and analysis of GraphQL executable documents and schemas, written in
Verus: every function of the library states its result in its contract, and Verus
proves it.

- `src/schema.rs`, `src/document.rs`, `src/value.rs`, `src/integer.rs`: the model of
  schemas, executable documents and values the rules work on, with the source spans
  of the parts that errors point at.
- `src/report.rs`: an error as a message with a primary annotation and further
  annotations, each a text and a span.
- `src/executable/document/`: the validation rules of executable documents, each a
  function from a document and a schema to the errors it finds, and `validator.rs`,
  which runs them in turn; `message.rs` describes each error and `report.rs` annotates
  it.
- `src/executable/operation/`: the walk of an operation (`orchestrator.rs`), the laws
  of its shape (`matching.rs`, `ordering.rs`, `depth.rs`, `spreads.rs`), and the
  analyzers that fold over it: query depth, complexity cost, deprecations, input size.
- `src/definition/`: the validation rules of schemas, with their messages and reports.
- `app/`: reading schemas and documents with `bluejay_parser`, variable values from
  JSON, and the relay cost convention, whose float arithmetic stays outside the
  verified library.
- `tests/`: the scenarios of the rules and analyzers.
