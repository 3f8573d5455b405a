# synapse

Synapse is a small language (`.mnm` files) for declaring the memory of an AI
agent: memories with typed fields, handlers of events, queries, update rules,
policies and channels. This crate is its front end, the interpreter of
handler bodies, and the decisions of its runtime (configuration, routing of
queries over the stores, dispatch of channel events), written in Verus:
every function in `src/` carries a contract that Verus proves. The stores,
the models and the HTTP server that a running runtime talks to are not part
of it: the interpreter hands that work to its caller as requests.

## Layout

- `src/lexer.rs`, `src/grammar.rs`, `src/parser.rs`, `src/statements.rs`,
  `src/items.rs`: the tokens of the language and its grammar as
  specifications, and a lexer and parser proved to follow them.
- `src/typeck.rs`: the type checker; its messages are stated as a function of
  the program.
- `src/ast.rs`, `src/ast_copy.rs`, `src/types.rs`: the syntax tree, its
  mathematical model, and copies that keep the model.
- `src/config.rs`: the runtime configuration that a program's `config` block
  and channel definitions describe.
- `src/definitions.rs`: a program's handlers, queries, updates, memories and
  periodic rules by name.
- `src/dispatch.rs`, `src/channels.rs`: channel events, and which handlers
  an event reaches.
- `src/filter_plan.rs`: what the `where` clause of a query asks of storage;
  a regular-expression filter is kept only when the `regex` crate compiles
  its pattern.
- `src/storage/`: which store a configured backend name selects and the
  address it is known by, how a query is spread over the stores and its
  answer narrowed to the candidates, and the query text (SQL, Cypher, AQL,
  SurrealQL) that each store is sent.
- `src/value.rs`: runtime values and records, truthiness, the binary
  operators (floats are kept as decimal text; what needs `f64` rounding is
  reported, not computed), indexing, `group_by` and the text of a value.
- `src/machine.rs`: the interpreter of handler bodies as a machine that
  stops at each piece of outside work (storing, deleting, fresh ids, the
  time, `f64` arithmetic, conflict lookups, model and storage calls); the
  caller does the work and runs the body again with the reply added, the
  machine answering its requests with the replies in order. Memory
  invariants, `on_conflict` rules, `emit`, pipes (`map`, `filter`, `each`,
  `group_by`, `store_as`, `delete_originals`) and scopes are stated and
  proved here.
- `src/interpreter.rs`: the storage type of a field type, and the variables
  that a Cypher query takes from scope.
- `src/decimal.rs`: exact comparison of decimal numerals (bounds of
  `float[min, max]`).
- `src/text.rs`, `src/strmap.rs`: text helpers, and maps held as lists of
  pairs that hold each key once.
- `src/errors.rs`, `src/sdk.rs`: errors, and the replies of the runtime's
  HTTP API.
- `src/llm.rs`: the prompt for an extern function, and cleaning up a model's
  answer.
- `src/docker.rs`: the containers and ports of the stores the runtime starts.
- `src/cli.rs`, `src/plan.rs`: what the command line reports, and which
  parts of an inspection of the stores it shows.
- `src/stdtext.rs`: standard-library text functions: `trim`, `starts_with`,
  `ends_with` and `contains` written and proved here; case mapping,
  `is_alphanumeric` and hashing called, with the contracts the library
  assumes of them.
- `app/`: the command-line program around the library (files, HTTP, output).
  `synapse apply` serves a program over HTTP: it runs each handler on the
  machine of `src/machine.rs`, does the work a run asks for (records kept in
  memory, ids, the clock, float arithmetic) and runs it again with the reply.
  The storage backends, model providers and channels of a full deployment
  are not part of it.
- `tests/`: tests of the library on concrete inputs.
