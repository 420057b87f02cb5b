# aml

A library for AML, a markup of skill tags embedded in ordinary text: a parser, a
validator, a registry of interfaces and implementations, resolution of invocations to
implementations, and an executor that runs a parsed document through skill handlers.
Every function of the library is verified with Verus against a contract, but for one
trusted wrapper of `String::push` (`text::push_char`).

## Layout

- `src/ast.rs`: the syntax tree and its mathematical models.
- `src/scan.rs`, `src/text.rs`, `src/source.rs`, `src/attrs.rs`: characters, tags, comments,
  entities, attributes and byte offsets.
- `src/grammar.rs`: the grammar the parser follows, as spec functions.
- `src/parser.rs`, `src/decls.rs`, `src/kinds.rs`: the parser; its contract is the grammar.
- `src/validator.rs`, `src/constraints.rs`, `src/numbers.rs`: semantic checks and the
  propagation of tool constraints through nested `<tool>` directives.
- `src/registry.rs`, `src/resolver.rs`: registration, lookup, consistency checks and
  resolution.
- `src/executor.rs`: execution with handlers, retries and failure modes. Handlers are
  the user's code: a `SkillHandler` may state, by `may_answer`, which answers it gives to
  a call (implementation, parameters, scope), and `handle` promises one of those. The
  contract of `execute` says that its outcome is what `run_list` gives for answers each of
  which the registered handler may give to the very call `run_list` lists for it.
- `src/labels.rs`: short descriptions of a document's top-level nodes.
- `src/sml/`: the registry and validator of the first, smaller form of the markup.
- `app/`: Python bindings.
- `tests/`: tests run against the compiled library.
