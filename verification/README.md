# discovery-node

A discovery node keeps an index of resource packages and answers queries for
them. This crate holds its logic as a library whose behaviour is stated in
contracts and proved with Verus; the program around it is in `app/`.

- `src/` is the library. Texts, words, orders and JSON values come first
  (`text`, `words`, `ordering`, `json`); then what packages and grants are
  (`package`, `domains`, `validation`), how a package becomes a search document
  (`tokens`, `document`), how queries are planned, ranked and answered (`query`,
  `ranking`, `results`, `answers`, `suggestions`), how the index follows the
  publications (`sync`, `index`, `rejected`, `rebuild`), how packages are written
  and hashed (`encoding`, `seed`), and what the node is configured with
  (`config`, `startup`, `provider`).
- `tests/` runs the library with the crates it calls.
- `app/` holds what does input and output: the HTTP service, the databases, the
  embedding provider, and the scores, which are floating-point numbers.

Functions named `law_...` state what holds of several functions together.
Calls into other crates stand behind small functions marked
`#[verifier::external_body]`, each with a comment that names the call.

The catalogue of aliases, `semantic_aliases.v1.json`, is read beside the
configuration when the node starts.
