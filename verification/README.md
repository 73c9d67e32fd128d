# egglog (first-class facts front end)

An e-graph front end in which facts of tracked relations are first-class:
a fact can be referenced before it is asserted, and its truth status can be
read, asserted and retracted through its reference.

Layout:

- `src/` — the library, verified with Verus. `egraph.rs` holds the e-graph
  state and its invariant; `egraph/` the commands (declarations, rulesets and
  rules, checks, input files, sizes, the `fact-ref` primitive); `backend.rs`
  the tables and fact references; `translate.rs`, `backend_rule.rs`,
  `rule.rs` and `search.rs` the translation of queries and actions into rule
  plans and the matching of queries; `output.rs` and `termdag.rs` the
  written forms of outputs and terms; `laws.rs` properties that span several
  operations.
- `tests/` — tests of the library.
- `app/` — file reading, JSON output, display and user-defined commands.

Limits. Running rules and schedules, evaluating expressions, extracting
terms, printing a function's rows (`function_to_dag`, `print_function`) and
reading programs all rest on a rule engine, an extractor, a parser and a
type checker that this project does not include; they are not part of the
library. `backend.rs` is the library's own model of the tables: rows, fact
references and truth status, with queries matched by `search.rs`. Of the
top-level actions, setting an output by literals runs; the others need the
rule engine. Choosing among primitives for `unstable-fn` needs function
sorts and the type checker, so `unstable-fn` must name a function.
