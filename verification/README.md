# execpolicy

Execution policy for shell commands and tool calls, verified with Verus.

- `src/text.rs`: whitespace, ASCII case folding, trimming and word splitting over characters.
- `src/bash_arity.rs`: word-by-word matching of allow rules against command lines.
- `src/normalize.rs`: normal forms of commands and paths; the first word of a command.
- `src/rules.rs`, `src/protocol.rs`, `src/decision.rs`: rulesets, ask rules, approval modes and decisions, each with a model (`View`).
- `src/layers.rs`: stable ordering of rulesets by priority layer.
- `src/engine.rs`: the engine; `check` is specified by the spec function `decide`.
- `src/laws.rs`: properties proved of `decide` and of the layer ordering.
- `src/shim.rs`: the exit status of the legacy command-line alias.
- `app/`: the alias program and serializable copies of the policy types.
