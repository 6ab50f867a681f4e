# swirl

A text rewriting engine driven by grammar rules written into the text
itself. A definition `%: name {header} -> {body}` adds a variant to the rule
`name`; an unnamed definition `%: {header} -> {body}` is applied, at once, to
the text that follows it. Headers hold literal text and rule invocations
`:var:rule`, bodies hold variable invocations `:var`; the last variant of a
rule is tried first.

The library is verified with Verus: each public function states what it
computes over a model of its data, and the laws that hold across functions
are proved as proof functions.

## Layout

- `src/text.rs`, `src/util.rs`: characters, identifiers, lines, and numbers
  that may be infinite.
- `src/error.rs`: matching errors, their text and backtraces.
- `src/vars.rs`: variable bindings.
- `src/types/`: invocations, invocation strings, rule variants and rules.
- `src/mmatch/`: parsing definitions (`mod.rs`, `match_rule_def.rs`),
  matching invocation strings, variants and rules against input; the model
  of matching and its laws are in `semantics.rs`.
- `src/process.rs`: processing a whole text, one statement per step.
- `src/ruletypes.rs`, `src/part_match.rs`: plain rules, whose parts are text
  and `:var:rule` / `:var` invocations with `.` as escape character.
- `src/definition_scan.rs`: finding a definition with a regular expression.
- `src/postext.rs`: text that remembers its position.
- `app/main.rs`: the command, which reads standard input (or, in a debug
  build, `input.txt`), reads the files that the text invokes, and writes out
  the result.
