# tsrun

A small interpreter for TypeScript-flavoured JavaScript whose lexer, parser,
evaluator and built-in objects are written in Verus and proved against their
contracts.

## Layout

- `src/number.rs` — the runtime's decimal numbers and their text forms.
- `src/lexer.rs`, `src/parser.rs`, `src/ast.rs` — source text to syntax tree.
- `src/interpreter.rs`, `src/eval.rs`, `src/expr.rs`, `src/setup.rs` — the heap,
  scopes, statements (TypeScript `enum` declarations among them), expressions and the
  fresh global environment. Every run is
  bounded by a step budget, which is how the recursive evaluator is proved to end.
- `src/builtins/` — `Array`, `String`, `Object`, `Number`, `Boolean`, `Math`,
  `Date`, `Map`, `Promise`, `JSON`, `Function`, errors, the console, the
  global functions and the status machine of generator objects (`next`,
  `return`, `throw`). The evaluator walks the syntax tree and keeps no suspended
  frames, so a generator body cannot be resumed: the parser refuses `function*`,
  and resuming a suspended generator raises a `TypeError`.
- `src/table.rs` — the entries of a `Map`, kept in an `IndexMap`.
- `src/laws.rs` — properties that relate several operations.
- `src/clock.rs` — readings of the system clock for `Date.now`, `console.time` and
  `Math.random`.
- `app/main.rs` — the command-line runner: reads a file, runs it, prints the
  console output and the result.
- `tests/` — programs and their expected results.

## Outside crates

- `serde_json` reads and writes JSON text for `JSON.parse` and `JSON.stringify`.
- `indexmap` holds the entries of each `Map` in insertion order.
- `chrono` writes the ISO text of dates inside `JSON.stringify`.

The calls into them sit behind small trusted wrappers whose contracts say what
the crates' documentation and source promise.
