# proper

The front end and the runtime of the Proper language, verified with Verus.

- `src/lexer.rs` turns source characters into tokens; the grammar of tokens is a
  spec function (`lex_from`), and laws state what every token list looks like.
- `src/astbuilder.rs` builds expressions (with blocks of `let` and expression
  statements, `if`, `while`, `match`, `for`, calls, fields, indexing and ranges),
  patterns and types from tokens; each parse function is specified by a spec
  function over the tokens and a position, and no parse is ever without a rule.
- `src/desugarer.rs` rewrites the parsed tree into the core tree of `src/hir.rs`
  (`while`, `for`, `if let`, ranges, `?` and compound assignments are expanded).
- `src/typechecker.rs` records the definitions of each scope and resolves names.
- `src/compiler.rs` compiles statements into the code of a stack machine, and
  `src/vm.rs` runs that code one step at a time; the host performs float
  arithmetic and native calls when a step asks for them.
- `src/common.rs`, `src/span.rs`, `src/table.rs`, `src/cursor.rs` and
  `src/peekable_cursor.rs` hold the shared syntax types and small containers.

Maps from names are not `HashMap`s: vstd specifies `HashMap` usefully only for keys
such as integers, and these maps are keyed by `String` names, for which no contract of
`insert` or `get` could be proved. So the type checker's definitions live in
`NameTable` (`src/table.rs`), a vector of entries whose names are distinct, viewed as a
`Map`; and the machine's globals and the fields of its structs are vectors of
`(name, value)` pairs.

`tests/` holds the tests, and `app/` the program: it reads a file and prints its
tokens, the statements built from them and their desugared form; it also holds the
host side of the machine (natives, float arithmetic) and a disassembler.
