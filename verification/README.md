# jarona

A small scripting language: a lexer, a recursive-descent parser and a
tree-walking interpreter, verified with Verus, and a command-line program
around them.

## Layout

- `src/token.rs`, `src/lexer.rs`: tokens and the lexer. The lexical grammar is
  the spec function `lex`; `Lexer::tokenize` returns exactly what it gives.
- `src/ast.rs`, `src/parser.rs`: the syntax tree and the parser. The grammar is
  a family of spec functions (`parse_statement`, `parse_expression`, ...);
  `Parser::parse_program` returns exactly what `parse_statements` gives, or the
  error it describes.
- `src/value.rs`: runtime values. A number is held as the bit pattern of a
  double; equality follows `==` on doubles (no NaN equals anything, the two
  zeros are equal).
- `src/semantics.rs`: the meaning of programs as spec functions (`eval`,
  `exec_stmt`, `exec_all`, ...), over a state of variables, functions, structs
  and printed values.
- `src/interpreter.rs`: the interpreter, whose `run` is proved to compute
  `exec_all`, and `Knowledge`, what a run may know of the world.
- `src/laws.rs`: properties that span the semantics (what was printed stays
  printed, a variable reads back what was set, more knowledge changes nothing
  in a run that asked for nothing).
- `src/entries.rs`, `src/text.rs`: named-entry lists used as maps, and string
  helpers.
- `app/`: the command-line program: argument handling, files, printing.

## How a run meets the world

The library does no I/O and no floating-point arithmetic. A run reads files
and computes with doubles only through a `Knowledge` value. When it needs a
file or the result of an operation on doubles that it does not know, it stops
with `Halt::NeedFile` or `Halt::NeedNumber`; the caller adds the answer to the
knowledge and runs the program again. A run asks only for what its knowledge
does not hold (`laws::lemma_all_ask_unknown`), and adding knowledge never
changes a run that did not ask for it (`laws::lemma_all_more`), so the last
run is the run of the program.
