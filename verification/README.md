# Oryn

A tiny scripting language for games: a lexer, a parser, a compiler, type
and name tables, an AST visitor, doc-comment lookup, and a stack-based
virtual machine, written in
Verus with their behaviour stated in contracts and proved.

Layout:

- `src/lexer.rs`: the lexical grammar over source bytes, as spec
  functions, and `lex` / `lex_all`, proved to produce exactly those tokens
  and errors.
- `src/grammar.rs`: the grammar as a parsing expression grammar over the
  token stream, written as spec functions that build the view of the tree.
- `src/progress.rs`: every production of the grammar that succeeds
  consumes tokens and stays within them.
- `src/ast.rs`: the syntax tree and its view.
- `src/parser.rs`: `parse`, proved to follow the grammar exactly.
- `src/compiler.rs`: the lowering of the tree to bytecode, as spec
  functions (with constant folding), the compiler proved to emit exactly
  it, and `Chunk::compile`.
- `src/visitor.rs`: the `AstVisitor` trait and the walks, each proved to
  make exactly its sequence of callbacks, whose scope callbacks balance.
- `src/docs.rs`: the doc comment written directly above a declaration.
- `src/types.rs`, `src/tables.rs`: resolved types, type maps and the name
  tables of the compiler.
- `src/vm.rs`: the bytecode, the disassembler, `Chunk::check`, and the
  machine, whose `step` is proved against a specification of one step.
- `src/errors.rs`, `src/text.rs`: errors and text helpers.
- `app/lib.rs`: running a chunk against an output stream, compiling a
  file, and finding and reading module files.
