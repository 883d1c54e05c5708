# minirust

A compiler for a small subset of Rust that writes LLVM IR, with its
passes verified in Verus.

- `src/token.rs`: the lexer; `lex_text` is its model.
- `src/ast.rs`: the syntax tree and the recursive-descent parser; the
  grammar is written out as the spec functions `p_*`.
- `src/loader.rs`: the loading of a program from its root file, the modules
  it declares and the standard module, as a state machine that asks for one
  file at a time.
- `src/semantic/`: the analysis that types the tree and refuses undefined or
  duplicated names, assignments to variables that are not `mut` and type
  mismatches; `an` and `an_program` are its model.
- `src/hir.rs`, `src/types.rs`: the typed tree and the types.
- `src/scope.rs`: the scoped variable map, with its laws.
- `src/code.rs`: the LLVM generator; `g` and `gen_program` say line by line
  what it writes.
- `src/compile.rs`: the law that a program the analysis accepts can be
  compiled.
- `app/main.rs`: the command line program: it reads the files the loader asks
  for, and prints the module.

The analysis and the loader handle the syntax tree that the parser builds:
functions, `let`, assignments, calls, `if`, `while`, blocks and arithmetic,
comparison and logic operators. Struct, enum, impl and const declarations,
paths, method calls, `match`, arrays and references are not part of that
tree, so no part of the analysis deals with them. The typed tree and the code
generator still cover structs, enums, `match` and arrays.
