# volt

Volt is a small reactive component language compiled to Wasm-GC. This crate
is its compiler, written in Verus: every stage states what it computes and
Verus proves it.

- `src/syntax`: the lexer (`tokenize` equals the token model `lex`), the
  grammar over token lists, and the parser (`parse` equals the grammar
  applied to the lexer's tokens).
- `src/analysis`: constant folding (`folded_expr` and its laws), reactivity
  planning (signal bits, dependency masks, the node plan) and the build step
  of a program.
- `src/codegen`: the string table, the model of the emitted code and
  sections (`compiled`), the calls into `wasm_encoder`, and the laws of the
  update protocol.
- `src/devserver.rs`: the decisions of the development server.
- `app/`: the command line (`build`, `check`, `serve`) and the server's I/O.
- `tests/`: tests that run the library with the real `wasm_encoder`.
