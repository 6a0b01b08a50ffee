# leoscript

A small scripting language: a lexer, a recursive-descent parser, a code
generator and a stack machine, verified with Verus.

- `src/` is the verified library. `lexer` and `token` turn text into tokens
  (regular expressions through the `regex` crate); `parser` and `grammar`
  read tokens into syntax trees, each parse function tied to a grammar
  written as spec functions; `codegen`, `blocks` and `script` generate code,
  stated exactly in `expr_code`, `stmt_block` and `function_code`; `imports`
  replaces each `import` by the items of its file, whose text the caller
  supplies; `vm` runs one instruction at a time (`Thread::step`); `natives`,
  `nclass` and `stdlib` hold the standard library; `laws` states what holds
  across functions.
- `app/` is the host: it reads imported files from the disk, runs the
  machine's steps, prints, sleeps, and does floating-point arithmetic and the
  host's native functions.
- `tests/` holds the tests.
