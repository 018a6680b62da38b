# Strawberry

The compiler of Strawberry, a small object-oriented language, written in
Verus: its front end, an intermediate form, and a generator of x86
assembly. Every function of the library carries a contract that Verus
proves, apart from two small wrappers around the standard library
(appending a character to a string, and the debug text of a list of
strings), whose contracts are trusted.

## Layout

- `src/lexer`: the lexer, with the longest-match rules it follows stated as
  specifications, and the tokens.
- `src/parser/ast`: the syntax tree and its plain-value models.
- `src/semantic`: the semantic check (classes, inheritance chains,
  constructors, overriding, method bodies) and the type checker of
  expressions.
- `src/utils`: symbol tables, class tables and small text helpers.
- `src/IR`: the intermediate form, lowering from the syntax tree, the
  control-flow graph, dominators and the SSA pass.
- `src/mini`: the front end of a smaller dialect of the language.
- `src/cgen`: the x86 code generator: constants, prototypes and dispatch
  tables of the classes, `init`s, methods with aligned frames, and `main`,
  each stated line by line as a specification.
- `src/ty`, `src/llvm`: type descriptions and the plain-value parts of the
  LLVM back end.
- `src/laws.rs`: properties that span several functions, stated and proved.
- `app/`: the command-line program (`strawberry new`, `strawberry build`),
  which reads files, prints diagnostics, writes the assembly to
  `./build/a.s` and runs gcc on it.
- `tests/`: tests on concrete values.
