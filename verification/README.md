# adder

A compiler for the Adder language, written in Verus: a source text of
S-expressions is read into an abstract syntax tree, which is compiled to
x86-64 assembly (NASM syntax) that leaves its result in `rax`. Values are
tagged: a number `n` is `2 * n`, `true` is 3 and `false` is 1.

- `src/` is the verified library:
  - `sexpr.rs` reads text into S-expressions through the `sexp` crate;
  - `ident.rs`, `ast.rs`, `parser.rs` turn S-expressions into programs;
  - `env.rs` holds the compiler's environments in `im` hash maps;
  - `assembly.rs` is the structured form of the emitted lines and their text;
  - `compiler.rs` generates code; every function states its result exactly
    through a specification (`spec_compile`, `spec_compile_program`, ...);
  - `runtime.rs` is what the runtime decides: its input, the text of a value,
    the message of an error code;
  - `props.rs`, `laws.rs`, `shape.rs`, `layout.rs` and `wellformed.rs` prove
    properties across these functions: labels and temporaries of generated
    code, the layout of the emitted text, the shape of parsed programs, and
    which programs compile (exactly the well-formed ones, where their sizes
    fit).

  The parser and the compiler have two entry points each. `parse_expr`,
  `compile_expr`, `compile_program` and the like take well-formed input (their
  `requires` says which) and return the result itself; `checked_parse_expr`,
  `checked_compile_expr`, ..., `parse_source` and `compile_source` take any
  input and return the error that ill-formed input is refused with.
- `app/` is the command-line compiler (`main.rs`) and the runtime that
  compiled code links with (`runtime.rs`).
- `tests/` runs the library on concrete programs and values.
