# charon

A compiler for a small Tiger-like language, with its proofs. The library is written in Verus:
every function states what it does in its contract, and Verus checks each body against it.

- `src/lexer.rs`, `src/tokens.rs`: the lexer. `lex` is the model of reading one token.
- `src/parser.rs`, `src/ast.rs`, `src/ptr.rs`: the parser and the syntax tree; `p_expr` and its
  companions say what each parsing function reads and builds.
- `src/visit.rs`, `src/visitor_impl.rs`: the type checker. `tc_expr` and `tc_decl` say what
  checking does to the symbol table and to the tree, and which programs it rejects.
- `src/trans/`: code generation. It computes the instructions of an LLVM module as a list
  (`cg_expr`, `translate_spec`); `app/` performs them through the LLVM C API.
- `src/show.rs`: the text of a syntax tree in the notation of `{:?}` (`expr_dbg`), which code
  generation puts in its error for an expression it does not cover.
- `src/lua/`: a front end for a subset of Lua statements, which emits pseudo-assembly.
- `src/driver.rs`: the compiler's entry point.
- `app/`: the executable, and the parts that call LLVM, write files or run the linker.

The laws that span several functions are public proof functions named `law_...`.
