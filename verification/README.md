# ccompiler

A compiler for a small subset of C, written in Verus: every pass of the
library is stated as a function over mathematical values (sequences, maps,
views of the syntax trees) and the executable code is proved to compute it.

## Layout

`src/` is the verified library.

* Current pipeline: `lexer` (tokens), `frontend::parser`,
  `frontend::resolve_ident` / `frontend::reslove_var` / `frontend::validate`
  (variable resolution), `frontend::loop_labeling`, `frontend::type_checking`,
  `backend::tacky_gen` (three-address code, with `backend::tacky_run`, a
  semantics of that code used to state what `&&` and `||` compute),
  `backend::assembly_ast_gen`
  (instruction selection, stack slots, fix-ups), `backend::code_gen`
  (AT&T text), with printers in `common`, `ast_printer`,
  `frontend::c_ast_print` and `backend::tacky_print`.
* First-generation pipeline: `lexer::lexer` and `lexer::token` (tokens with
  byte ranges), `parser` (syntax tree and precedence-climbing parser),
  `analysis` (renaming), `tacky` (TACKY generation), `codegen` (instruction
  selection and the assembly text), and `driver` (the stages in order);
  `backend::ass_gen` is the earliest code generator.
* Shared: `error`, `name_gen`, `common_ids`, `text`.

`app/` is the command-line program around the library: arguments, files,
running `gcc`, printing each stage, and the process-wide id counter.

`tests/` exercises the library on concrete programs.
