# rjvm

A small Java class-file loader and bytecode interpreter written in Verus.

* `src/` is the verified library. The parsers (`constpool`, `attributes`, `class`)
  are stated against spec functions that describe the class-file grammar byte by
  byte; the interpreter (`interp`) is stated against a small-step semantics
  (`spec_step`, `spec_run`); `classruntime` builds frames and runs methods;
  `old_main` is the earlier runner that also carries out the built-in
  `println`/`Object.<init>` calls (`javafunctionsrs`).
* Big-endian integers are read with binread, behind three small trusted wrappers
  in `reader`.
* Each function that the original runs only on well-formed input requires that input
  (stated with the same spec functions); a `try_` function beside it checks the
  input and reports why it is refused.
* `app/` is the command-line program: argument handling, file reading, printing
  and logging.
* `tests/` build class files byte by byte and check loading and running them.
