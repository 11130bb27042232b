# TESC

A programming language for writing command-line tests, with its lexer, parser, type
checker and test runner proved correct with Verus.

```c
test add("python3 calculator.py") {
    self send "1 + 1"; // Inputs 1 + 1 + '\n' into the program
    self expect "2";   // Expects the program to print 2 + '\n'
};
```

## Layout

- `src/` is the library. Each stage has a mathematical model (spec functions) and an
  executable function whose contract states that it computes the model:
  - `lexer.rs`: characters to spanned tokens and lexing errors;
  - `parser.rs`: tokens to the syntax tree (`ast.rs`), or the error at the furthest
    point reached;
  - `check.rs`: the type checker, over the scopes of `environment.rs`;
  - `eval.rs`: running the tests. The library decides, the caller acts: a run computes
    the actions to perform (print, start a process, write to it) from the script and the
    lines read so far, and either its outcome or the process to read the next line from;
  - `pipeline.rs`: lexing, parsing and checking a script, and ordering the reports.
- Laws of the library stand beside what they are about, as proof functions:
  `replay.rs` (running again with more lines extends a run), `processes.rs` (actions
  only name processes that were started), `soundness.rs` (what type checking rules out
  of a run), and others in `check.rs`, `eval.rs`, `environment.rs`, `error.rs` and
  `lexer.rs`.
- `app/main.rs` is the command-line program: it reads the script, performs the actions,
  reads lines from the processes, and prints the reports.
- `tests/` runs the library on concrete scripts.
