# l1_ir

The intermediate representation of the L1 language, as a verified library.

- `src/ast.rs`: values, gradual types, patterns, expressions, function
  definitions and programs, with their equality, `Debug` text and type checks.
- `src/eval.rs`: the evaluator. `eval_spec` states what a program means (a
  fuel-bounded big-step semantics); `eval` runs a program and is proved to
  agree with it.
- `src/value.rs`: the packed 128-bit runtime values of compiled code, and the
  `Heap` that holds their strings, tuples and names.
- `src/recipes/`: the runtime functions that compiled code calls, and the
  table of functions the compiler knows (`recipes::cranelift::import`).
- `src/opt.rs`: the compiler. It turns a program into lists of instructions
  for a code generator (`Op`), one list for the entry point and one per
  function reached from it. `expr_typing` and its companions state exactly
  which programs it accepts and the type of each compiled value; the
  `compile_*` functions take those programs only, the `try_compile_*` ones
  answer an error for the others. Every list it emits refers only to values
  and blocks defined before their use. `expr_emitted` states what the code
  of each expression is: its sub-expressions' code in order (with the values
  they produce), conversions (`cast_ops`), pattern tests (`lhs_emitted`),
  calls (`apply_emitted`), constants, loops and the blocks where control
  goes on; `fn_returns` and `main_returns` state that each function binds
  its parameters to its own arguments (`fn_entry`) and returns the value of
  its last expression.
- `src/machine.rs`: what straight-line instructions compute (`run`), as the
  code generator's IR documents them. It proves that a function's entry code
  binds each parameter to its own argument, as the evaluator binds them;
  that on a function returning a parameter or a `U64` constant the compiled
  code returns what the evaluator gives; and that the compiled code of a
  function whose body is arithmetic on its `U64` parameters (known
  functions open-coded as one instruction, nested to any depth) returns
  what that arithmetic computes from the arguments, or traps where it traps.
- `src/natural.rs`, `src/text.rs`: natural numbers of any size (computed with
  `num-bigint`) and decimal text.
- `app/`: the just-in-time back end: it hands each instruction to
  Cranelift's function builder, links the runtime functions and runs the
  machine code; and floating-point values.
