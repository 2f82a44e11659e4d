# luno

A compiler and register-based bytecode machine for a Lua 5.1 dialect, verified with Verus.

## Layout

- `src/` — the verified library.
  - `lexer`, `token`: source text to tokens, longest match first; number literals stay text.
  - `parser`, `ast`: tokens to a syntax tree (recursive descent, Pratt parsing for expressions),
    with each result tied to a spec parser over the token sequence.
  - `compiler`, `ir`, `context`, `lua`: the syntax tree to IR, with the compile result stated
    as a spec function of the program.
  - `ir_generator`, `lowering`, `bytecode`, `jumps`, `runnable`: IR to packed 32-bit words;
    compiled chunks only name constants, strings and functions they hold, and every jump
    lands on its label.
  - `vm`, `value`, `table`, `heap`, `names`, `gc`: the machine. `VM::step` runs one
    instruction and hands floating-point work (arithmetic, comparison, number text, number
    keys) to the host as a `Step` request; `collect_garbage` frees exactly the arrays
    and strings that are no longer reachable.
  - `disasm`: the operand column of a chunk listing.
- `app/` — the command-line program: reads a script, prints the listing, runs the machine
  and answers its requests with `f64` arithmetic and `print`.
- `tests/` — tests of the library on concrete programs and values.

## Not carried over

- The `for10` test native of the Lua front end is not registered: it calls the machine
  with a function value and an argument list, which the runtime has no entry point for,
  so it does not build as written.
- The coroutine natives live in files outside the runtime's module tree and are not
  part of it.
- The just-in-time compiler (cranelift, behind a feature that is off) is left out: the
  interpreter never calls it.
