# autosim

A simulator for finite automata described in the AutoSim language. A source file
declares an alphabet, deterministic (`AFD`) and nondeterministic (`AFN`) automata, and
simulations (`simular m com "entrada"`); the program checks it and shows each
simulation step by step in a window.

The library under `src/` is verified with Verus:

- `lexer`: the tokens of a source file with their byte ranges, or the first stretch
  of text that starts no token. `lexer::spec` states the lexical grammar over the
  characters of the source.
- `parser`: the syntax tree of a token sequence, or the error at the point where the
  grammar fails, described by what was expected there. `parser::spec` states the
  grammar.
- `sema`: the semantic checks (repeated declarations, undeclared states, symbols and
  automata, determinism of DFAs) and the table of declarations. `sema::spec` states
  which errors a program has and in which order.
- `runtime`: the step-by-step simulator (ε-closures, reading a character, going back,
  resetting, running to the end). `runtime::spec` defines acceptance; the simulator's
  verdict is proved to be it.
- `ui`: what the viewer shows and how its controls change the simulation, apart from
  drawing.
- `cli`: the command line.

`app/` holds the program around it: reading the file, printing diagnostics, and the
window, drawn with iced.
