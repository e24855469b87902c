# clingfun

Bite-sized language puzzles: "does this automaton accept the string?" and
"is this string in the grammar's language?", drawn without end from a small
xorshift64* generator.

- `src/` is the verified library: the generator (`rng`), random strings
  (`sample`), character-level string helpers (`text`), automata (`dfa`),
  grammar families (`grammar`), the arrows of an automaton drawing
  (`diagram`), puzzles of either kind (`puzzle`) and the
  scoring state of a game (`game`).
- `app/` is the egui/eframe front end: window, keyboard, clock, drawing of
  automata, and the time-based points.
- `tests/` exercises the library on concrete values.
