# c_compiler

A compiler for a small subset of C (`int main(void) { return exp; }` where
`exp` is a constant under any number of `~`, `-` and parentheses), written
and verified with Verus.

- `src/` is the verified library: the lexer, the parser, lowering to TACKY,
  assembly generation in three passes, and the x86-64 and ARM64 emitters.
  Each public function states its result exactly in its contract; the laws
  (lexing and parsing invert spelling a program out, each pass preserves
  the value the program returns, surrounding whitespace does not change
  lexing, no proper prefix or extension of a program parses, stack slots
  follow first appearance, generated assembly has no pseudo-registers and
  no memory-to-memory moves) are proof functions named `law_*`.
- `app/` is the command-line driver: it runs gcc to preprocess and to
  assemble and link, reads and writes files, and prints.
- `tests/` exercises the library on concrete programs.
