# xiao

The front end and the runtime core of the Xiao language, written in Verus:
every function carries a contract that the verifier proves.

## Layout

- `source` — validated UTF-8 source text, byte spans and line/column positions.
- `utf8_layout`, `text` — scalar boundaries and the rendering of messages.
- `diagnostics` — stable diagnostic codes and the structured diagnostic value.
- `token`, `lexer` — the token kinds and the indentation-aware lexer.
- `l0_lexer` — the minimal first-stage token stream, specified as a function
  of the input (`l0_tokens`).
- `ast`, `selectors`, `imports` — the syntax tree and its preorder node index.
- `parser` — the recursive-descent parser with error recovery.
- `runtime` — runtime errors, object headers and reference counts, runtime
  values and the operator table (`value`, `ops`), tables with their static
  signatures and lifecycle (`tables`), sets and their algebra (`sets`),
  arrays, tuples and dictionaries (`containers`), the integer division
  kernels and the checks made where values cross the C boundary
  (`interchange`).

`app/` is ordinary Rust around the library: it carries out the floating-point
arithmetic, comparisons and conversions that the operator table hands back as
bit patterns.

## What is proved

Among others: the lexer always terminates with exactly one `Eof` at the end of
the input, its tokens are ordered and their text agrees with their kind, every
byte of the input lies in a token or is a space, a tab or part of a comment,
operators are matched longest first, and every `Invalid` token is reported and
starts where no other token can or at a malformed literal; the parser never
fails to return a program
covering the whole input, every node of the tree and every diagnostic points
into the source, and top-level statements come in order; a first line
`name = operand` gives that assignment, a statement that fails is reported,
and a source without invalid tokens or `raise` that yields nothing and reports
nothing holds only newlines and documentation comments; reference counts of an
object header stay consistent under every operation; table states only move
forward, and a field read gives back what the last successful write stored;
every arithmetic operator refuses operands of different widths and checks
integer overflow exactly; set operations produce duplicate-free results in an
order fixed by their operands, and set equality is mutual inclusion; floor
division and remainder recombine to the dividend.

The tests under `tests/` run the library on concrete inputs.
