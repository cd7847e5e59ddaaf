# slang

A small scripting language: a scanner and a single-pass compiler to bytecode, with the
collections they are built on, verified with Verus.

- `src/lexing` — tokens, source spans and the scanner. `Scanner::scan` is specified byte by
  byte over the source (blanks and `?` comments skipped, keywords, numbers, strings, one- and
  two-byte operators, line counting, error messages), and each call provably moves forward
  until the end of the source is reached.
- `src/compiler` — the chunk of bytecode with its line table and constants, locals, upvalues
  and the compiler. The compiler is proved to terminate on every source, to keep its state
  consistent, to patch every jump so that it lands on the next instruction, and to fail
  exactly when it has reported an error.
- `src/debug` — decodes instructions of a chunk for display.
- `src/collections` — a growable array, a bounded stack and its views, an open-addressing hash
  table and an array whose contents can be kept run-length encoded.
- `src/encoding`, `src/hashing` — run-length encoding of 32-bit words (decoding undoes
  encoding) and FNV-1a hashing.
- `src/chunk.rs` — a chunk whose line table is run-length encoded.
- `src/code_reader.rs`, `src/light_stack.rs`, `src/keyword.rs` — smaller utilities.
- `app/` — the command-line program: reads a file or lines typed at a prompt, compiles them,
  prints the reported errors and a listing of the bytecode.

Numbers are kept as the digits of their literals in the constants; strings and function names
as UTF-8 bytes.
