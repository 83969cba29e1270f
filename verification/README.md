# avrs

A small AVR toolchain core, verified with Verus:

- `src/bit.rs` — bit extraction and deposit under a mask, with their laws.
- `src/types.rs` — range-checked unsigned and signed integer fields.
- `src/instruction.rs` — decoding and encoding of `ADD`, `CP`, `BREQ`, `LDI`, with the round-trip laws.
- `src/hardware.rs`, `src/cpu.rs`, `src/attiny.rs` — processor state, status flags, program memory, and one emulator step.
- `src/parser/` and `src/parser.rs` — a byte reader, a lexer and a recursive-descent parser for assembly lines, each specified by pure functions over the input bytes and the position.
- `src/assembly.rs` — turning a parsed statement into an instruction.

`app/` holds the command-line program: it reads a file, parses it line by line and reports errors.
