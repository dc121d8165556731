# minivm

A small stack machine with an assembler, a disassembler and an interpreter,
written in Verus with its behaviour stated as contracts and proved.

- `src/isa.rs`: the instructions, their byte encoding and decoding.
- `src/bytecode.rs`: the bytecode image (magic, version, code length, code).
- `src/text.rs`, `src/numeral.rs`: lines, words, comments and decimal numerals,
  read and written as the Rust standard library does.
- `src/assembler.rs`: program text to instructions to code.
- `src/disassembler.rs`: code back to program text.
- `src/roundtrip.rs`: the assembler and the disassembler undo each other.
- `src/vm.rs`: the interpreter, one step at a time or a whole run; the stack
  holds at most `STACK_CAPACITY` (1024) values, and a push beyond that traps.
- Error and trap texts are built in `src/` (`fault_message`, `asm_message`,
  `image_message`, `trap_message`).
- `app/main.rs`: the command line (`asm`, `run [--trace]`, `dis`) and file I/O.
