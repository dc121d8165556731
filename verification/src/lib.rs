//! A small stack machine: instruction encoding, bytecode images, an assembler,
//! a disassembler and an interpreter, each with its behaviour stated and proved.
pub mod text;
pub mod isa;
pub mod bytecode;
pub mod numeral;
pub mod assembler;
pub mod disassembler;
pub mod roundtrip;
pub mod vm;
pub mod semantics;
