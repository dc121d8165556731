use lib::assembler::{encode_program, parse_program};
use lib::disassembler::disassemble;
use lib::isa::{DecodeFault, Op};

#[test]
fn disassemble_text() {
    let program = vec![
        Op::Push(7),
        Op::Push(-42),
        Op::Push(i64::MIN),
        Op::Pop,
        Op::Dup,
        Op::Swap,
        Op::Add,
        Op::Sub,
        Op::Mul,
        Op::Div,
        Op::Mod,
        Op::Neg,
        Op::Load(0),
        Op::Store(255),
        Op::Print,
        Op::Halt,
    ];
    let text = disassemble(&encode_program(&program)).unwrap();
    assert_eq!(
        text,
        "PUSH 7\nPUSH -42\nPUSH -9223372036854775808\nPOP\nDUP\nSWAP\nADD\nSUB\nMUL\nDIV\nMOD\nNEG\nLOAD 0\nSTORE 255\nPRINT\nHALT\n"
    );
    assert_eq!(parse_program(&text).unwrap(), program);
}

#[test]
fn disassemble_empty_and_errors() {
    assert_eq!(disassemble(&[]).unwrap(), "");
    assert_eq!(disassemble(&[0x60, 0x01, 1]), Err(DecodeFault::TruncatedPush));
    assert_eq!(disassemble(&[0x60, 0x99]), Err(DecodeFault::UnknownOpcode(0x99)));
    assert_eq!(disassemble(&[0x41]), Err(DecodeFault::TruncatedStore));
}

#[test]
fn assemble_disassemble_roundtrip_on_code() {
    let code = vec![0x01, 0xFF, 0xFF, 0xFF, 0xFF, 0xFF, 0xFF, 0xFF, 0x7F, 0x40, 3, 0x15, 0x60, 0xFF];
    let text = disassemble(&code).unwrap();
    assert_eq!(text, "PUSH 9223372036854775807\nLOAD 3\nNEG\nPRINT\nHALT\n");
    assert_eq!(encode_program(&parse_program(&text).unwrap()), code);
}
