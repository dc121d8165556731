use lib::assembler::asm_message;
use lib::assembler::{encode_program, ends_with_halt, parse_program, AsmError};
use lib::isa::Op;

#[test]
fn parse_push() {
    let src = "PUSH 42\nHALT";

    let program = parse_program(src).unwrap();

    assert_eq!(program.len(), 2);
    assert_eq!(program[0], Op::Push(42));
    assert_eq!(program[1], Op::Halt);
}

#[test]
fn parse_case_insensitive() {
    let src = "push 7\nprint\nhalt";

    let program = parse_program(src).unwrap();

    assert_eq!(program[0], Op::Push(7));
    assert_eq!(program[1], Op::Print);
    assert_eq!(program[2], Op::Halt);
}

#[test]
fn parse_comments() {
    let src = "
            ; comment
            PUSH 10 ; inline comment
            PRINT
            HALT
        ";

    let program = parse_program(src).unwrap();

    assert_eq!(program.len(), 3);
}

#[test]
fn parse_unknown_instruction() {
    let src = "HELLO";

    assert!(parse_program(src).is_err());
}

#[test]
fn encode_program_test() {
    let program = vec![Op::Push(7), Op::Push(3), Op::Add, Op::Print, Op::Halt];

    let bytes = encode_program(&program);

    assert!(!bytes.is_empty());
}

#[test]
fn parse_load_store() {
    let src = "
            LOAD 5
            STORE 10
            HALT
        ";

    let program = parse_program(src).unwrap();

    assert_eq!(program[0], Op::Load(5));
    assert_eq!(program[1], Op::Store(10));
}

#[test]
fn invalid_slot() {
    let src = "LOAD 999";

    assert!(parse_program(src).is_err());
}

#[test]
fn invalid_integer() {
    let src = "PUSH hello";

    assert!(parse_program(src).is_err());
}

#[test]
fn missing_operand() {
    let src = "PUSH";

    assert!(parse_program(src).is_err());
}

#[test]
fn extra_operand() {
    let src = "ADD 10";

    assert!(parse_program(src).is_err());
}

#[test]
fn inline_comment() {
    let src = "PUSH 10 ; comment\nHALT";

    let program = parse_program(src).unwrap();

    assert_eq!(program.len(), 2);
    assert_eq!(program[0], Op::Push(10));
}

#[test]
fn blank_lines() {
    let src = "\n\nPUSH 5\n\nHALT\n";

    let program = parse_program(src).unwrap();

    assert_eq!(program.len(), 2);
}

#[test]
fn negative_push() {
    let src = "PUSH -42\nHALT";

    let program = parse_program(src).unwrap();

    assert_eq!(program[0], Op::Push(-42));
}

#[test]
fn encode_program_exact() {
    let program = vec![Op::Push(7), Op::Push(3), Op::Add, Op::Print, Op::Halt];
    let bytes = encode_program(&program);
    let mut expected = vec![0x01, 7, 0, 0, 0, 0, 0, 0, 0, 0x01, 3, 0, 0, 0, 0, 0, 0, 0];
    expected.extend([0x10, 0x60, 0xFF]);
    assert_eq!(bytes, expected);
    assert_eq!(encode_program(&[]), Vec::<u8>::new());
}

#[test]
fn error_token_count() {
    match parse_program("PUSH 1\n\nADD 10\n") {
        Err(AsmError::TokenCount { line, expected, found }) => {
            assert_eq!((line, expected, found), (3, 1, 2));
        }
        other => panic!("unexpected {:?}", other),
    }
    match parse_program("store") {
        Err(AsmError::TokenCount { line, expected, found }) => {
            assert_eq!((line, expected, found), (1, 2, 1));
        }
        other => panic!("unexpected {:?}", other),
    }
    match parse_program("PUSH 1 2") {
        Err(AsmError::TokenCount { line, expected, found }) => {
            assert_eq!((line, expected, found), (1, 2, 3));
        }
        other => panic!("unexpected {:?}", other),
    }
}

#[test]
fn error_texts() {
    match parse_program("halt\n  hello world ; x") {
        Err(AsmError::UnknownInstruction { line, mnemonic }) => {
            assert_eq!(line, 2);
            assert_eq!(mnemonic, "HELLO");
        }
        other => panic!("unexpected {:?}", other),
    }
    match parse_program("PUSH 9223372036854775808") {
        Err(AsmError::InvalidInteger { line, text }) => {
            assert_eq!(line, 1);
            assert_eq!(text, "9223372036854775808");
        }
        other => panic!("unexpected {:?}", other),
    }
    match parse_program("PUSH 1\nLoad -1") {
        Err(AsmError::InvalidSlot { line, text }) => {
            assert_eq!(line, 2);
            assert_eq!(text, "-1");
        }
        other => panic!("unexpected {:?}", other),
    }
}

#[test]
fn first_error_wins() {
    match parse_program("PUSH x\nBOGUS") {
        Err(AsmError::InvalidInteger { line, .. }) => assert_eq!(line, 1),
        other => panic!("unexpected {:?}", other),
    }
}

#[test]
fn integer_edges() {
    let p = parse_program("PUSH 9223372036854775807\nPUSH -9223372036854775808\nPUSH +5\nPUSH 007").unwrap();
    assert_eq!(p, vec![Op::Push(i64::MAX), Op::Push(i64::MIN), Op::Push(5), Op::Push(7)]);
    assert!(parse_program("PUSH -9223372036854775809").is_err());
    assert!(parse_program("PUSH +").is_err());
    assert!(parse_program("PUSH -").is_err());
    assert!(parse_program("PUSH 1_000").is_err());
    assert!(parse_program("PUSH ٣").is_err());
    let s = parse_program("LOAD 255\nSTORE +0\nload 0007").unwrap();
    assert_eq!(s, vec![Op::Load(255), Op::Store(0), Op::Load(7)]);
    assert!(parse_program("LOAD 256").is_err());
    assert!(parse_program("STORE -0").is_err());
    assert!(parse_program("STORE").is_err());
}

#[test]
fn whitespace_and_line_endings() {
    let p = parse_program("\tPUSH\u{3000}3\r\n  dup ;;;\r\n\u{A0}mUl\u{85}\r\nHALT\r").unwrap();
    assert_eq!(p, vec![Op::Push(3), Op::Dup, Op::Mul, Op::Halt]);
    assert_eq!(parse_program("").unwrap(), vec![]);
    assert_eq!(parse_program(";only a comment\n   \n").unwrap(), vec![]);
}

#[test]
fn all_mnemonics() {
    let src = "push 1\npop\ndup\nswap\nadd\nsub\nmul\ndiv\nmod\nneg\nload 1\nstore 2\nprint\nhalt";
    let p = parse_program(src).unwrap();
    assert_eq!(
        p,
        vec![
            Op::Push(1),
            Op::Pop,
            Op::Dup,
            Op::Swap,
            Op::Add,
            Op::Sub,
            Op::Mul,
            Op::Div,
            Op::Mod,
            Op::Neg,
            Op::Load(1),
            Op::Store(2),
            Op::Print,
            Op::Halt
        ]
    );
}

#[test]
fn halt_at_end() {
    assert!(ends_with_halt(&[Op::Push(1), Op::Halt]));
    assert!(!ends_with_halt(&[Op::Halt, Op::Print]));
    assert!(!ends_with_halt(&[]));
}

#[test]
fn assembly_error_messages() {
    let msg = |src: &str| asm_message(&parse_program(src).unwrap_err());
    assert_eq!(msg("ADD 10"), "Line 1: expected 1 token(s), found 2");
    assert_eq!(msg("PUSH 1\nPUSH hello"), "Line 2: invalid integer 'hello'");
    assert_eq!(msg("\n\n\nLOAD 999"), "Line 4: invalid slot '999'");
    assert_eq!(msg("hello"), "Line 1: unknown instruction 'HELLO'");
    assert_eq!(
        asm_message(&AsmError::EmptyInstruction { line: 12 }),
        "Line 12: empty instruction"
    );
}

#[test]
fn case_does_not_matter() {
    for (a, b) in [("push 12", "PUSH 12"), ("LoAd 3", "load 3"), ("hAlT", "HALT")] {
        assert_eq!(parse_program(a).unwrap(), parse_program(b).unwrap());
    }
}
