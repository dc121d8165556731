use lib::isa::{fault_message, DecodeFault, Op};

#[test]
fn test_add_encode_decode() {
    let op = Op::Add;

    let bytes = op.encode();

    let (decoded, consumed) = Op::decode(&bytes).unwrap();

    assert_eq!(decoded, op);
    assert_eq!(consumed, 1);
}

#[test]
fn test_push_encode_decode() {
    let op = Op::Push(42);

    let bytes = op.encode();

    let (decoded, consumed) = Op::decode(&bytes).unwrap();

    assert_eq!(decoded, op);
    assert_eq!(consumed, 9);
}

#[test]
fn test_load_encode_decode() {
    let op = Op::Load(7);

    let bytes = op.encode();

    let (decoded, consumed) = Op::decode(&bytes).unwrap();

    assert_eq!(decoded, op);
    assert_eq!(consumed, 2);
}

#[test]
fn encode_exact_bytes() {
    assert_eq!(Op::Push(7).encode(), vec![0x01, 7, 0, 0, 0, 0, 0, 0, 0]);
    assert_eq!(Op::Push(-1).encode(), vec![0x01, 0xFF, 0xFF, 0xFF, 0xFF, 0xFF, 0xFF, 0xFF, 0xFF]);
    assert_eq!(Op::Push(0x0102030405060708).encode(), vec![0x01, 8, 7, 6, 5, 4, 3, 2, 1]);
    assert_eq!(Op::Store(200).encode(), vec![0x41, 200]);
    assert_eq!(Op::Pop.encode(), vec![0x02]);
    assert_eq!(Op::Dup.encode(), vec![0x03]);
    assert_eq!(Op::Swap.encode(), vec![0x04]);
    assert_eq!(Op::Sub.encode(), vec![0x11]);
    assert_eq!(Op::Mul.encode(), vec![0x12]);
    assert_eq!(Op::Div.encode(), vec![0x13]);
    assert_eq!(Op::Mod.encode(), vec![0x14]);
    assert_eq!(Op::Neg.encode(), vec![0x15]);
    assert_eq!(Op::Print.encode(), vec![0x60]);
    assert_eq!(Op::Halt.encode(), vec![0xFF]);
}

#[test]
fn decode_every_op_with_trailing_bytes() {
    let ops = [
        Op::Push(i64::MIN),
        Op::Push(i64::MAX),
        Op::Pop,
        Op::Dup,
        Op::Swap,
        Op::Add,
        Op::Sub,
        Op::Mul,
        Op::Div,
        Op::Mod,
        Op::Neg,
        Op::Load(0),
        Op::Store(255),
        Op::Print,
        Op::Halt,
    ];
    for op in ops {
        let mut bytes = op.encode();
        let len = bytes.len();
        bytes.extend([0x60, 0x02]);
        assert_eq!(Op::decode(&bytes).unwrap(), (op, len));
    }
}

#[test]
fn decode_errors() {
    assert_eq!(Op::decode(&[]).unwrap_err(), "No bytes to decode");
    assert_eq!(Op::decode(&[0x01, 1, 2, 3]).unwrap_err(), "No bytes to decode");
    assert_eq!(Op::decode(&[0x40]).unwrap_err(), "Truncated LOAD instruction");
    assert_eq!(Op::decode(&[0x41]).unwrap_err(), "Truncated STORE instruction");
    assert_eq!(Op::decode(&[0xAB, 0x01]).unwrap_err(), "Unknown opcode: 0xAB");
    assert_eq!(Op::decode(&[0x00]).unwrap_err(), "Unknown opcode: 0x00");
    assert_eq!(Op::decode(&[0x05]).unwrap_err(), "Unknown opcode: 0x05");
}

#[test]
fn decode_at_faults() {
    let code = [0x60, 0x01, 0, 0];
    assert_eq!(Op::decode_at(&code, 0), Ok((Op::Print, 1)));
    assert_eq!(Op::decode_at(&code, 1), Err(DecodeFault::TruncatedPush));
    assert_eq!(Op::decode_at(&code, 4), Err(DecodeFault::Empty));
    assert_eq!(Op::decode_at(&[0x40, 9, 0x41], 2), Err(DecodeFault::TruncatedStore));
    assert_eq!(Op::decode_at(&[0x40, 9, 0x41], 0), Ok((Op::Load(9), 2)));
    assert_eq!(fault_message(DecodeFault::UnknownOpcode(0x7F)), "Unknown opcode: 0x7F");
}
