//! The instruction set and its byte encoding.
use vstd::prelude::*;
use crate::text::{push_str, string_of, hex_char, hex_digit};

verus! {

/// One machine instruction.
#[derive(Debug, Clone, Copy, PartialEq, Eq, Structural)]
pub enum Op {
    Push(i64),
    Pop,
    Dup,
    Swap,
    Add,
    Sub,
    Mul,
    Div,
    Mod,
    Neg,
    Load(u8),
    Store(u8),
    Print,
    Halt,
}

/// Why a byte sequence does not start with a whole instruction.
#[derive(Debug, Clone, Copy, PartialEq, Eq, Structural)]
pub enum DecodeFault {
    /// There is no byte at all.
    Empty,
    /// A PUSH opcode is followed by fewer than eight operand bytes.
    TruncatedPush,
    /// A LOAD opcode has no slot byte.
    TruncatedLoad,
    /// A STORE opcode has no slot byte.
    TruncatedStore,
    /// The first byte is no opcode.
    UnknownOpcode(u8),
}

/// The eight little-endian bytes of `v`.
pub open spec fn le_bytes(v: u64) -> Seq<u8> {
    seq![
        v as u8,
        (v >> 8u64) as u8,
        (v >> 16u64) as u8,
        (v >> 24u64) as u8,
        (v >> 32u64) as u8,
        (v >> 40u64) as u8,
        (v >> 48u64) as u8,
        (v >> 56u64) as u8,
    ]
}

/// The number whose little-endian bytes are `b[0..8]`.
pub open spec fn from_le(b: Seq<u8>) -> u64
    recommends
        b.len() >= 8,
{
    (b[0] as u64) | ((b[1] as u64) << 8u64) | ((b[2] as u64) << 16u64) | ((b[3] as u64) << 24u64)
        | ((b[4] as u64) << 32u64) | ((b[5] as u64) << 40u64) | ((b[6] as u64) << 48u64) | ((
    b[7] as u64) << 56u64)
}

/// The opcode byte of each instruction.
pub open spec fn opcode(op: Op) -> u8 {
    match op {
        Op::Push(_) => 0x01,
        Op::Pop => 0x02,
        Op::Dup => 0x03,
        Op::Swap => 0x04,
        Op::Add => 0x10,
        Op::Sub => 0x11,
        Op::Mul => 0x12,
        Op::Div => 0x13,
        Op::Mod => 0x14,
        Op::Neg => 0x15,
        Op::Load(_) => 0x40,
        Op::Store(_) => 0x41,
        Op::Print => 0x60,
        Op::Halt => 0xFF,
    }
}

/// The bytes of an instruction: its opcode, then for PUSH the value's eight
/// little-endian bytes and for LOAD and STORE the slot.
pub open spec fn spec_encode(op: Op) -> Seq<u8> {
    match op {
        Op::Push(v) => seq![0x01u8] + le_bytes(v as u64),
        Op::Load(slot) => seq![0x40u8, slot],
        Op::Store(slot) => seq![0x41u8, slot],
        _ => seq![opcode(op)],
    }
}

/// The instruction without operand that `byte` is the opcode of, if any.
pub open spec fn plain_op(byte: u8) -> Option<Op> {
    if byte == 0x02 {
        Some(Op::Pop)
    } else if byte == 0x03 {
        Some(Op::Dup)
    } else if byte == 0x04 {
        Some(Op::Swap)
    } else if byte == 0x10 {
        Some(Op::Add)
    } else if byte == 0x11 {
        Some(Op::Sub)
    } else if byte == 0x12 {
        Some(Op::Mul)
    } else if byte == 0x13 {
        Some(Op::Div)
    } else if byte == 0x14 {
        Some(Op::Mod)
    } else if byte == 0x15 {
        Some(Op::Neg)
    } else if byte == 0x60 {
        Some(Op::Print)
    } else if byte == 0xFF {
        Some(Op::Halt)
    } else {
        None
    }
}

/// The instruction at the start of `b` and the number of bytes it takes.
pub open spec fn spec_decode(b: Seq<u8>) -> Result<(Op, nat), DecodeFault> {
    if b.len() == 0 {
        Err(DecodeFault::Empty)
    } else if b[0] == 0x01 {
        if b.len() < 9 {
            Err(DecodeFault::TruncatedPush)
        } else {
            Ok((Op::Push(from_le(b.subrange(1, 9)) as i64), 9))
        }
    } else if b[0] == 0x40 {
        if b.len() < 2 {
            Err(DecodeFault::TruncatedLoad)
        } else {
            Ok((Op::Load(b[1]), 2))
        }
    } else if b[0] == 0x41 {
        if b.len() < 2 {
            Err(DecodeFault::TruncatedStore)
        } else {
            Ok((Op::Store(b[1]), 2))
        }
    } else {
        match plain_op(b[0]) {
            Some(op) => Ok((op, 1)),
            None => Err(DecodeFault::UnknownOpcode(b[0])),
        }
    }
}

/// The text that `Op::decode` reports for a fault.
pub open spec fn decode_message(f: DecodeFault) -> Seq<char> {
    match f {
        DecodeFault::Empty => "No bytes to decode"@,
        DecodeFault::TruncatedPush => "No bytes to decode"@,
        DecodeFault::TruncatedLoad => "Truncated LOAD instruction"@,
        DecodeFault::TruncatedStore => "Truncated STORE instruction"@,
        DecodeFault::UnknownOpcode(b) => "Unknown opcode: 0x"@ + seq![hex_char(b / 16), hex_char(b % 16)],
    }
}

/// `decode_at`'s result read as a decoding of `b`.
pub open spec fn decoded_as(r: Result<(Op, usize), DecodeFault>, b: Seq<u8>) -> bool {
    match r {
        Ok((op, n)) => spec_decode(b) == Ok::<(Op, nat), DecodeFault>((op, n as nat)),
        Err(f) => spec_decode(b) == Err::<(Op, nat), DecodeFault>(f),
    }
}

proof fn lemma_le_roundtrip(v: u64)
    ensures
        from_le(le_bytes(v)) == v,
{
    assert(((v as u8) as u64) | ((((v >> 8u64) as u8) as u64) << 8u64) | ((((v >> 16u64) as u8) as u64) << 16u64)
        | ((((v >> 24u64) as u8) as u64) << 24u64) | ((((v >> 32u64) as u8) as u64) << 32u64)
        | ((((v >> 40u64) as u8) as u64) << 40u64) | ((((v >> 48u64) as u8) as u64) << 48u64)
        | ((((v >> 56u64) as u8) as u64) << 56u64) == v) by (bit_vector);
}

proof fn lemma_from_le_roundtrip(b: Seq<u8>)
    requires
        b.len() == 8,
    ensures
        le_bytes(from_le(b)) == b,
{
    let (b0, b1, b2, b3, b4, b5, b6, b7) = (b[0], b[1], b[2], b[3], b[4], b[5], b[6], b[7]);
    let v = from_le(b);
    assert(v == (b0 as u64) | ((b1 as u64) << 8u64) | ((b2 as u64) << 16u64) | ((b3 as u64) << 24u64)
        | ((b4 as u64) << 32u64) | ((b5 as u64) << 40u64) | ((b6 as u64) << 48u64) | ((b7 as u64) << 56u64));
    assert(v as u8 == b0 && (v >> 8u64) as u8 == b1 && (v >> 16u64) as u8 == b2 && (v >> 24u64) as u8 == b3
        && (v >> 32u64) as u8 == b4 && (v >> 40u64) as u8 == b5 && (v >> 48u64) as u8 == b6
        && (v >> 56u64) as u8 == b7) by (bit_vector)
        requires
            v == (b0 as u64) | ((b1 as u64) << 8u64) | ((b2 as u64) << 16u64) | ((b3 as u64) << 24u64)
                | ((b4 as u64) << 32u64) | ((b5 as u64) << 40u64) | ((b6 as u64) << 48u64) | ((b7 as u64)
                << 56u64),
    ;
    assert(le_bytes(v) =~= b);
}

proof fn lemma_i64_u64_casts(v: i64, u: u64)
    ensures
        (v as u64) as i64 == v,
        (u as i64) as u64 == u,
{
    assert((v as u64) as i64 == v) by (bit_vector);
    assert((u as i64) as u64 == u) by (bit_vector);
}

/// Decoding the bytes of an instruction, whatever follows them, gives back that
/// instruction and its length.
pub proof fn decode_encode(op: Op, rest: Seq<u8>)
    ensures
        spec_decode(spec_encode(op) + rest) == Ok::<(Op, nat), DecodeFault>((op, spec_encode(op).len())),
{
    let b = spec_encode(op) + rest;
    match op {
        Op::Push(v) => {
            lemma_le_roundtrip(v as u64);
            lemma_i64_u64_casts(v, 0);
            assert(b.subrange(1, 9) =~= le_bytes(v as u64));
        },
        _ => {},
    }
}

/// Whatever decodes to an instruction starts with that instruction's bytes.
pub proof fn encode_decode(b: Seq<u8>)
    ensures
        spec_decode(b) matches Ok((op, n)) ==> n <= b.len() && b.take(n as int) == spec_encode(op),
{
    if let Ok((op, n)) = spec_decode(b) {
        match op {
            Op::Push(v) => {
                let w = b.subrange(1, 9);
                lemma_from_le_roundtrip(w);
                lemma_i64_u64_casts(0, from_le(w));
                assert(b.take(9) =~= seq![0x01u8] + w);
            },
            Op::Load(_) => {
                assert(b.take(2) =~= seq![0x40u8, b[1]]);
            },
            Op::Store(_) => {
                assert(b.take(2) =~= seq![0x41u8, b[1]]);
            },
            _ => {
                assert(b.take(1) =~= seq![b[0]]);
            },
        }
    }
}

impl Op {
    /// The bytes of this instruction.
    pub fn encode(&self) -> (bytes: Vec<u8>)
        ensures
            bytes@ == spec_encode(*self),
    {
        let mut bytes: Vec<u8> = Vec::new();
        match self {
            Op::Push(value) => {
                let u = *value as u64;
                bytes.push(0x01);
                bytes.push(u as u8);
                bytes.push((u >> 8u64) as u8);
                bytes.push((u >> 16u64) as u8);
                bytes.push((u >> 24u64) as u8);
                bytes.push((u >> 32u64) as u8);
                bytes.push((u >> 40u64) as u8);
                bytes.push((u >> 48u64) as u8);
                bytes.push((u >> 56u64) as u8);
                assert(bytes@ =~= seq![0x01u8] + le_bytes(u));
            },
            Op::Pop => bytes.push(0x02),
            Op::Dup => bytes.push(0x03),
            Op::Swap => bytes.push(0x04),
            Op::Add => bytes.push(0x10),
            Op::Sub => bytes.push(0x11),
            Op::Mul => bytes.push(0x12),
            Op::Div => bytes.push(0x13),
            Op::Mod => bytes.push(0x14),
            Op::Neg => bytes.push(0x15),
            Op::Load(slot) => {
                bytes.push(0x40);
                bytes.push(*slot);
            },
            Op::Store(slot) => {
                bytes.push(0x41);
                bytes.push(*slot);
            },
            Op::Print => bytes.push(0x60),
            Op::Halt => bytes.push(0xFF),
        }
        assert(bytes@ =~= spec_encode(*self));
        bytes
    }

    /// Decodes the instruction that starts at `pos` in `code`.
    pub fn decode_at(code: &[u8], pos: usize) -> (r: Result<(Op, usize), DecodeFault>)
        requires
            pos <= code@.len(),
        ensures
            decoded_as(r, code@.skip(pos as int)),
    {
        let ghost b = code@.skip(pos as int);
        if pos == code.len() {
            return Err(DecodeFault::Empty);
        }
        let rem = code.len() - pos;
        let byte = code[pos];
        assert(b[0] == byte);
        if byte == 0x01 {
            if rem < 9 {
                return Err(DecodeFault::TruncatedPush);
            }
            let u: u64 = (code[pos + 1] as u64) | ((code[pos + 2] as u64) << 8u64) | ((code[pos + 3] as u64)
                << 16u64) | ((code[pos + 4] as u64) << 24u64) | ((code[pos + 5] as u64) << 32u64) | ((
            code[pos + 6] as u64) << 40u64) | ((code[pos + 7] as u64) << 48u64) | ((code[pos + 8] as u64)
                << 56u64);
            assert(u == from_le(b.subrange(1, 9)));
            Ok((Op::Push(u as i64), 9))
        } else if byte == 0x40 {
            if rem < 2 {
                return Err(DecodeFault::TruncatedLoad);
            }
            Ok((Op::Load(code[pos + 1]), 2))
        } else if byte == 0x41 {
            if rem < 2 {
                return Err(DecodeFault::TruncatedStore);
            }
            Ok((Op::Store(code[pos + 1]), 2))
        } else if byte == 0x02 {
            Ok((Op::Pop, 1))
        } else if byte == 0x03 {
            Ok((Op::Dup, 1))
        } else if byte == 0x04 {
            Ok((Op::Swap, 1))
        } else if byte == 0x10 {
            Ok((Op::Add, 1))
        } else if byte == 0x11 {
            Ok((Op::Sub, 1))
        } else if byte == 0x12 {
            Ok((Op::Mul, 1))
        } else if byte == 0x13 {
            Ok((Op::Div, 1))
        } else if byte == 0x14 {
            Ok((Op::Mod, 1))
        } else if byte == 0x15 {
            Ok((Op::Neg, 1))
        } else if byte == 0x60 {
            Ok((Op::Print, 1))
        } else if byte == 0xFF {
            Ok((Op::Halt, 1))
        } else {
            Err(DecodeFault::UnknownOpcode(byte))
        }
    }

    /// Decodes the instruction at the start of `bytes`, returning it with the
    /// number of bytes it takes, or the reason why there is none.
    pub fn decode(bytes: &[u8]) -> (r: Result<(Op, usize), String>)
        ensures
            r matches Ok((op, n)) ==> spec_decode(bytes@) == Ok::<(Op, nat), DecodeFault>((op, n as nat)),
            r matches Err(msg) ==> spec_decode(bytes@) matches Err(f) && msg@ == decode_message(f),
            r is Ok <==> spec_decode(bytes@) is Ok,
    {
        assert(bytes@.skip(0) =~= bytes@);
        match Op::decode_at(bytes, 0) {
            Ok(found) => Ok(found),
            Err(f) => Err(fault_message(f)),
        }
    }
}

/// The text of a decoding fault.
pub fn fault_message(f: DecodeFault) -> (msg: String)
    ensures
        msg@ == decode_message(f),
{
    let mut out: Vec<char> = Vec::new();
    match f {
        DecodeFault::Empty => push_str(&mut out, "No bytes to decode"),
        DecodeFault::TruncatedPush => push_str(&mut out, "No bytes to decode"),
        DecodeFault::TruncatedLoad => push_str(&mut out, "Truncated LOAD instruction"),
        DecodeFault::TruncatedStore => push_str(&mut out, "Truncated STORE instruction"),
        DecodeFault::UnknownOpcode(b) => {
            push_str(&mut out, "Unknown opcode: 0x");
            let hi = hex_digit(b / 16);
            let lo = hex_digit(b % 16);
            out.push(hi);
            out.push(lo);
        },
    }
    assert(out@ =~= decode_message(f));
    string_of(&out)
}

} // verus!
