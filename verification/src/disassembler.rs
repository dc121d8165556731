//! The disassembler: code back to program text.
use vstd::prelude::*;
use crate::isa::{Op, DecodeFault, spec_decode, decode_encode, encode_decode, spec_encode};
use crate::assembler::spec_encode_program;
use crate::numeral::{decimal, signed_decimal, push_decimal, push_signed};
use crate::text::{push_str, string_of};

verus! {

/// The mnemonic that the disassembler writes for an instruction.
pub open spec fn mnemonic(op: Op) -> Seq<char> {
    match op {
        Op::Push(_) => "PUSH"@,
        Op::Pop => "POP"@,
        Op::Dup => "DUP"@,
        Op::Swap => "SWAP"@,
        Op::Add => "ADD"@,
        Op::Sub => "SUB"@,
        Op::Mul => "MUL"@,
        Op::Div => "DIV"@,
        Op::Mod => "MOD"@,
        Op::Neg => "NEG"@,
        Op::Load(_) => "LOAD"@,
        Op::Store(_) => "STORE"@,
        Op::Print => "PRINT"@,
        Op::Halt => "HALT"@,
    }
}

/// The line written for an instruction, without its line feed: the mnemonic,
/// then for PUSH, LOAD and STORE a space and the operand in decimal.
pub open spec fn line_of(op: Op) -> Seq<char> {
    match op {
        Op::Push(v) => mnemonic(op) + seq![' '] + signed_decimal(v as int),
        Op::Load(s) => mnemonic(op) + seq![' '] + decimal(s as nat),
        Op::Store(s) => mnemonic(op) + seq![' '] + decimal(s as nat),
        _ => mnemonic(op),
    }
}

/// The text written for a sequence of instructions: one line each, each ended by
/// a line feed.
pub open spec fn program_text(ops: Seq<Op>) -> Seq<char>
    decreases ops.len(),
{
    if ops.len() == 0 {
        seq![]
    } else {
        program_text(ops.drop_last()) + line_of(ops.last()) + seq!['\n']
    }
}

/// The instructions that `code` holds one after another, or the fault of the
/// first place where no instruction can be decoded.
pub open spec fn decode_program(code: Seq<u8>) -> Result<Seq<Op>, DecodeFault>
    decreases code.len(),
{
    if code.len() == 0 {
        Ok(seq![])
    } else {
        match spec_decode(code) {
            Err(f) => Err(f),
            Ok((op, n)) => {
                if 1 <= n <= code.len() {
                    match decode_program(code.skip(n as int)) {
                        Ok(ops) => Ok(seq![op] + ops),
                        Err(f) => Err(f),
                    }
                } else {
                    Ok(seq![])
                }
            },
        }
    }
}

/// The text of the instructions in `code`.
pub open spec fn spec_disassemble(code: Seq<u8>) -> Result<Seq<char>, DecodeFault> {
    match decode_program(code) {
        Ok(ops) => Ok(program_text(ops)),
        Err(f) => Err(f),
    }
}

/// `ops` followed by what `r` holds, or `r`'s fault.
pub open spec fn prepend(ops: Seq<Op>, r: Result<Seq<Op>, DecodeFault>) -> Result<Seq<Op>, DecodeFault> {
    match r {
        Ok(rest) => Ok(ops + rest),
        Err(f) => Err(f),
    }
}

/// Decoding always takes between one byte and what is there.
pub proof fn lemma_decode_length(b: Seq<u8>)
    ensures
        spec_decode(b) matches Ok((op, n)) ==> 1 <= n <= b.len() && n == spec_encode(op).len(),
{
    encode_decode(b);
}

/// Appends the line written for `op`, with its line feed.
fn write_op(out: &mut Vec<char>, op: Op)
    ensures
        final(out)@ == old(out)@ + line_of(op) + seq!['\n'],
{
    match op {
        Op::Push(v) => {
            push_str(out, "PUSH");
            out.push(' ');
            push_signed(out, v);
        },
        Op::Pop => push_str(out, "POP"),
        Op::Dup => push_str(out, "DUP"),
        Op::Swap => push_str(out, "SWAP"),
        Op::Add => push_str(out, "ADD"),
        Op::Sub => push_str(out, "SUB"),
        Op::Mul => push_str(out, "MUL"),
        Op::Div => push_str(out, "DIV"),
        Op::Mod => push_str(out, "MOD"),
        Op::Neg => push_str(out, "NEG"),
        Op::Load(s) => {
            push_str(out, "LOAD");
            out.push(' ');
            push_decimal(out, s as u64);
        },
        Op::Store(s) => {
            push_str(out, "STORE");
            out.push(' ');
            push_decimal(out, s as u64);
        },
        Op::Print => push_str(out, "PRINT"),
        Op::Halt => push_str(out, "HALT"),
    }
    out.push('\n');
    assert(final(out)@ =~= old(out)@ + line_of(op) + seq!['\n']);
}

/// The program text of `code`, one instruction per line, or the fault of the
/// first place where no instruction can be decoded.
pub fn disassemble(code: &[u8]) -> (r: Result<String, DecodeFault>)
    ensures
        match r {
            Ok(text) => spec_disassemble(code@) == Ok::<Seq<char>, DecodeFault>(text@),
            Err(f) => spec_disassemble(code@) == Err::<Seq<char>, DecodeFault>(f),
        },
{
    let mut out: Vec<char> = Vec::new();
    let mut pc: usize = 0;
    let ghost mut ops: Seq<Op> = seq![];
    assert(code@.skip(0) =~= code@);
    assert(ops + seq![] =~= ops);
    while pc < code.len()
        invariant
            pc <= code@.len(),
            decode_program(code@) == prepend(ops, decode_program(code@.skip(pc as int))),
            out@ == program_text(ops),
        decreases code@.len() - pc,
    {
        let ghost rest = code@.skip(pc as int);
        proof {
            lemma_decode_length(rest);
        }
        match Op::decode_at(code, pc) {
            Err(f) => {
                return Err(f);
            },
            Ok((op, size)) => {
                write_op(&mut out, op);
                assert(rest.skip(size as int) =~= code@.skip(pc + size));
                proof {
                    let tail = decode_program(code@.skip(pc + size));
                    assert(decode_program(rest) == prepend(seq![op], tail));
                    assert(prepend(ops, prepend(seq![op], tail)) == prepend(ops.push(op), tail)) by {
                        if let Ok(t) = tail {
                            assert(ops + (seq![op] + t) =~= ops.push(op) + t);
                        }
                    }
                    assert(ops.push(op).drop_last() =~= ops);
                    ops = ops.push(op);
                }
                pc = pc + size;
            },
        }
    }
    assert(ops + seq![] =~= ops);
    Ok(string_of(&out))
}

proof fn lemma_encode_program_first(ops: Seq<Op>)
    requires
        ops.len() > 0,
    ensures
        spec_encode_program(ops) == spec_encode(ops[0]) + spec_encode_program(ops.drop_first()),
    decreases ops.len(),
{
    if ops.len() == 1 {
        assert(ops.drop_last() =~= Seq::<Op>::empty());
        assert(ops.drop_first() =~= Seq::<Op>::empty());
        assert(spec_encode(ops[0]) + seq![] =~= spec_encode(ops[0]));
    } else {
        let init = ops.drop_last();
        lemma_encode_program_first(init);
        assert(init.drop_first() =~= ops.drop_first().drop_last());
        assert(ops.drop_first().last() == ops.last());
        assert(spec_encode_program(ops) =~= spec_encode(ops[0]) + spec_encode_program(ops.drop_first()));
    }
}

/// Decoding the code of a program gives that program back.
pub proof fn decode_encode_program(ops: Seq<Op>)
    ensures
        decode_program(spec_encode_program(ops)) == Ok::<Seq<Op>, DecodeFault>(ops),
    decreases ops.len(),
{
    if ops.len() == 0 {
        assert(ops =~= Seq::<Op>::empty());
    } else {
        let code = spec_encode_program(ops);
        let head = spec_encode(ops[0]);
        let tail = spec_encode_program(ops.drop_first());
        lemma_encode_program_first(ops);
        decode_encode(ops[0], tail);
        decode_encode_program(ops.drop_first());
        assert(head.len() >= 1);
        assert(code == head + tail);
        assert(spec_decode(code) == Ok::<(Op, nat), DecodeFault>((ops[0], head.len())));
        assert(code.skip(head.len() as int) =~= tail);
        assert(decode_program(code) == prepend(seq![ops[0]], decode_program(tail)));
        assert(seq![ops[0]] + ops.drop_first() =~= ops);
    }
}

/// Code that decodes into a program is exactly the code of that program.
pub proof fn encode_decode_program(code: Seq<u8>)
    ensures
        decode_program(code) matches Ok(ops) ==> spec_encode_program(ops) == code,
    decreases code.len(),
{
    if code.len() > 0 {
        if let Ok((op, n)) = spec_decode(code) {
            encode_decode(code);
            lemma_decode_length(code);
            encode_decode_program(code.skip(n as int));
            if let Ok(rest) = decode_program(code.skip(n as int)) {
                let ops = seq![op] + rest;
                assert(ops.drop_first() =~= rest);
                lemma_encode_program_first(ops);
                assert(code =~= code.take(n as int) + code.skip(n as int));
            }
        }
    }
}

/// The line written for each instruction: its upper-case mnemonic, and for
/// PUSH, LOAD and STORE one space and the operand in decimal; each line of a
/// program's text ends with a line feed.
pub proof fn disassembly_lines(v: i64, k: u8, op: Op)
    ensures
        line_of(Op::Push(v)) == "PUSH"@ + seq![' '] + signed_decimal(v as int),
        line_of(Op::Load(k)) == "LOAD"@ + seq![' '] + decimal(k as nat),
        line_of(Op::Store(k)) == "STORE"@ + seq![' '] + decimal(k as nat),
        line_of(Op::Pop) == "POP"@,
        line_of(Op::Dup) == "DUP"@,
        line_of(Op::Swap) == "SWAP"@,
        line_of(Op::Add) == "ADD"@,
        line_of(Op::Sub) == "SUB"@,
        line_of(Op::Mul) == "MUL"@,
        line_of(Op::Div) == "DIV"@,
        line_of(Op::Mod) == "MOD"@,
        line_of(Op::Neg) == "NEG"@,
        line_of(Op::Print) == "PRINT"@,
        line_of(Op::Halt) == "HALT"@,
        program_text(seq![op]) == line_of(op) + seq!['\n'],
{
    assert(seq![op].drop_last() =~= Seq::<Op>::empty());
    assert(seq![op].last() == op);
    assert(program_text(Seq::<Op>::empty()) =~= Seq::<char>::empty());
    assert(program_text(seq![op]) == program_text(seq![op].drop_last()) + line_of(op) + seq!['\n']);
    assert(program_text(seq![op]) =~= line_of(op) + seq!['\n']);
}

} // verus!
