//! What the assembler and the disassembler owe each other: the text written for
//! a program assembles back into that program, and code disassembles into text
//! that assembles back into the same code.
use vstd::prelude::*;
use crate::isa::{Op, DecodeFault};
use crate::assembler::{
    AsmFault,
    parse_lines,
    plain_mnemonic,
    spec_encode_program,
    spec_parse_instruction,
    spec_parse_program,
};
use crate::disassembler::{
    decode_encode_program,
    decode_program,
    encode_decode_program,
    line_of,
    mnemonic,
    program_text,
    spec_disassemble,
};
use crate::numeral::{
    spec_parse_i64,
    spec_parse_u8,
    all_digits,
    decimal,
    is_digit,
    lemma_decimal,
    parse_i64_signed_decimal,
    parse_u8_decimal,
    signed_decimal,
};
use crate::text::{
    before_semicolon,
    flush,
    is_ws,
    spec_lines,
    spec_strip_comments,
    spec_tokens,
    spec_upper,
    split_lines_from,
    split_ws_from,
    strip_cr,
    trim_end,
    trim_start,
};

verus! {

/// No whitespace, line feed, carriage return or ';' anywhere in `s`.
pub open spec fn plain_word(s: Seq<char>) -> bool {
    forall|i: int|
        0 <= i < s.len() ==> !is_ws(#[trigger] s[i]) && s[i] != '\n' && s[i] != '\r' && s[i] != ';'
}

/// The lines written for each instruction.
pub open spec fn lines_of(ops: Seq<Op>) -> Seq<Seq<char>> {
    ops.map_values(|op: Op| line_of(op))
}

proof fn lemma_lines_append(s: Seq<char>, t: Seq<char>, cur: Seq<char>)
    requires
        s.len() > 0,
        s.last() == '\n',
    ensures
        split_lines_from(s + t, cur) == split_lines_from(s, cur) + split_lines_from(t, seq![]),
    decreases s.len(),
{
    assert((s + t)[0] == s[0]);
    assert((s + t).drop_first() =~= s.drop_first() + t);
    if s[0] == '\n' {
        if s.len() == 1 {
            assert(s.drop_first() + t =~= t);
            assert(split_lines_from(s.drop_first(), seq![]) =~= Seq::<Seq<char>>::empty());
            assert(split_lines_from(s, cur) =~= seq![strip_cr(cur)]);
        } else {
            lemma_lines_append(s.drop_first(), t, seq![]);
            assert(split_lines_from(s + t, cur) =~= split_lines_from(s, cur) + split_lines_from(
                t,
                seq![],
            ));
        }
    } else {
        lemma_lines_append(s.drop_first(), t, cur.push(s[0]));
    }
}

proof fn lemma_line_feed(x: Seq<char>, cur: Seq<char>)
    requires
        forall|i: int| 0 <= i < x.len() ==> #[trigger] x[i] != '\n',
    ensures
        split_lines_from(x + seq!['\n'], cur) == seq![strip_cr(cur + x)],
    decreases x.len(),
{
    let s = x + seq!['\n'];
    if x.len() == 0 {
        assert(s =~= seq!['\n']);
        assert(s.drop_first() =~= Seq::<char>::empty());
        assert(cur + x =~= cur);
        assert(s[0] == '\n');
        assert(split_lines_from(s.drop_first(), seq![]) =~= Seq::<Seq<char>>::empty());
        assert(split_lines_from(s, cur) =~= seq![strip_cr(cur)]);
    } else {
        assert(s[0] == x[0]);
        assert(s.drop_first() =~= x.drop_first() + seq!['\n']);
        lemma_line_feed(x.drop_first(), cur.push(x[0]));
        assert(cur.push(x[0]) + x.drop_first() =~= cur + x);
    }
}

proof fn lemma_tokens_word(a: Seq<char>, b: Seq<char>, cur: Seq<char>)
    requires
        forall|i: int| 0 <= i < a.len() ==> !is_ws(#[trigger] a[i]),
    ensures
        split_ws_from(a + b, cur) == split_ws_from(b, cur + a),
    decreases a.len(),
{
    if a.len() == 0 {
        assert(a + b =~= b);
        assert(cur + a =~= cur);
    } else {
        assert((a + b)[0] == a[0]);
        assert((a + b).drop_first() =~= a.drop_first() + b);
        lemma_tokens_word(a.drop_first(), b, cur.push(a[0]));
        assert(cur.push(a[0]) + a.drop_first() =~= cur + a);
    }
}

proof fn lemma_before_semicolon(s: Seq<char>)
    requires
        forall|i: int| 0 <= i < s.len() ==> #[trigger] s[i] != ';',
    ensures
        before_semicolon(s) == s,
    decreases s.len(),
{
    if s.len() > 0 {
        lemma_before_semicolon(s.drop_first());
        assert(seq![s[0]] + s.drop_first() =~= s);
    }
}

/// The one- or two-word line `m` or `m d` (with a single space).
proof fn lemma_words(m: Seq<char>, d: Seq<char>)
    requires
        m.len() > 0,
        d.len() > 0,
        plain_word(m),
        plain_word(d),
    ensures
        spec_tokens(m) == seq![m],
        spec_tokens(m + seq![' '] + d) == seq![m, d],
{
    lemma_tokens_word(m, seq![], seq![]);
    assert(m + seq![] =~= m);
    assert(seq![] + m =~= m);
    let line = m + seq![' '] + d;
    assert(line =~= m + (seq![' '] + d));
    lemma_tokens_word(m, seq![' '] + d, seq![]);
    assert((seq![' '] + d)[0] == ' ');
    assert((seq![' '] + d).drop_first() =~= d);
    lemma_tokens_word(d, seq![], seq![]);
    assert(d + seq![] =~= d);
    assert(seq![] + d =~= d);
    assert(split_ws_from(seq![], d) == flush(d));
    assert(spec_tokens(line) =~= seq![m, d]);
}

proof fn lemma_digits_plain(d: Seq<char>)
    requires
        all_digits(d),
    ensures
        plain_word(d),
{
    assert forall|i: int| 0 <= i < d.len() implies !is_ws(#[trigger] d[i]) && d[i] != '\n' && d[i]
        != '\r' && d[i] != ';' by {
        assert(is_digit(d[i]));
    }
}

proof fn lemma_mnemonic(op: Op)
    ensures
        mnemonic(op).len() > 0,
        plain_word(mnemonic(op)),
        spec_upper(mnemonic(op)) == mnemonic(op),
        mnemonic(op) == "PUSH"@ <==> op is Push,
        mnemonic(op) == "LOAD"@ <==> op is Load,
        mnemonic(op) == "STORE"@ <==> op is Store,
        !(op is Push || op is Load || op is Store) ==> plain_mnemonic(mnemonic(op)) == Some(op),
{
    reveal_strlit("PUSH");
    reveal_strlit("POP");
    reveal_strlit("DUP");
    reveal_strlit("SWAP");
    reveal_strlit("ADD");
    reveal_strlit("SUB");
    reveal_strlit("MUL");
    reveal_strlit("DIV");
    reveal_strlit("MOD");
    reveal_strlit("NEG");
    reveal_strlit("LOAD");
    reveal_strlit("STORE");
    reveal_strlit("PRINT");
    reveal_strlit("HALT");
    let m = mnemonic(op);
    assert(spec_upper(m) =~= m);
    assert(m.len() > 0);
    assert(plain_word(m));
    assert(m == "PUSH"@ ==> m[1] == 'U' && m.len() == 4 && m[0] == 'P');
    assert(m == "LOAD"@ ==> m[0] == 'L' && m.len() == 4);
    assert(m == "STORE"@ ==> m[0] == 'S' && m.len() == 5);
    assert(m == "POP"@ ==> m[0] == 'P' && m[1] == 'O' && m.len() == 3);
    assert(m == "DUP"@ ==> m[0] == 'D' && m[1] == 'U' && m.len() == 3);
    assert(m == "SWAP"@ ==> m[0] == 'S' && m.len() == 4);
    assert(m == "ADD"@ ==> m[0] == 'A' && m.len() == 3);
    assert(m == "SUB"@ ==> m[0] == 'S' && m.len() == 3);
    assert(m == "MUL"@ ==> m[0] == 'M' && m[1] == 'U' && m.len() == 3);
    assert(m == "DIV"@ ==> m[0] == 'D' && m[1] == 'I' && m.len() == 3);
    assert(m == "MOD"@ ==> m[0] == 'M' && m[1] == 'O' && m.len() == 3);
    assert(m == "NEG"@ ==> m[0] == 'N' && m.len() == 3);
    assert(m == "PRINT"@ ==> m[0] == 'P' && m.len() == 5);
    assert(m == "HALT"@ ==> m[0] == 'H' && m.len() == 4);
}

/// Facts about the line written for an instruction: it holds no line break, and
/// it is its own code (no comment, no surrounding whitespace) and parses back
/// into the instruction, whatever its line number.
proof fn lemma_line_of(op: Op, line_no: nat)
    ensures
        forall|i: int| 0 <= i < line_of(op).len() ==> #[trigger] line_of(op)[i] != '\n',
        line_of(op).len() > 0,
        line_of(op).last() != '\r',
        spec_strip_comments(line_of(op)) == line_of(op),
        spec_parse_instruction(line_of(op), line_no) == Ok::<Op, AsmFault>(op),
{
    let m = mnemonic(op);
    lemma_mnemonic(op);
    let line = line_of(op);
    let d: Seq<char> = match op {
        Op::Push(v) => signed_decimal(v as int),
        Op::Load(s) => decimal(s as nat),
        Op::Store(s) => decimal(s as nat),
        _ => seq![],
    };
    if op is Push || op is Load || op is Store {
        match op {
            Op::Push(v) => {
                parse_i64_signed_decimal(v);
                if v < 0 {
                    lemma_decimal((-v) as nat);
                    lemma_digits_plain(decimal((-v) as nat));
                    assert(plain_word(d)) by {
                        assert forall|i: int| 0 <= i < d.len() implies !is_ws(#[trigger] d[i])
                            && d[i] != '\n' && d[i] != '\r' && d[i] != ';' by {
                            if i > 0 {
                                assert(d[i] == decimal((-v) as nat)[i - 1]);
                            }
                        }
                    }
                } else {
                    lemma_decimal(v as nat);
                    lemma_digits_plain(d);
                }
            },
            Op::Load(s) => {
                parse_u8_decimal(s);
                lemma_decimal(s as nat);
                lemma_digits_plain(d);
            },
            Op::Store(s) => {
                parse_u8_decimal(s);
                lemma_decimal(s as nat);
                lemma_digits_plain(d);
            },
            _ => {},
        }
        assert(line == m + seq![' '] + d);
        lemma_words(m, d);
        assert(forall|i: int| 0 <= i < line.len() ==> #[trigger] line[i] != ';' && line[i] != '\n') by {
            assert forall|i: int| 0 <= i < line.len() implies #[trigger] line[i] != ';' && line[i]
                != '\n' by {
                if i < m.len() {
                    assert(line[i] == m[i]);
                } else if i > m.len() {
                    assert(line[i] == d[i - m.len() - 1]);
                }
            }
        }
        assert(line.last() == d.last());
        assert(!is_ws(line.last()) && line.last() != '\r');
        assert(line[0] == m[0]);
    } else {
        assert(line == m);
        lemma_words(m, seq!['0']);
        assert(m.last() == m[m.len() - 1]);
    }
    lemma_before_semicolon(line);
    assert(trim_start(line) == line);
    assert(trim_end(line) == line);
}

proof fn lemma_text_ends_in_line_feed(ops: Seq<Op>)
    ensures
        program_text(ops).len() == 0 <==> ops.len() == 0,
        ops.len() > 0 ==> program_text(ops).last() == '\n',
{
}

/// The lines of a written program are the lines written for its instructions.
proof fn lemma_text_lines(ops: Seq<Op>)
    ensures
        spec_lines(program_text(ops)) == lines_of(ops),
    decreases ops.len(),
{
    if ops.len() == 0 {
        assert(spec_lines(program_text(ops)) =~= lines_of(ops));
    } else {
        let init = ops.drop_last();
        let t = program_text(init);
        let x = line_of(ops.last());
        lemma_line_of(ops.last(), 0);
        lemma_text_lines(init);
        lemma_text_ends_in_line_feed(init);
        lemma_line_feed(x, seq![]);
        assert(seq![] + x =~= x);
        assert(strip_cr(x) == x);
        assert(program_text(ops) =~= t + (x + seq!['\n']));
        if init.len() == 0 {
            assert(t =~= Seq::<char>::empty());
            assert(t + (x + seq!['\n']) =~= x + seq!['\n']);
        } else {
            lemma_lines_append(t, x + seq!['\n'], seq![]);
        }
        assert(lines_of(ops) =~= lines_of(init).push(x));
        assert(spec_lines(program_text(ops)) =~= lines_of(ops));
    }
}

proof fn lemma_parse_written_lines(ops: Seq<Op>)
    ensures
        parse_lines(lines_of(ops)) == Ok::<Seq<Op>, AsmFault>(ops),
    decreases ops.len(),
{
    if ops.len() == 0 {
        assert(lines_of(ops) =~= Seq::<Seq<char>>::empty());
        assert(ops =~= Seq::<Op>::empty());
    } else {
        let init = ops.drop_last();
        lemma_parse_written_lines(init);
        let lines = lines_of(ops);
        assert(lines.drop_last() =~= lines_of(init));
        assert(lines.last() == line_of(ops.last()));
        lemma_line_of(ops.last(), lines.len());
        assert(init.push(ops.last()) =~= ops);
    }
}

/// The text written for a program assembles back into that program.
pub proof fn parse_program_text(ops: Seq<Op>)
    ensures
        spec_parse_program(program_text(ops)) == Ok::<Seq<Op>, AsmFault>(ops),
{
    lemma_text_lines(ops);
    lemma_parse_written_lines(ops);
}

/// Disassembling the code of a program gives the text written for it, and
/// assembling that text gives the program back.
pub proof fn disassemble_assemble(ops: Seq<Op>)
    ensures
        spec_disassemble(spec_encode_program(ops)) == Ok::<Seq<char>, DecodeFault>(program_text(ops)),
        spec_parse_program(program_text(ops)) == Ok::<Seq<Op>, AsmFault>(ops),
{
    decode_encode_program(ops);
    parse_program_text(ops);
}

/// Whatever code disassembles, its text assembles back into that same code.
pub proof fn assemble_disassemble(code: Seq<u8>)
    ensures
        spec_disassemble(code) matches Ok(text) ==> (spec_parse_program(text) matches Ok(ops)
            && spec_encode_program(ops) == code),
{
    if let Ok(ops) = decode_program(code) {
        encode_decode_program(code);
        parse_program_text(ops);
    }
}

/// Each mnemonic, in upper case, names its instruction.
pub proof fn mnemonics_name_their_instructions(line_no: nat)
    ensures
        spec_parse_instruction("POP"@, line_no) == Ok::<Op, AsmFault>(Op::Pop),
        spec_parse_instruction("DUP"@, line_no) == Ok::<Op, AsmFault>(Op::Dup),
        spec_parse_instruction("SWAP"@, line_no) == Ok::<Op, AsmFault>(Op::Swap),
        spec_parse_instruction("ADD"@, line_no) == Ok::<Op, AsmFault>(Op::Add),
        spec_parse_instruction("SUB"@, line_no) == Ok::<Op, AsmFault>(Op::Sub),
        spec_parse_instruction("MUL"@, line_no) == Ok::<Op, AsmFault>(Op::Mul),
        spec_parse_instruction("DIV"@, line_no) == Ok::<Op, AsmFault>(Op::Div),
        spec_parse_instruction("MOD"@, line_no) == Ok::<Op, AsmFault>(Op::Mod),
        spec_parse_instruction("NEG"@, line_no) == Ok::<Op, AsmFault>(Op::Neg),
        spec_parse_instruction("PRINT"@, line_no) == Ok::<Op, AsmFault>(Op::Print),
        spec_parse_instruction("HALT"@, line_no) == Ok::<Op, AsmFault>(Op::Halt),
{
    lemma_line_of(Op::Pop, line_no);
    lemma_line_of(Op::Dup, line_no);
    lemma_line_of(Op::Swap, line_no);
    lemma_line_of(Op::Add, line_no);
    lemma_line_of(Op::Sub, line_no);
    lemma_line_of(Op::Mul, line_no);
    lemma_line_of(Op::Div, line_no);
    lemma_line_of(Op::Mod, line_no);
    lemma_line_of(Op::Neg, line_no);
    lemma_line_of(Op::Print, line_no);
    lemma_line_of(Op::Halt, line_no);
}

/// `PUSH t` reads as PUSH of the value that `t` denotes as an `i64`, and
/// `LOAD t` and `STORE t` as LOAD and STORE of the slot that `t` denotes as a
/// `u8`, for an operand word `t` without whitespace, line break or ';'.
pub proof fn operands_are_read_as_numbers(t: Seq<char>, line_no: nat)
    requires
        t.len() > 0,
        plain_word(t),
    ensures
        spec_parse_i64(t) matches Some(v) ==> spec_parse_instruction("PUSH"@ + seq![' '] + t, line_no)
            == Ok::<Op, AsmFault>(Op::Push(v)),
        spec_parse_u8(t) matches Some(k) ==> spec_parse_instruction("LOAD"@ + seq![' '] + t, line_no)
            == Ok::<Op, AsmFault>(Op::Load(k)),
        spec_parse_u8(t) matches Some(k) ==> spec_parse_instruction("STORE"@ + seq![' '] + t, line_no)
            == Ok::<Op, AsmFault>(Op::Store(k)),
{
    lemma_mnemonic(Op::Push(0));
    lemma_mnemonic(Op::Load(0));
    lemma_mnemonic(Op::Store(0));
    lemma_words("PUSH"@, t);
    lemma_words("LOAD"@, t);
    lemma_words("STORE"@, t);
}

} // verus!
