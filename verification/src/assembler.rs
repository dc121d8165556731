//! The assembler: program text to instructions, instructions to code.
use vstd::prelude::*;
use crate::isa::{Op, spec_encode};
use crate::numeral::{all_digits, decimal, is_digit, push_decimal, read_i64, read_u8, spec_parse_i64, spec_parse_u8};
use crate::text::{
    push_str,
    before_semicolon,
    chars_of,
    flush,
    is_ws,
    split_ws_from,
    upper_char,
    is_word,
    split_lines,
    split_tokens,
    spec_lines,
    spec_strip_comments,
    spec_tokens,
    spec_upper,
    string_of,
    strip_comments,
    to_upper,
    views,
};

verus! {

/// Why a program text does not assemble; `line` counts from 1.
#[derive(Debug)]
pub enum AsmError {
    /// A line holds no word (never produced for a line that is blank after
    /// removing its comment: such a line is skipped).
    EmptyInstruction { line: usize },
    /// The instruction has the wrong number of words (mnemonic included).
    TokenCount { line: usize, expected: usize, found: usize },
    /// The operand of PUSH is no `i64`.
    InvalidInteger { line: usize, text: String },
    /// The operand of LOAD or STORE is no `u8`.
    InvalidSlot { line: usize, text: String },
    /// The mnemonic (in upper case) names no instruction.
    UnknownInstruction { line: usize, mnemonic: String },
}

/// `AsmError` with its texts as character sequences.
pub enum AsmFault {
    EmptyInstruction { line: nat },
    TokenCount { line: nat, expected: nat, found: nat },
    InvalidInteger { line: nat, text: Seq<char> },
    InvalidSlot { line: nat, text: Seq<char> },
    UnknownInstruction { line: nat, mnemonic: Seq<char> },
}

impl View for AsmError {
    type V = AsmFault;

    open spec fn view(&self) -> AsmFault {
        match self {
            AsmError::EmptyInstruction { line } => AsmFault::EmptyInstruction { line: *line as nat },
            AsmError::TokenCount { line, expected, found } => AsmFault::TokenCount {
                line: *line as nat,
                expected: *expected as nat,
                found: *found as nat,
            },
            AsmError::InvalidInteger { line, text } => AsmFault::InvalidInteger {
                line: *line as nat,
                text: text@,
            },
            AsmError::InvalidSlot { line, text } => AsmFault::InvalidSlot { line: *line as nat, text: text@ },
            AsmError::UnknownInstruction { line, mnemonic } => AsmFault::UnknownInstruction {
                line: *line as nat,
                mnemonic: mnemonic@,
            },
        }
    }
}

/// The instruction without operand that the mnemonic `m` names, if any.
pub open spec fn plain_mnemonic(m: Seq<char>) -> Option<Op> {
    if m == "POP"@ {
        Some(Op::Pop)
    } else if m == "DUP"@ {
        Some(Op::Dup)
    } else if m == "SWAP"@ {
        Some(Op::Swap)
    } else if m == "ADD"@ {
        Some(Op::Add)
    } else if m == "SUB"@ {
        Some(Op::Sub)
    } else if m == "MUL"@ {
        Some(Op::Mul)
    } else if m == "DIV"@ {
        Some(Op::Div)
    } else if m == "MOD"@ {
        Some(Op::Mod)
    } else if m == "NEG"@ {
        Some(Op::Neg)
    } else if m == "PRINT"@ {
        Some(Op::Print)
    } else if m == "HALT"@ {
        Some(Op::Halt)
    } else {
        None
    }
}

/// The instruction that a line without comment stands for. The mnemonic is
/// matched without regard to ASCII case; PUSH takes an `i64`, LOAD and STORE a
/// `u8` slot, the others nothing.
pub open spec fn spec_parse_instruction(line: Seq<char>, line_no: nat) -> Result<Op, AsmFault> {
    let toks = spec_tokens(line);
    if toks.len() == 0 {
        Err(AsmFault::EmptyInstruction { line: line_no })
    } else {
        let m = spec_upper(toks[0]);
        if m == "PUSH"@ || m == "LOAD"@ || m == "STORE"@ {
            if toks.len() != 2 {
                Err(AsmFault::TokenCount { line: line_no, expected: 2, found: toks.len() })
            } else if m == "PUSH"@ {
                match spec_parse_i64(toks[1]) {
                    Some(v) => Ok(Op::Push(v)),
                    None => Err(AsmFault::InvalidInteger { line: line_no, text: toks[1] }),
                }
            } else {
                match spec_parse_u8(toks[1]) {
                    Some(s) => Ok(
                        if m == "LOAD"@ {
                            Op::Load(s)
                        } else {
                            Op::Store(s)
                        },
                    ),
                    None => Err(AsmFault::InvalidSlot { line: line_no, text: toks[1] }),
                }
            }
        } else {
            match plain_mnemonic(m) {
                Some(op) => if toks.len() != 1 {
                    Err(AsmFault::TokenCount { line: line_no, expected: 1, found: toks.len() })
                } else {
                    Ok(op)
                },
                None => Err(AsmFault::UnknownInstruction { line: line_no, mnemonic: m }),
            }
        }
    }
}

/// The instructions of the first lines of a program, in order, or the fault of
/// the first line that has one. A line that is blank once its comment is removed
/// stands for no instruction.
pub open spec fn parse_lines(lines: Seq<Seq<char>>) -> Result<Seq<Op>, AsmFault>
    decreases lines.len(),
{
    if lines.len() == 0 {
        Ok(seq![])
    } else {
        match parse_lines(lines.drop_last()) {
            Err(e) => Err(e),
            Ok(ops) => {
                let code = spec_strip_comments(lines.last());
                if code.len() == 0 {
                    Ok(ops)
                } else {
                    match spec_parse_instruction(code, lines.len()) {
                        Ok(op) => Ok(ops.push(op)),
                        Err(e) => Err(e),
                    }
                }
            },
        }
    }
}

/// The instructions of a program text.
pub open spec fn spec_parse_program(source: Seq<char>) -> Result<Seq<Op>, AsmFault> {
    parse_lines(spec_lines(source))
}

/// The code of a sequence of instructions: their encodings one after another.
pub open spec fn spec_encode_program(ops: Seq<Op>) -> Seq<u8>
    decreases ops.len(),
{
    if ops.len() == 0 {
        seq![]
    } else {
        spec_encode_program(ops.drop_last()) + spec_encode(ops.last())
    }
}

/// The first line that fails decides the error: once some first lines of a
/// program fail, adding more lines after them never changes the error.
pub proof fn first_error_wins(lines: Seq<Seq<char>>, k: int, e: AsmFault)
    requires
        0 <= k <= lines.len(),
        parse_lines(lines.take(k)) == Err::<Seq<Op>, AsmFault>(e),
    ensures
        parse_lines(lines) == Err::<Seq<Op>, AsmFault>(e),
    decreases lines.len(),
{
    if k == lines.len() {
        assert(lines.take(k) =~= lines);
    } else {
        assert(lines.drop_last().take(k) =~= lines.take(k));
        first_error_wins(lines.drop_last(), k, e);
    }
}

proof fn lemma_before_semicolon_prefix(code: Seq<char>, rest: Seq<char>)
    requires
        forall|i: int| 0 <= i < code.len() ==> #[trigger] code[i] != ';',
    ensures
        before_semicolon(code + rest) == code + before_semicolon(rest),
    decreases code.len(),
{
    if code.len() == 0 {
        assert(code + rest =~= rest);
        assert(code + before_semicolon(rest) =~= before_semicolon(rest));
    } else {
        assert((code + rest)[0] == code[0]);
        assert((code + rest).drop_first() =~= code.drop_first() + rest);
        lemma_before_semicolon_prefix(code.drop_first(), rest);
        assert(seq![code[0]] + (code.drop_first() + before_semicolon(rest)) =~= code + before_semicolon(
            rest,
        ));
    }
}

/// A comment does not change what a line means: whatever follows the first ';'
/// of a line is dropped before the line is read.
pub proof fn comment_ignored(code: Seq<char>, comment: Seq<char>)
    requires
        forall|i: int| 0 <= i < code.len() ==> #[trigger] code[i] != ';',
    ensures
        spec_strip_comments(code + seq![';'] + comment) == spec_strip_comments(code),
{
    lemma_before_semicolon_prefix(code, seq![';'] + comment);
    lemma_before_semicolon_prefix(code, seq![]);
    assert(code + seq![';'] + comment =~= code + (seq![';'] + comment));
    assert(code + seq![] =~= code);
    assert(code + Seq::<char>::empty() =~= code);
}

/// The code of two programs one after the other is the code of the first
/// followed by the code of the second.
pub proof fn encode_program_append(a: Seq<Op>, b: Seq<Op>)
    ensures
        spec_encode_program(a + b) == spec_encode_program(a) + spec_encode_program(b),
    decreases b.len(),
{
    if b.len() == 0 {
        assert(a + b =~= a);
        assert(spec_encode_program(a) + spec_encode_program(b) =~= spec_encode_program(a));
    } else {
        encode_program_append(a, b.drop_last());
        assert((a + b).drop_last() =~= a + b.drop_last());
        assert((a + b).last() == b.last());
        assert(spec_encode_program(a + b) =~= spec_encode_program(a) + spec_encode_program(b));
    }
}

proof fn lemma_upper_empty()
    ensures
        spec_upper(Seq::<char>::empty()) == Seq::<char>::empty(),
{
    assert(spec_upper(Seq::<char>::empty()) =~= Seq::<char>::empty());
}

proof fn lemma_upper_idempotent(s: Seq<char>)
    ensures
        spec_upper(spec_upper(s)) == spec_upper(s),
{
    assert(spec_upper(spec_upper(s)) =~= spec_upper(s));
}

proof fn lemma_tokens_upper(s: Seq<char>, cur: Seq<char>)
    ensures
        split_ws_from(spec_upper(s), spec_upper(cur)) == split_ws_from(s, cur).map_values(
            |t: Seq<char>| spec_upper(t),
        ),
    decreases s.len(),
{
    let u = spec_upper(s);
    if s.len() == 0 {
        assert(u.len() == 0);
        assert(flush(spec_upper(cur)) =~= flush(cur).map_values(|t: Seq<char>| spec_upper(t)));
    } else {
        assert(u[0] == upper_char(s[0]));
        assert(is_ws(u[0]) == is_ws(s[0]));
        assert(u.drop_first() =~= spec_upper(s.drop_first()));
        if is_ws(s[0]) {
            lemma_upper_empty();
            lemma_tokens_upper(s.drop_first(), seq![]);
            let rest = split_ws_from(s.drop_first(), seq![]);
            assert(flush(spec_upper(cur)) =~= flush(cur).map_values(|t: Seq<char>| spec_upper(t)));
            assert((flush(cur) + rest).map_values(|t: Seq<char>| spec_upper(t)) =~= flush(cur).map_values(
                |t: Seq<char>| spec_upper(t),
            ) + rest.map_values(|t: Seq<char>| spec_upper(t)));
        } else {
            assert(spec_upper(cur.push(s[0])) =~= spec_upper(cur).push(upper_char(s[0])));
            lemma_tokens_upper(s.drop_first(), cur.push(s[0]));
        }
    }
}

proof fn lemma_all_digits_upper(d: Seq<char>)
    ensures
        all_digits(spec_upper(d)) == all_digits(d),
        all_digits(d) ==> spec_upper(d) == d,
{
    let u = spec_upper(d);
    if all_digits(d) {
        assert forall|i: int| 0 <= i < u.len() implies #[trigger] is_digit(u[i]) by {
            assert(is_digit(d[i]));
        }
        assert(u =~= d) by {
            assert forall|i: int| 0 <= i < u.len() implies u[i] == d[i] by {
                assert(is_digit(d[i]));
            }
        }
    } else {
        let i = choose|i: int| 0 <= i < d.len() && !#[trigger] is_digit(d[i]);
        assert(!is_digit(u[i]));
    }
}

proof fn lemma_parse_numbers_upper(t: Seq<char>)
    ensures
        spec_parse_i64(spec_upper(t)) == spec_parse_i64(t),
        spec_parse_u8(spec_upper(t)) == spec_parse_u8(t),
{
    let u = spec_upper(t);
    if t.len() > 0 {
        assert(u[0] == upper_char(t[0]));
        assert(u.drop_first() =~= spec_upper(t.drop_first()));
        lemma_all_digits_upper(t.drop_first());
    }
    lemma_all_digits_upper(t);
}

/// Instructions are read without regard to ASCII case: a line reads as an
/// instruction exactly when its upper-case form does, and as the same one.
pub proof fn parse_instruction_ignores_case(line: Seq<char>, line_no: nat)
    ensures
        spec_parse_instruction(line, line_no) is Ok <==> spec_parse_instruction(spec_upper(line), line_no) is Ok,
        spec_parse_instruction(line, line_no) is Ok ==> spec_parse_instruction(spec_upper(line), line_no)
            == spec_parse_instruction(line, line_no),
{
    lemma_upper_empty();
    lemma_tokens_upper(line, seq![]);
    let toks = spec_tokens(line);
    let utoks = spec_tokens(spec_upper(line));
    assert(utoks == toks.map_values(|t: Seq<char>| spec_upper(t)));
    if toks.len() > 0 {
        assert(utoks[0] == spec_upper(toks[0]));
        lemma_upper_idempotent(toks[0]);
        if toks.len() > 1 {
            assert(utoks[1] == spec_upper(toks[1]));
            lemma_parse_numbers_upper(toks[1]);
        }
    }
}

/// Two lines that differ only in the ASCII case of their letters read as the
/// same instruction, or both fail.
pub proof fn instructions_read_alike_in_any_case(a: Seq<char>, b: Seq<char>, line_no: nat)
    requires
        spec_upper(a) == spec_upper(b),
    ensures
        spec_parse_instruction(a, line_no) is Ok <==> spec_parse_instruction(b, line_no) is Ok,
        spec_parse_instruction(a, line_no) is Ok ==> spec_parse_instruction(a, line_no) == spec_parse_instruction(
            b,
            line_no,
        ),
{
    parse_instruction_ignores_case(a, line_no);
    parse_instruction_ignores_case(b, line_no);
}

/// Checks the number of words of an instruction.
pub fn expect_operands(tokens: &Vec<Vec<char>>, expected: usize, line_no: usize) -> (r: Result<
    (),
    AsmError,
>)
    ensures
        r is Ok <==> tokens@.len() == expected,
        r matches Err(e) ==> e@ == (AsmFault::TokenCount {
            line: line_no as nat,
            expected: expected as nat,
            found: tokens@.len(),
        }),
{
    if tokens.len() != expected {
        return Err(AsmError::TokenCount { line: line_no, expected, found: tokens.len() });
    }
    Ok(())
}

/// Reads the operand of PUSH.
pub fn parse_i64(text: &Vec<char>, line_no: usize) -> (r: Result<i64, AsmError>)
    ensures
        match r {
            Ok(v) => spec_parse_i64(text@) == Some(v),
            Err(e) => spec_parse_i64(text@) is None && e@ == (AsmFault::InvalidInteger {
                line: line_no as nat,
                text: text@,
            }),
        },
{
    match read_i64(text) {
        Some(v) => Ok(v),
        None => Err(AsmError::InvalidInteger { line: line_no, text: string_of(text) }),
    }
}

/// Reads the slot operand of LOAD and STORE.
pub fn parse_u8(text: &Vec<char>, line_no: usize) -> (r: Result<u8, AsmError>)
    ensures
        match r {
            Ok(v) => spec_parse_u8(text@) == Some(v),
            Err(e) => spec_parse_u8(text@) is None && e@ == (AsmFault::InvalidSlot {
                line: line_no as nat,
                text: text@,
            }),
        },
{
    match read_u8(text) {
        Some(v) => Ok(v),
        None => Err(AsmError::InvalidSlot { line: line_no, text: string_of(text) }),
    }
}

/// The instruction without operand that `m` names, if any.
fn plain_op_named(m: &Vec<char>) -> (r: Option<Op>)
    ensures
        r == plain_mnemonic(m@),
{
    if is_word(m, "POP") {
        Some(Op::Pop)
    } else if is_word(m, "DUP") {
        Some(Op::Dup)
    } else if is_word(m, "SWAP") {
        Some(Op::Swap)
    } else if is_word(m, "ADD") {
        Some(Op::Add)
    } else if is_word(m, "SUB") {
        Some(Op::Sub)
    } else if is_word(m, "MUL") {
        Some(Op::Mul)
    } else if is_word(m, "DIV") {
        Some(Op::Div)
    } else if is_word(m, "MOD") {
        Some(Op::Mod)
    } else if is_word(m, "NEG") {
        Some(Op::Neg)
    } else if is_word(m, "PRINT") {
        Some(Op::Print)
    } else if is_word(m, "HALT") {
        Some(Op::Halt)
    } else {
        None
    }
}

/// Parses one line that holds no comment.
pub fn parse_instruction(line: &[char], line_no: usize) -> (r: Result<Op, AsmError>)
    ensures
        match r {
            Ok(op) => spec_parse_instruction(line@, line_no as nat) == Ok::<Op, AsmFault>(op),
            Err(e) => spec_parse_instruction(line@, line_no as nat) == Err::<Op, AsmFault>(e@),
        },
{
    let tokens = split_tokens(line);
    let ghost toks = spec_tokens(line@);
    assert(tokens@.len() == toks.len());
    if tokens.len() == 0 {
        return Err(AsmError::EmptyInstruction { line: line_no });
    }
    assert(tokens@[0]@ == toks[0]);
    let mnemonic = to_upper(&tokens[0]);
    let is_push = is_word(&mnemonic, "PUSH");
    let is_load = is_word(&mnemonic, "LOAD");
    let is_store = is_word(&mnemonic, "STORE");
    if is_push || is_load || is_store {
        match expect_operands(&tokens, 2, line_no) {
            Ok(()) => {},
            Err(e) => {
                return Err(e);
            },
        }
        assert(tokens@[1]@ == toks[1]);
        if is_push {
            match parse_i64(&tokens[1], line_no) {
                Ok(v) => Ok(Op::Push(v)),
                Err(e) => Err(e),
            }
        } else {
            match parse_u8(&tokens[1], line_no) {
                Ok(s) => {
                    if is_load {
                        Ok(Op::Load(s))
                    } else {
                        Ok(Op::Store(s))
                    }
                },
                Err(e) => Err(e),
            }
        }
    } else {
        match plain_op_named(&mnemonic) {
            Some(op) => {
                match expect_operands(&tokens, 1, line_no) {
                    Ok(()) => Ok(op),
                    Err(e) => Err(e),
                }
            },
            None => Err(AsmError::UnknownInstruction { line: line_no, mnemonic: string_of(&mnemonic) }),
        }
    }
}

/// Parses a whole program text into its instructions, or reports the first line
/// that does not parse.
pub fn parse_program(source: &str) -> (r: Result<Vec<Op>, AsmError>)
    ensures
        match r {
            Ok(ops) => spec_parse_program(source@) == Ok::<Seq<Op>, AsmFault>(ops@),
            Err(e) => spec_parse_program(source@) == Err::<Seq<Op>, AsmFault>(e@),
        },
{
    let chars = chars_of(source);
    let lines = split_lines(&chars);
    let ghost all = views(lines@);
    let mut program: Vec<Op> = Vec::new();
    let mut i: usize = 0;
    assert(all.take(0) =~= Seq::<Seq<char>>::empty());
    while i < lines.len()
        invariant
            i <= lines@.len(),
            all == views(lines@),
            all == spec_lines(source@),
            parse_lines(all.take(i as int)) == Ok::<Seq<Op>, AsmFault>(program@),
        decreases lines@.len() - i,
    {
        let line_no = i + 1;
        let code = strip_comments(&lines[i]);
        let ghost prefix = all.take(i + 1);
        assert(prefix.drop_last() =~= all.take(i as int));
        assert(prefix.last() == lines@[i as int]@);
        if code.len() > 0 {
            match parse_instruction(&code, line_no) {
                Ok(op) => {
                    program.push(op);
                },
                Err(e) => {
                    proof {
                        first_error_wins(all, i + 1, e@);
                    }
                    return Err(e);
                },
            }
        }
        i = i + 1;
    }
    assert(all.take(i as int) =~= all);
    Ok(program)
}

/// The code of a program.
pub fn encode_program(program: &[Op]) -> (bytes: Vec<u8>)
    ensures
        bytes@ == spec_encode_program(program@),
{
    let mut bytes: Vec<u8> = Vec::new();
    let mut i: usize = 0;
    assert(program@.take(0) =~= Seq::<Op>::empty());
    while i < program.len()
        invariant
            i <= program@.len(),
            bytes@ == spec_encode_program(program@.take(i as int)),
        decreases program@.len() - i,
    {
        let enc = program[i].encode();
        let mut j: usize = 0;
        let ghost before = bytes@;
        while j < enc.len()
            invariant
                j <= enc@.len(),
                bytes@ == before + enc@.take(j as int),
            decreases enc@.len() - j,
        {
            bytes.push(enc[j]);
            assert(enc@.take(j + 1) =~= enc@.take(j as int).push(enc@[j as int]));
            j = j + 1;
        }
        assert(enc@.take(j as int) =~= enc@);
        assert(program@.take(i + 1).drop_last() =~= program@.take(i as int));
        i = i + 1;
    }
    assert(program@.take(i as int) =~= program@);
    bytes
}

/// Whether the last instruction of a program is HALT.
pub fn ends_with_halt(program: &[Op]) -> (b: bool)
    ensures
        b == (program@.len() > 0 && program@.last() == Op::Halt),
{
    let n = program.len();
    n > 0 && program[n - 1] == Op::Halt
}

/// The text reported for an assembly error: the line number, then what is wrong.
pub open spec fn asm_error_text(f: AsmFault) -> Seq<char> {
    match f {
        AsmFault::EmptyInstruction { line } => "Line "@ + decimal(line) + ": empty instruction"@,
        AsmFault::TokenCount { line, expected, found } => "Line "@ + decimal(line) + ": expected "@
            + decimal(expected) + " token(s), found "@ + decimal(found),
        AsmFault::InvalidInteger { line, text } => "Line "@ + decimal(line) + ": invalid integer '"@ + text
            + "'"@,
        AsmFault::InvalidSlot { line, text } => "Line "@ + decimal(line) + ": invalid slot '"@ + text + "'"@,
        AsmFault::UnknownInstruction { line, mnemonic } => "Line "@ + decimal(line)
            + ": unknown instruction '"@ + mnemonic + "'"@,
    }
}

/// The text reported for an assembly error.
pub fn asm_message(e: &AsmError) -> (msg: String)
    ensures
        msg@ == asm_error_text(e@),
{
    let mut out: Vec<char> = Vec::new();
    match e {
        AsmError::EmptyInstruction { line } => {
            push_str(&mut out, "Line ");
            push_decimal(&mut out, *line as u64);
            push_str(&mut out, ": empty instruction");
        },
        AsmError::TokenCount { line, expected, found } => {
            push_str(&mut out, "Line ");
            push_decimal(&mut out, *line as u64);
            push_str(&mut out, ": expected ");
            push_decimal(&mut out, *expected as u64);
            push_str(&mut out, " token(s), found ");
            push_decimal(&mut out, *found as u64);
        },
        AsmError::InvalidInteger { line, text } => {
            push_str(&mut out, "Line ");
            push_decimal(&mut out, *line as u64);
            push_str(&mut out, ": invalid integer '");
            push_str(&mut out, text.as_str());
            push_str(&mut out, "'");
        },
        AsmError::InvalidSlot { line, text } => {
            push_str(&mut out, "Line ");
            push_decimal(&mut out, *line as u64);
            push_str(&mut out, ": invalid slot '");
            push_str(&mut out, text.as_str());
            push_str(&mut out, "'");
        },
        AsmError::UnknownInstruction { line, mnemonic } => {
            push_str(&mut out, "Line ");
            push_decimal(&mut out, *line as u64);
            push_str(&mut out, ": unknown instruction '");
            push_str(&mut out, mnemonic.as_str());
            push_str(&mut out, "'");
        },
    }
    assert(out@ =~= asm_error_text(e@));
    string_of(&out)
}

} // verus!
