//! What each instruction does, stated directly over the bytes of the code and
//! the values on the stack and in the globals.
use vstd::prelude::*;
use vstd::arithmetic::div_mod::{lemma_fundamental_div_mod, lemma_mod_pos_bound};
use crate::isa::{Op, spec_decode, spec_encode, from_le};
use crate::vm::{MachineState, Step, Trap, STACK_CAPACITY, spec_step};

verus! {

/// The product `q * b`.
pub open spec fn times(q: int, b: int) -> int {
    q * b
}

/// The absolute value of `x`.
pub open spec fn abs(x: int) -> int {
    if x < 0 {
        -x
    } else {
        x
    }
}

proof fn lemma_pos_div(x: int, d: int)
    requires
        x >= 0,
        d > 0,
    ensures
        0 <= x - (x / d) * d < d,
        x % d == x - (x / d) * d,
        0 <= x / d <= x,
        d >= 2 ==> x / d <= x / 2,
{
    lemma_fundamental_div_mod(x, d);
    lemma_mod_pos_bound(x, d);
    assert(d * (x / d) == (x / d) * d) by (nonlinear_arith);
    vstd::arithmetic::div_mod::lemma_div_pos_is_pos(x, d);
    assert(x / d <= x) by (nonlinear_arith)
        requires
            x / d >= 0,
            d >= 1,
            x - (x / d) * d >= 0,
    ;
    if d >= 2 {
        assert(x / d <= x / 2) by (nonlinear_arith)
            requires
                x / d >= 0,
                d >= 2,
                x - (x / d) * d >= 0,
                x - (x / 2) * 2 < 2,
        {
        }
        lemma_fundamental_div_mod(x, 2);
        lemma_mod_pos_bound(x, 2);
    }
}

/// Rust's integer division and remainder: for a non-zero divisor, where the
/// quotient fits, the quotient `q` and remainder `m` satisfy `a == q * b + m`,
/// with `|m| < |b|` and `m` zero or of the sign of `a`.
#[verifier::spinoff_prover]
#[verifier::rlimit(40)]
pub proof fn division_and_remainder(a: i64, b: i64)
    requires
        b != 0,
        !(a == i64::MIN && b == -1),
    ensures
        a.checked_div(b) is Some,
        a.checked_rem(b) is Some,
        ({
            let q = a.checked_div(b)->0 as int;
            let m = a.checked_rem(b)->0 as int;
            &&& a as int == q * (b as int) + m
            &&& abs(m) < abs(b as int)
            &&& (m == 0 || (m < 0) == (a < 0))
        }),
{
    let x = a as int;
    let d = b as int;
    if x == 0 {
        assert(a.checked_div(b) == Some(0i64));
        assert(a.checked_rem(b) == Some(0i64));
    } else if x > 0 && d > 0 {
        lemma_pos_div(x, d);
        let qq = x / d;
        assert(x == qq * d + (x - qq * d));
        assert(a.checked_div(b) == Some(qq as i64));
        assert(a.checked_rem(b) == Some((x % d) as i64));
    } else if x < 0 && d < 0 {
        lemma_pos_div(-x, -d);
        assert(-x == x * -1 && -d == d * -1);
        let qq = (-x) / (-d);
        let r = (-x) - qq * (-d);
        assert(qq * (-d) == -(qq * d)) by (nonlinear_arith);
        assert(x == qq * d + (-r));
        if d == -1 {
            assert(qq == -x);
        } else {
            assert(qq <= (-x) / 2);
        }
        assert(a.checked_div(b) == Some(qq as i64));
        assert(((x * -1) % (d * -1)) * -1 == -r);
        assert(a.checked_rem(b) == Some((-r) as i64));
    } else if x < 0 {
        lemma_pos_div(-x, d);
        assert(-x == x * -1);
        let qq = (-x) / d;
        let r = (-x) - qq * d;
        assert((-qq) * d == -(qq * d)) by (nonlinear_arith);
        assert(x == (-qq) * d + (-r));
        assert(qq * -1 == -qq);
        assert(a.checked_div(b) == Some((-qq) as i64));
        assert(((x * -1) % d) * -1 == -r);
        assert(a.checked_rem(b) == Some((-r) as i64));
    } else {
        lemma_pos_div(x, -d);
        assert(-d == d * -1);
        let qq = x / (-d);
        let r = x - qq * (-d);
        assert(qq * (-d) == (-qq) * d) by (nonlinear_arith);
        assert(x == (-qq) * d + r);
        assert(qq * -1 == -qq);
        assert(a.checked_div(b) == Some((-qq) as i64));
        assert(a.checked_rem(b) == Some(r as i64));
    }
}

/// The number whose little-endian bytes are `b[0..8]`, written as a sum.
pub open spec fn le_sum(b: Seq<u8>) -> int {
    b[0] + b[1] * 0x100 + b[2] * 0x1_0000 + b[3] * 0x100_0000 + b[4] * 0x1_0000_0000 + b[5]
        * 0x100_0000_0000 + b[6] * 0x1_0000_0000_0000 + b[7] * 0x100_0000_0000_0000
}

proof fn lemma_from_le_sum(b: Seq<u8>)
    requires
        b.len() >= 8,
    ensures
        from_le(b) as int == le_sum(b),
{
    let (b0, b1, b2, b3, b4, b5, b6, b7) = (b[0], b[1], b[2], b[3], b[4], b[5], b[6], b[7]);
    assert((b0 as u64) | ((b1 as u64) << 8u64) | ((b2 as u64) << 16u64) | ((b3 as u64) << 24u64) | ((
    b4 as u64) << 32u64) | ((b5 as u64) << 40u64) | ((b6 as u64) << 48u64) | ((b7 as u64) << 56u64)
        == b0 + b1 * 0x100 + b2 * 0x1_0000 + b3 * 0x100_0000 + b4 * 0x1_0000_0000 + b5
        * 0x100_0000_0000 + b6 * 0x1_0000_0000_0000 + b7 * 0x100_0000_0000_0000) by (bit_vector);
}

/// The bytes of each instruction: one opcode byte; PUSH v adds the eight bytes
/// of v's two's-complement form, least significant first; LOAD k and STORE k add
/// the slot k itself.
pub proof fn encoding_of_each_instruction(v: i64, k: u8)
    ensures
        spec_encode(Op::Push(v)).len() == 9,
        spec_encode(Op::Push(v))[0] == 0x01,
        le_sum(spec_encode(Op::Push(v)).skip(1)) == (v as u64) as int,
        spec_encode(Op::Load(k)) == seq![0x40u8, k],
        spec_encode(Op::Store(k)) == seq![0x41u8, k],
        spec_encode(Op::Pop) == seq![0x02u8],
        spec_encode(Op::Dup) == seq![0x03u8],
        spec_encode(Op::Swap) == seq![0x04u8],
        spec_encode(Op::Add) == seq![0x10u8],
        spec_encode(Op::Sub) == seq![0x11u8],
        spec_encode(Op::Mul) == seq![0x12u8],
        spec_encode(Op::Div) == seq![0x13u8],
        spec_encode(Op::Mod) == seq![0x14u8],
        spec_encode(Op::Neg) == seq![0x15u8],
        spec_encode(Op::Print) == seq![0x60u8],
        spec_encode(Op::Halt) == seq![0xFFu8],
{
    let e = spec_encode(Op::Push(v));
    crate::isa::decode_encode(Op::Push(v), seq![]);
    assert(e + seq![] =~= e);
    assert(e.subrange(1, 9) =~= e.skip(1));
    lemma_from_le_sum(e.skip(1));
    let u = from_le(e.skip(1));
    assert(u as i64 == v);
    assert(((u as i64) as u64) == u) by (bit_vector);
}

/// Decoding reads the operand of LOAD and STORE as the slot itself, and the
/// operand of PUSH as the value whose two's-complement bytes they are.
pub proof fn decoding_reads_operands(b: Seq<u8>)
    ensures
        b.len() >= 2 && b[0] == 0x40 ==> spec_decode(b) == Ok::<(Op, nat), crate::isa::DecodeFault>((Op::Load(b[1]), 2)),
        b.len() >= 2 && b[0] == 0x41 ==> spec_decode(b) == Ok::<(Op, nat), crate::isa::DecodeFault>((Op::Store(b[1]), 2)),
        b.len() >= 9 && b[0] == 0x01 ==> (spec_decode(b) matches Ok((Op::Push(v), n)) && n == 9 && (v as u64)
            as int == le_sum(b.skip(1))),
{
    if b.len() >= 9 && b[0] == 0x01 {
        assert(b.subrange(1, 9) =~= b.skip(1).take(8));
        lemma_from_le_sum(b.subrange(1, 9));
        let u = from_le(b.subrange(1, 9));
        assert(((u as i64) as u64) == u) by (bit_vector);
        assert(le_sum(b.subrange(1, 9)) == le_sum(b.skip(1)));
    }
}

/// The instruction at the program counter starts with the byte `opcode`.
pub open spec fn at_opcode(s: MachineState, code: Seq<u8>, opcode: u8) -> bool {
    s.pc < code.len() && code[s.pc as int] == opcode
}

proof fn lemma_skip_index(code: Seq<u8>, pc: nat, i: int)
    requires
        pc + i < code.len(),
        0 <= i,
    ensures
        code.skip(pc as int)[i] == code[pc + i],
{
}

/// PUSH pushes the value that its eight operand bytes spell, least significant
/// first in two's complement; on a full stack it traps and changes nothing.
pub proof fn push_law(s: MachineState, code: Seq<u8>)
    requires
        at_opcode(s, code, 0x01),
        s.pc + 9 <= code.len(),
    ensures
        ({
            let (t, step) = spec_step(s, code);
            &&& s.stack.len() < STACK_CAPACITY ==> {
                &&& step == Step::Ran
                &&& t.pc == s.pc + 9
                &&& t.globals == s.globals
                &&& t.stack.len() == s.stack.len() + 1
                &&& t.stack.drop_last() == s.stack
                &&& (t.stack.last() as u64) as int == le_sum(code.subrange(s.pc + 1int, s.pc + 9int))
            }
            &&& s.stack.len() >= STACK_CAPACITY ==> step == Step::Trapped(Trap::StackOverflow) && t == s
        }),
{
    let b = code.skip(s.pc as int);
    assert(b[0] == 0x01);
    decoding_reads_operands(b);
    assert(b.skip(1).take(8) =~= code.subrange(s.pc + 1int, s.pc + 9int));
    assert(le_sum(b.skip(1)) == le_sum(code.subrange(s.pc + 1int, s.pc + 9int)));
    let (t, step) = spec_step(s, code);
    if s.stack.len() < STACK_CAPACITY {
        assert(t.stack.drop_last() =~= s.stack);
    }
}

/// POP removes the top value; on an empty stack it traps and changes nothing.
pub proof fn pop_law(s: MachineState, code: Seq<u8>)
    requires
        at_opcode(s, code, 0x02),
    ensures
        ({
            let (t, step) = spec_step(s, code);
            &&& s.stack.len() >= 1 ==> step == Step::Ran && t.pc == s.pc + 1 && t.globals == s.globals
                && t.stack == s.stack.take(s.stack.len() - 1)
            &&& s.stack.len() == 0 ==> step == Step::Trapped(Trap::StackUnderflow) && t == s
        }),
{
    let b = code.skip(s.pc as int);
    assert(b[0] == 0x02);
    assert(s.stack.drop_last() =~= s.stack.take(s.stack.len() - 1));
}

/// DUP pushes a copy of the top value.
pub proof fn dup_law(s: MachineState, code: Seq<u8>)
    requires
        at_opcode(s, code, 0x03),
    ensures
        ({
            let (t, step) = spec_step(s, code);
            let n = s.stack.len();
            &&& 1 <= n < STACK_CAPACITY ==> {
                &&& step == Step::Ran
                &&& t.pc == s.pc + 1
                &&& t.globals == s.globals
                &&& t.stack.len() == n + 1
                &&& (forall|i: int| 0 <= i < n ==> t.stack[i] == s.stack[i])
                &&& t.stack[n as int] == s.stack[n - 1]
            }
            &&& n == 0 ==> step == Step::Trapped(Trap::StackUnderflow) && t == s
            &&& n >= STACK_CAPACITY ==> step == Step::Trapped(Trap::StackOverflow) && t == s
        }),
{
    let b = code.skip(s.pc as int);
    assert(b[0] == 0x03);
}

/// SWAP exchanges the top two values and leaves the rest of the stack alone.
pub proof fn swap_law(s: MachineState, code: Seq<u8>)
    requires
        at_opcode(s, code, 0x04),
    ensures
        ({
            let (t, step) = spec_step(s, code);
            let n = s.stack.len();
            &&& n >= 2 ==> {
                &&& step == Step::Ran
                &&& t.pc == s.pc + 1
                &&& t.globals == s.globals
                &&& t.stack.len() == n
                &&& t.stack[n - 1] == s.stack[n - 2]
                &&& t.stack[n - 2] == s.stack[n - 1]
                &&& (forall|i: int| 0 <= i < n - 2 ==> t.stack[i] == s.stack[i])
            }
            &&& n < 2 ==> step == Step::Trapped(Trap::StackUnderflow) && t == s
        }),
{
    let b = code.skip(s.pc as int);
    assert(b[0] == 0x04);
}

/// ADD, SUB and MUL (opcodes 0x10, 0x11, 0x12) replace the top two values `a`
/// (below) and `b` (top) by `a + b`, `a - b` and `a * b`, sign included; a
/// result outside the `i64` range traps and changes nothing.
pub proof fn add_sub_mul_law(s: MachineState, code: Seq<u8>, opcode: u8)
    requires
        at_opcode(s, code, opcode),
        opcode == 0x10 || opcode == 0x11 || opcode == 0x12,
        s.stack.len() >= 2,
    ensures
        ({
            let (t, step) = spec_step(s, code);
            let n = s.stack.len();
            let a = s.stack[n - 2] as int;
            let b = s.stack[n - 1] as int;
            let r = if opcode == 0x10 {
                a + b
            } else if opcode == 0x11 {
                a - b
            } else {
                a * b
            };
            &&& i64::MIN <= r <= i64::MAX ==> {
                &&& step == Step::Ran
                &&& t.pc == s.pc + 1
                &&& t.globals == s.globals
                &&& t.stack.len() == n - 1
                &&& t.stack.drop_last() == s.stack.take(n - 2)
                &&& t.stack.last() as int == r
            }
            &&& !(i64::MIN <= r <= i64::MAX) ==> step == Step::Trapped(Trap::ArithmeticOverflow) && t == s
        }),
{
    let bytes = code.skip(s.pc as int);
    assert(bytes[0] == opcode);
    assert(s.stack.drop_last().drop_last() =~= s.stack.take(s.stack.len() - 2));
}

/// DIV (0x13) replaces the top two values `a` (below) and `b` (top) by the
/// quotient `q` rounded toward zero: `a == q * b + r` with `|r| < |b|` and `r`
/// zero or of the sign of `a`. A zero `b` traps with `DivisionByZero`, and
/// `i64::MIN / -1` with `ArithmeticOverflow`; a trap changes nothing.
pub proof fn div_law(s: MachineState, code: Seq<u8>)
    requires
        at_opcode(s, code, 0x13),
        s.stack.len() >= 1,
    ensures
        ({
            let (t, step) = spec_step(s, code);
            let n = s.stack.len();
            let b = s.stack[n - 1];
            &&& b == 0 ==> step == Step::Trapped(Trap::DivisionByZero) && t == s
            &&& b != 0 && n == 1 ==> step == Step::Trapped(Trap::StackUnderflow) && t == s
            &&& b != 0 && n >= 2 ==> {
                let a = s.stack[n - 2];
                &&& a == i64::MIN && b == -1 ==> step == Step::Trapped(Trap::ArithmeticOverflow) && t == s
                &&& !(a == i64::MIN && b == -1) ==> {
                    let q = t.stack.last() as int;
                    let r = a as int - q * (b as int);
                    &&& step == Step::Ran
                    &&& t.pc == s.pc + 1
                    &&& t.globals == s.globals
                    &&& t.stack.len() == n - 1
                    &&& t.stack.drop_last() == s.stack.take(n - 2)
                    &&& abs(r) < abs(b as int)
                    &&& (r == 0 || (r < 0) == (a < 0))
                }
            }
        }),
{
    let bytes = code.skip(s.pc as int);
    assert(bytes[0] == 0x13);
    let n = s.stack.len();
    if n >= 2 {
        assert(s.stack.drop_last().drop_last() =~= s.stack.take(n - 2));
        let a = s.stack[n - 2];
        let b = s.stack[n - 1];
        if b != 0 && !(a == i64::MIN && b == -1) {
            division_and_remainder(a, b);
        }
    }
}

/// MOD (0x14) replaces the top two values `a` (below) and `b` (top) by the
/// remainder `m` of division rounded toward zero: `a == q * b + m` for some
/// integer `q`, with `|m| < |b|` and `m` zero or of the sign of `a`. A zero `b`
/// traps with `ModuloByZero`, and `i64::MIN % -1` with `ArithmeticOverflow`.
pub proof fn mod_law(s: MachineState, code: Seq<u8>)
    requires
        at_opcode(s, code, 0x14),
        s.stack.len() >= 1,
    ensures
        ({
            let (t, step) = spec_step(s, code);
            let n = s.stack.len();
            let b = s.stack[n - 1];
            &&& b == 0 ==> step == Step::Trapped(Trap::ModuloByZero) && t == s
            &&& b != 0 && n == 1 ==> step == Step::Trapped(Trap::StackUnderflow) && t == s
            &&& b != 0 && n >= 2 ==> {
                let a = s.stack[n - 2];
                &&& a == i64::MIN && b == -1 ==> step == Step::Trapped(Trap::ArithmeticOverflow) && t == s
                &&& !(a == i64::MIN && b == -1) ==> {
                    let m = t.stack.last() as int;
                    &&& step == Step::Ran
                    &&& t.pc == s.pc + 1
                    &&& t.globals == s.globals
                    &&& t.stack.len() == n - 1
                    &&& t.stack.drop_last() == s.stack.take(n - 2)
                    &&& (exists|q: int| a as int == #[trigger] times(q, b as int) + m)
                    &&& abs(m) < abs(b as int)
                    &&& (m == 0 || (m < 0) == (a < 0))
                }
            }
        }),
{
    let bytes = code.skip(s.pc as int);
    assert(bytes[0] == 0x14);
    let n = s.stack.len();
    if n >= 2 {
        assert(s.stack.drop_last().drop_last() =~= s.stack.take(n - 2));
        let a = s.stack[n - 2];
        let b = s.stack[n - 1];
        if b != 0 && !(a == i64::MIN && b == -1) {
            division_and_remainder(a, b);
            let q = a.checked_div(b)->0 as int;
            assert(a as int == times(q, b as int) + (a.checked_rem(b)->0 as int));
        }
    }
}

/// NEG replaces the top value `v` by `-v`; for `i64::MIN` it traps and changes
/// nothing.
pub proof fn neg_law(s: MachineState, code: Seq<u8>)
    requires
        at_opcode(s, code, 0x15),
        s.stack.len() >= 1,
    ensures
        ({
            let (t, step) = spec_step(s, code);
            let v = s.stack.last();
            &&& v != i64::MIN ==> {
                &&& step == Step::Ran
                &&& t.pc == s.pc + 1
                &&& t.globals == s.globals
                &&& t.stack.len() == s.stack.len()
                &&& t.stack.drop_last() == s.stack.drop_last()
                &&& t.stack.last() as int == -(v as int)
            }
            &&& v == i64::MIN ==> step == Step::Trapped(Trap::ArithmeticOverflow) && t == s
        }),
{
    let bytes = code.skip(s.pc as int);
    assert(bytes[0] == 0x15);
}

/// LOAD k pushes the value of global slot k, where k is the operand byte.
pub proof fn load_law(s: MachineState, code: Seq<u8>)
    requires
        at_opcode(s, code, 0x40),
        s.pc + 2 <= code.len(),
    ensures
        ({
            let (t, step) = spec_step(s, code);
            let k = code[s.pc + 1int];
            &&& s.stack.len() < STACK_CAPACITY ==> {
                &&& step == Step::Ran
                &&& t.pc == s.pc + 2
                &&& t.globals == s.globals
                &&& t.stack.len() == s.stack.len() + 1
                &&& t.stack.drop_last() == s.stack
                &&& t.stack.last() == s.globals[k as int]
            }
            &&& s.stack.len() >= STACK_CAPACITY ==> step == Step::Trapped(Trap::StackOverflow) && t == s
        }),
{
    let b = code.skip(s.pc as int);
    assert(b[0] == 0x40);
    assert(b[1] == code[s.pc + 1int]);
    decoding_reads_operands(b);
    let (t, step) = spec_step(s, code);
    if s.stack.len() < STACK_CAPACITY {
        assert(t.stack.drop_last() =~= s.stack);
    }
}

/// STORE k pops the top value into global slot k, where k is the operand byte;
/// every other slot keeps its value.
pub proof fn store_law(s: MachineState, code: Seq<u8>)
    requires
        at_opcode(s, code, 0x41),
        s.pc + 2 <= code.len(),
        s.globals.len() == 256,
    ensures
        ({
            let (t, step) = spec_step(s, code);
            let k = code[s.pc + 1int] as int;
            &&& s.stack.len() >= 1 ==> {
                &&& step == Step::Ran
                &&& t.pc == s.pc + 2
                &&& t.stack == s.stack.take(s.stack.len() - 1)
                &&& t.globals.len() == 256
                &&& t.globals[k] == s.stack.last()
                &&& (forall|j: int| 0 <= j < 256 && j != k ==> t.globals[j] == s.globals[j])
            }
            &&& s.stack.len() == 0 ==> step == Step::Trapped(Trap::StackUnderflow) && t == s
        }),
{
    let b = code.skip(s.pc as int);
    assert(b[0] == 0x41);
    assert(b[1] == code[s.pc + 1int]);
    decoding_reads_operands(b);
    assert(s.stack.drop_last() =~= s.stack.take(s.stack.len() - 1));
}

/// PRINT pops the top value and hands it out to be printed.
pub proof fn print_law(s: MachineState, code: Seq<u8>)
    requires
        at_opcode(s, code, 0x60),
    ensures
        ({
            let (t, step) = spec_step(s, code);
            &&& s.stack.len() >= 1 ==> step == Step::Printed(s.stack.last()) && t.pc == s.pc + 1
                && t.globals == s.globals && t.stack == s.stack.take(s.stack.len() - 1)
            &&& s.stack.len() == 0 ==> step == Step::Trapped(Trap::StackUnderflow) && t == s
        }),
{
    let b = code.skip(s.pc as int);
    assert(b[0] == 0x60);
    assert(s.stack.drop_last() =~= s.stack.take(s.stack.len() - 1));
}

/// HALT stops the machine, moving past itself and touching nothing else.
pub proof fn halt_law(s: MachineState, code: Seq<u8>)
    requires
        at_opcode(s, code, 0xFF),
    ensures
        spec_step(s, code) == (MachineState { stack: s.stack, globals: s.globals, pc: s.pc + 1 }, Step::Halted),
{
    let b = code.skip(s.pc as int);
    assert(b[0] == 0xFF);
}

/// A byte that is no opcode traps with that byte, and running off the end of
/// the code traps with `MissingHalt`; neither changes anything.
pub proof fn fault_law(s: MachineState, code: Seq<u8>)
    ensures
        s.pc >= code.len() ==> spec_step(s, code) == (s, Step::Trapped(Trap::MissingHalt)),
        ({
            let c = code[s.pc as int];
            s.pc < code.len() && !(c == 0x01 || c == 0x02 || c == 0x03 || c == 0x04 || c == 0x10
                || c == 0x11 || c == 0x12 || c == 0x13 || c == 0x14 || c == 0x15 || c == 0x40 || c
                == 0x41 || c == 0x60 || c == 0xFF) ==> spec_step(s, code) == (
                s,
                Step::Trapped(Trap::UnknownOpcode(c)),
            )
        }),
{
    if s.pc < code.len() {
        let b = code.skip(s.pc as int);
        assert(b[0] == code[s.pc as int]);
    }
}

} // verus!
