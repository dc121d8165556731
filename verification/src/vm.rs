//! The interpreter: a stack of `i64`, 256 global slots and a program counter.
use vstd::prelude::*;
use crate::isa::{Op, DecodeFault, spec_decode, spec_encode, encode_decode, decode_encode};
use crate::assembler::{spec_encode_program, encode_program_append};
use crate::bytecode::{ImageError, spec_unframe, unframe_bytecode};
use crate::numeral::{hex_padded, push_hex_padded};
use crate::text::{hex_char, hex_digit, push_str, string_of};

verus! {

/// The most values the stack can hold; an instruction that would push one more
/// traps with `Trap::StackOverflow`.
pub const STACK_CAPACITY: usize = 1024;

/// Why the machine stopped before a HALT.
#[derive(Debug, Clone, Copy, PartialEq, Eq, Structural)]
pub enum Trap {
    /// PUSH, DUP or LOAD on a stack that holds `STACK_CAPACITY` values.
    StackOverflow,
    /// An instruction needs more values than the stack holds.
    StackUnderflow,
    /// DIV with a zero divisor.
    DivisionByZero,
    /// MOD with a zero divisor.
    ModuloByZero,
    /// The byte at the program counter is no opcode.
    UnknownOpcode(u8),
    /// The code ends inside an instruction's operand.
    TruncatedInstruction,
    /// The program counter reached the end of the code without a HALT.
    MissingHalt,
    /// ADD, SUB, MUL, DIV, MOD or NEG gives a result outside the `i64` range
    /// (where the machine's host arithmetic would panic).
    ArithmeticOverflow,
}

/// What one step did.
#[derive(Debug, Clone, Copy, PartialEq, Eq, Structural)]
pub enum Step {
    /// An instruction ran and printed nothing.
    Ran,
    /// PRINT ran and popped this value, to be printed.
    Printed(i64),
    /// HALT ran.
    Halted,
    /// The instruction at the program counter could not run; nothing changed.
    Trapped(Trap),
}

/// How a run ended.
#[derive(Debug, Clone, Copy, PartialEq, Eq, Structural)]
pub enum Stop {
    /// A HALT ran.
    Halted,
    /// A trap stopped the machine at the instruction that starts at `ip`.
    Trapped { ip: usize, trap: Trap },
}

/// The machine's state as the contracts see it.
pub struct MachineState {
    pub stack: Seq<i64>,
    pub globals: Seq<i64>,
    pub pc: nat,
}

/// The machine.
pub struct Vm {
    stack: Vec<i64>,
    globals: [i64; 256],
    pc: usize,
}

impl View for Vm {
    type V = MachineState;

    closed spec fn view(&self) -> MachineState {
        MachineState { stack: self.stack@, globals: self.globals@, pc: self.pc as nat }
    }
}

/// `s` unchanged, and the trap.
pub open spec fn trapped(s: MachineState, t: Trap) -> (MachineState, Step) {
    (s, Step::Trapped(t))
}

/// The value of ADD, SUB, MUL, DIV or MOD on `a` and `b`, when it is an `i64`:
/// DIV rounds toward zero and MOD takes the sign of `a`, as Rust's integer
/// operators do.
pub open spec fn arith(op: Op, a: i64, b: i64) -> Option<i64> {
    match op {
        Op::Add => a.checked_add(b),
        Op::Sub => a.checked_sub(b),
        Op::Mul => a.checked_mul(b),
        Op::Div => a.checked_div(b),
        Op::Mod => a.checked_rem(b),
        _ => None,
    }
}

/// Running the decoded instruction `op` in state `s`, with `next` the address of
/// the instruction after it.
pub open spec fn run_op(s: MachineState, op: Op, next: nat) -> (MachineState, Step) {
    let st = s.stack;
    let len = st.len();
    let g = s.globals;
    match op {
        Op::Push(v) => if len >= STACK_CAPACITY {
            trapped(s, Trap::StackOverflow)
        } else {
            (MachineState { stack: st.push(v), globals: g, pc: next }, Step::Ran)
        },
        Op::Pop => if len == 0 {
            trapped(s, Trap::StackUnderflow)
        } else {
            (MachineState { stack: st.drop_last(), globals: g, pc: next }, Step::Ran)
        },
        Op::Dup => if len == 0 {
            trapped(s, Trap::StackUnderflow)
        } else if len >= STACK_CAPACITY {
            trapped(s, Trap::StackOverflow)
        } else {
            (MachineState { stack: st.push(st.last()), globals: g, pc: next }, Step::Ran)
        },
        Op::Swap => if len < 2 {
            trapped(s, Trap::StackUnderflow)
        } else {
            (
                MachineState {
                    stack: st.drop_last().drop_last().push(st[len - 1]).push(st[len - 2]),
                    globals: g,
                    pc: next,
                },
                Step::Ran,
            )
        },
        Op::Add | Op::Sub | Op::Mul | Op::Div | Op::Mod => if len == 0 {
            trapped(s, Trap::StackUnderflow)
        } else if op is Div && st.last() == 0 {
            trapped(s, Trap::DivisionByZero)
        } else if op is Mod && st.last() == 0 {
            trapped(s, Trap::ModuloByZero)
        } else if len < 2 {
            trapped(s, Trap::StackUnderflow)
        } else {
            match arith(op, st[len - 2], st[len - 1]) {
                Some(r) => (
                    MachineState { stack: st.drop_last().drop_last().push(r), globals: g, pc: next },
                    Step::Ran,
                ),
                None => trapped(s, Trap::ArithmeticOverflow),
            }
        },
        Op::Neg => if len == 0 {
            trapped(s, Trap::StackUnderflow)
        } else if st.last() == i64::MIN {
            trapped(s, Trap::ArithmeticOverflow)
        } else {
            (
                MachineState { stack: st.drop_last().push((-st.last()) as i64), globals: g, pc: next },
                Step::Ran,
            )
        },
        Op::Load(slot) => if len >= STACK_CAPACITY {
            trapped(s, Trap::StackOverflow)
        } else {
            (MachineState { stack: st.push(g[slot as int]), globals: g, pc: next }, Step::Ran)
        },
        Op::Store(slot) => if len == 0 {
            trapped(s, Trap::StackUnderflow)
        } else {
            (
                MachineState { stack: st.drop_last(), globals: g.update(slot as int, st.last()), pc: next },
                Step::Ran,
            )
        },
        Op::Print => if len == 0 {
            trapped(s, Trap::StackUnderflow)
        } else {
            (MachineState { stack: st.drop_last(), globals: g, pc: next }, Step::Printed(st.last()))
        },
        Op::Halt => (MachineState { stack: st, globals: g, pc: next }, Step::Halted),
    }
}

/// One step: decode the instruction at the program counter and run it.
pub open spec fn spec_step(s: MachineState, code: Seq<u8>) -> (MachineState, Step) {
    if s.pc >= code.len() {
        trapped(s, Trap::MissingHalt)
    } else {
        match spec_decode(code.skip(s.pc as int)) {
            Err(DecodeFault::UnknownOpcode(b)) => trapped(s, Trap::UnknownOpcode(b)),
            Err(_) => trapped(s, Trap::TruncatedInstruction),
            Ok((op, n)) => run_op(s, op, s.pc + n),
        }
    }
}

/// A step that runs an instruction moves the program counter forward, and not
/// past the end of the code; a step that traps changes nothing.
pub proof fn step_progress(s: MachineState, code: Seq<u8>)
    ensures
        ({
            let (t, step) = spec_step(s, code);
            &&& step is Trapped ==> t == s
            &&& !(step is Trapped) ==> s.pc < t.pc <= code.len()
        }),
{
    if s.pc < code.len() {
        encode_decode(code.skip(s.pc as int));
        if let Ok((op, n)) = spec_decode(code.skip(s.pc as int)) {
            assert(code.skip(s.pc as int).take(n as int).len() == n);
            assert(spec_encode(op).len() >= 1);
            assert(s.pc + n <= code.len());
        }
    }
}

/// The stack never holds more than `STACK_CAPACITY` values: a step from a state
/// within the capacity leads to a state within it.
pub proof fn step_keeps_stack_bounded(s: MachineState, code: Seq<u8>)
    requires
        s.stack.len() <= STACK_CAPACITY,
    ensures
        spec_step(s, code).0.stack.len() <= STACK_CAPACITY,
{
}

/// The address of the `i`-th instruction in the code of `ops`.
pub open spec fn offset_of(ops: Seq<Op>, i: int) -> nat {
    spec_encode_program(ops.take(i)).len()
}

/// At the address of the `i`-th instruction of an assembled program, a step
/// runs exactly that instruction, and the next address is that of the
/// instruction after it: the machine runs a program's instructions in order.
pub proof fn step_follows_program(ops: Seq<Op>, i: int, s: MachineState)
    requires
        0 <= i < ops.len(),
        s.pc == offset_of(ops, i),
    ensures
        spec_step(s, spec_encode_program(ops)) == run_op(s, ops[i], offset_of(ops, i + 1)),
        offset_of(ops, i + 1) == offset_of(ops, i) + spec_encode(ops[i]).len(),
{
    let code = spec_encode_program(ops);
    let before = ops.take(i);
    let after = ops.skip(i + 1);
    let op = ops[i];
    assert(ops =~= before + (seq![op] + after));
    assert(ops.take(i + 1) =~= before + seq![op]);
    encode_program_append(before, seq![op] + after);
    encode_program_append(seq![op], after);
    encode_program_append(before, seq![op]);
    assert(seq![op].drop_last() =~= Seq::<Op>::empty());
    assert(spec_encode_program(Seq::<Op>::empty()) =~= Seq::<u8>::empty());
    assert(seq![op].last() == op);
    assert(spec_encode_program(seq![op]) == spec_encode_program(seq![op].drop_last()) + spec_encode(op));
    assert(spec_encode_program(seq![op]) =~= spec_encode(op));
    let rest = spec_encode_program(after);
    assert(code.skip(s.pc as int) =~= spec_encode(op) + rest);
    decode_encode(op, rest);
    assert(spec_encode(op).len() >= 1);
}

/// Running from state `s` until HALT or a trap: the final state, the values
/// printed in order, and how the run ended.
pub open spec fn spec_run(s: MachineState, code: Seq<u8>) -> (MachineState, Seq<i64>, Stop)
    decreases code.len() - s.pc,
{
    let (t, step) = spec_step(s, code);
    proof {
        step_progress(s, code);
    }
    match step {
        Step::Ran => spec_run(t, code),
        Step::Printed(v) => {
            let (f, out, stop) = spec_run(t, code);
            (f, seq![v] + out, stop)
        },
        Step::Halted => (t, seq![], Stop::Halted),
        Step::Trapped(trap) => (s, seq![], Stop::Trapped { ip: s.pc as usize, trap }),
    }
}

proof fn lemma_decode_extends(b: Seq<u8>, extra: Seq<u8>)
    ensures
        spec_decode(b) is Ok ==> spec_decode(b + extra) == spec_decode(b),
{
    if let Ok((op, n)) = spec_decode(b) {
        encode_decode(b);
        assert(b.take(n as int).len() == n);
        assert(b + extra =~= spec_encode(op) + (b.skip(n as int) + extra)) by {
            assert(b =~= b.take(n as int) + b.skip(n as int));
        }
        decode_encode(op, b.skip(n as int) + extra);
    }
}

/// Bytes after the first HALT that a run reaches never change that run.
pub proof fn halted_run_ignores_trailing_bytes(s: MachineState, code: Seq<u8>, extra: Seq<u8>)
    requires
        spec_run(s, code).2 == Stop::Halted,
    ensures
        spec_run(s, code + extra) == spec_run(s, code),
    decreases code.len() - s.pc,
{
    let (t, step) = spec_step(s, code);
    step_progress(s, code);
    if !(step is Trapped) {
        assert((code + extra).skip(s.pc as int) =~= code.skip(s.pc as int) + extra);
        lemma_decode_extends(code.skip(s.pc as int), extra);
        assert(spec_step(s, code + extra) == spec_step(s, code));
        step_progress(s, code + extra);
        match step {
            Step::Ran => {
                halted_run_ignores_trailing_bytes(t, code, extra);
            },
            Step::Printed(_) => {
                halted_run_ignores_trailing_bytes(t, code, extra);
            },
            _ => {},
        }
    }
}

/// A run prints at most one value per byte of code it has left to run.
pub proof fn run_prints_at_most_one_value_per_byte(s: MachineState, code: Seq<u8>)
    requires
        s.pc <= code.len(),
    ensures
        spec_run(s, code).1.len() <= code.len() - s.pc,
    decreases code.len() - s.pc,
{
    let (t, step) = spec_step(s, code);
    step_progress(s, code);
    match step {
        Step::Ran => {
            run_prints_at_most_one_value_per_byte(t, code);
        },
        Step::Printed(_) => {
            run_prints_at_most_one_value_per_byte(t, code);
        },
        _ => {},
    }
}

/// A run that starts within the stack capacity ends within it.
pub proof fn run_keeps_stack_bounded(s: MachineState, code: Seq<u8>)
    requires
        s.stack.len() <= STACK_CAPACITY,
    ensures
        spec_run(s, code).0.stack.len() <= STACK_CAPACITY,
    decreases code.len() - s.pc,
{
    let (t, step) = spec_step(s, code);
    step_progress(s, code);
    step_keeps_stack_bounded(s, code);
    match step {
        Step::Ran => {
            run_keeps_stack_bounded(t, code);
        },
        Step::Printed(_) => {
            run_keeps_stack_bounded(t, code);
        },
        _ => {},
    }
}

/// How a run goes on from one step to the next: a step that runs an
/// instruction leaves the rest of the run to the next state; a PRINT puts its
/// value before everything printed later; HALT ends the run with nothing more
/// printed, and a trap ends it at the trapping instruction with the state as it
/// was.
pub proof fn run_law(s: MachineState, code: Seq<u8>)
    ensures
        ({
            let (t, step) = spec_step(s, code);
            &&& step == Step::Ran ==> spec_run(s, code) == spec_run(t, code)
            &&& step matches Step::Printed(v) ==> spec_run(s, code).0 == spec_run(t, code).0 && spec_run(
                s,
                code,
            ).1 == seq![v] + spec_run(t, code).1 && spec_run(s, code).2 == spec_run(t, code).2
            &&& step == Step::Halted ==> spec_run(s, code) == (t, Seq::<i64>::empty(), Stop::Halted)
            &&& step matches Step::Trapped(trap) ==> spec_run(s, code) == (
                s,
                Seq::<i64>::empty(),
                Stop::Trapped { ip: s.pc as usize, trap },
            )
        }),
{
}

/// A fresh machine: empty stack, zero globals, program counter 0.
pub open spec fn initial_state() -> MachineState {
    MachineState { stack: seq![], globals: Seq::new(256, |i: int| 0i64), pc: 0 }
}

impl Vm {
    /// A fresh machine.
    pub fn new() -> (vm: Self)
        ensures
            vm@ == initial_state(),
    {
        let vm = Vm { stack: Vec::new(), globals: [0i64; 256], pc: 0 };
        assert(vm.globals@ =~= initial_state().globals);
        vm
    }

    /// The address of the next instruction.
    pub fn pc(&self) -> (pc: usize)
        ensures
            pc == self@.pc,
    {
        self.pc
    }

    /// The values on the stack, bottom first.
    pub fn stack(&self) -> (s: &[i64])
        ensures
            s@ == self@.stack,
    {
        self.stack.as_slice()
    }

    /// The value of a global slot.
    pub fn global(&self, slot: u8) -> (v: i64)
        ensures
            v == self@.globals[slot as int],
    {
        self.globals[slot as usize]
    }

    /// Decodes and runs the instruction at the program counter.
    pub fn step(&mut self, code: &[u8]) -> (s: Step)
        ensures
            (final(self)@, s) == spec_step(old(self)@, code@),
    {
        if self.pc >= code.len() {
            return Step::Trapped(Trap::MissingHalt);
        }
        let (op, size) = match Op::decode_at(code, self.pc) {
            Ok(found) => found,
            Err(DecodeFault::UnknownOpcode(b)) => {
                return Step::Trapped(Trap::UnknownOpcode(b));
            },
            Err(_) => {
                return Step::Trapped(Trap::TruncatedInstruction);
            },
        };
        proof {
            encode_decode(code@.skip(self.pc as int));
        }
        let next = self.pc + size;
        let len = self.stack.len();
        match op {
            Op::Push(v) => {
                if len >= STACK_CAPACITY {
                    return Step::Trapped(Trap::StackOverflow);
                }
                self.stack.push(v);
                self.pc = next;
                Step::Ran
            },
            Op::Pop => {
                if len == 0 {
                    return Step::Trapped(Trap::StackUnderflow);
                }
                self.stack.pop();
                self.pc = next;
                Step::Ran
            },
            Op::Dup => {
                if len == 0 {
                    return Step::Trapped(Trap::StackUnderflow);
                }
                if len >= STACK_CAPACITY {
                    return Step::Trapped(Trap::StackOverflow);
                }
                let top = self.stack[len - 1];
                self.stack.push(top);
                self.pc = next;
                Step::Ran
            },
            Op::Swap => {
                if len < 2 {
                    return Step::Trapped(Trap::StackUnderflow);
                }
                let b = self.stack[len - 1];
                let a = self.stack[len - 2];
                self.stack.pop();
                self.stack.pop();
                self.stack.push(b);
                self.stack.push(a);
                self.pc = next;
                Step::Ran
            },
            Op::Add | Op::Sub | Op::Mul | Op::Div | Op::Mod => {
                if len == 0 {
                    return Step::Trapped(Trap::StackUnderflow);
                }
                let b = self.stack[len - 1];
                let is_div = match op {
                    Op::Div => true,
                    _ => false,
                };
                let is_mod = match op {
                    Op::Mod => true,
                    _ => false,
                };
                if is_div && b == 0 {
                    return Step::Trapped(Trap::DivisionByZero);
                }
                if is_mod && b == 0 {
                    return Step::Trapped(Trap::ModuloByZero);
                }
                if len < 2 {
                    return Step::Trapped(Trap::StackUnderflow);
                }
                let a = self.stack[len - 2];
                let r = match op {
                    Op::Add => a.checked_add(b),
                    Op::Sub => a.checked_sub(b),
                    Op::Mul => a.checked_mul(b),
                    Op::Div => a.checked_div(b),
                    _ => a.checked_rem(b),
                };
                match r {
                    Some(v) => {
                        self.stack.pop();
                        self.stack.pop();
                        self.stack.push(v);
                        self.pc = next;
                        Step::Ran
                    },
                    None => Step::Trapped(Trap::ArithmeticOverflow),
                }
            },
            Op::Neg => {
                if len == 0 {
                    return Step::Trapped(Trap::StackUnderflow);
                }
                let v = self.stack[len - 1];
                if v == i64::MIN {
                    return Step::Trapped(Trap::ArithmeticOverflow);
                }
                self.stack.pop();
                self.stack.push(-v);
                self.pc = next;
                Step::Ran
            },
            Op::Load(slot) => {
                if len >= STACK_CAPACITY {
                    return Step::Trapped(Trap::StackOverflow);
                }
                let v = self.globals[slot as usize];
                self.stack.push(v);
                self.pc = next;
                Step::Ran
            },
            Op::Store(slot) => {
                if len == 0 {
                    return Step::Trapped(Trap::StackUnderflow);
                }
                let v = self.stack[len - 1];
                self.stack.pop();
                self.globals[slot as usize] = v;
                self.pc = next;
                Step::Ran
            },
            Op::Print => {
                if len == 0 {
                    return Step::Trapped(Trap::StackUnderflow);
                }
                let v = self.stack[len - 1];
                self.stack.pop();
                self.pc = next;
                Step::Printed(v)
            },
            Op::Halt => {
                self.pc = next;
                Step::Halted
            },
        }
    }

    /// Runs `code` from its first byte until HALT or a trap, on this machine's
    /// stack and globals; returns the values PRINT popped, in order, and how the
    /// run ended.
    pub fn execute(&mut self, code: &[u8]) -> (r: (Vec<i64>, Stop))
        ensures
            ({
                let start = MachineState { stack: old(self)@.stack, globals: old(self)@.globals, pc: 0 };
                let (f, out, stop) = spec_run(start, code@);
                &&& final(self)@ == f
                &&& r.0@ == out
                &&& r.1 == stop
            }),
    {
        self.pc = 0;
        let ghost start = self@;
        assert(start == (MachineState { stack: old(self)@.stack, globals: old(self)@.globals, pc: 0 }));
        let mut printed: Vec<i64> = Vec::new();
        loop
            invariant
                self.pc <= code@.len(),
                start == (MachineState { stack: old(self)@.stack, globals: old(self)@.globals, pc: 0 }),
                ({
                    let (f, out, stop) = spec_run(self@, code@);
                    spec_run(start, code@) == (f, printed@ + out, stop)
                }),
            decreases code@.len() - self.pc,
        {
            let ghost before = self@;
            proof {
                step_progress(before, code@);
            }
            let s = self.step(code);
            match s {
                Step::Ran => {
                    assert(spec_run(before, code@) == spec_run(self@, code@));
                },
                Step::Printed(v) => {
                    let ghost old_printed = printed@;
                    printed.push(v);
                    proof {
                        let (f, out, stop) = spec_run(self@, code@);
                        assert(spec_run(before, code@) == (f, seq![v] + out, stop));
                        assert(old_printed + (seq![v] + out) =~= printed@ + out);
                    }
                },
                Step::Halted => {
                    assert(printed@ + seq![] =~= printed@);
                    return (printed, Stop::Halted);
                },
                Step::Trapped(t) => {
                    assert(printed@ + seq![] =~= printed@);
                    return (printed, Stop::Trapped { ip: self.pc, trap: t });
                },
            }
        }
    }

    /// Reads the code out of a bytecode image and runs it on a fresh machine;
    /// returns the values printed and how the run ended, or why the image is invalid.
    pub fn run_image(image: &[u8]) -> (r: Result<(Vec<i64>, Stop), ImageError>)
        ensures
            match r {
                Ok((out, stop)) => spec_unframe(image@) matches Ok(code) && ({
                    let (f, printed, end) = spec_run(initial_state(), code);
                    printed == out@ && end == stop
                }),
                Err(e) => spec_unframe(image@) == Err::<Seq<u8>, ImageError>(e),
            },
    {
        let code = match unframe_bytecode(image) {
            Ok(code) => code,
            Err(e) => {
                return Err(e);
            },
        };
        let mut vm = Vm::new();
        let (out, stop) = vm.execute(&code);
        Ok((out, stop))
    }
}

/// What is reported for a trap.
pub open spec fn trap_text(t: Trap) -> Seq<char> {
    match t {
        Trap::StackOverflow => "stack overflow"@,
        Trap::StackUnderflow => "stack underflow"@,
        Trap::DivisionByZero => "division by zero"@,
        Trap::ModuloByZero => "modulo by zero"@,
        Trap::UnknownOpcode(b) => "unknown opcode 0x"@ + seq![hex_char(b / 16), hex_char(b % 16)],
        Trap::TruncatedInstruction => "truncated instruction"@,
        Trap::MissingHalt => "program ended without HALT"@,
        Trap::ArithmeticOverflow => "arithmetic overflow"@,
    }
}

/// The report of a trap at the instruction that starts at `ip`:
/// `trap at ip=0x` with at least four hexadecimal digits, then what happened.
pub open spec fn trap_report(ip: nat, t: Trap) -> Seq<char> {
    "trap at ip=0x"@ + hex_padded(ip, 4) + ": "@ + trap_text(t)
}

/// The report of a trap at the instruction that starts at `ip`.
pub fn trap_message(ip: usize, t: Trap) -> (msg: String)
    ensures
        msg@ == trap_report(ip as nat, t),
{
    let mut out: Vec<char> = Vec::new();
    push_str(&mut out, "trap at ip=0x");
    push_hex_padded(&mut out, ip as u64, 4);
    push_str(&mut out, ": ");
    match t {
        Trap::StackOverflow => push_str(&mut out, "stack overflow"),
        Trap::StackUnderflow => push_str(&mut out, "stack underflow"),
        Trap::DivisionByZero => push_str(&mut out, "division by zero"),
        Trap::ModuloByZero => push_str(&mut out, "modulo by zero"),
        Trap::UnknownOpcode(b) => {
            push_str(&mut out, "unknown opcode 0x");
            let hi = hex_digit(b / 16);
            let lo = hex_digit(b % 16);
            out.push(hi);
            out.push(lo);
        },
        Trap::TruncatedInstruction => push_str(&mut out, "truncated instruction"),
        Trap::MissingHalt => push_str(&mut out, "program ended without HALT"),
        Trap::ArithmeticOverflow => push_str(&mut out, "arithmetic overflow"),
    }
    assert(out@ =~= trap_report(ip as nat, t));
    string_of(&out)
}

} // verus!
