use lib::isa::Op;
use lib::vm::STACK_CAPACITY;
use lib::vm::trap_message;
use lib::assembler::{encode_program, parse_program};
use lib::bytecode::{frame_bytecode, ImageError};
use lib::vm::{Step, Stop, Trap, Vm};

fn code_of(src: &str) -> Vec<u8> {
    encode_program(&parse_program(src).unwrap())
}

fn run(src: &str) -> (Vec<i64>, Stop) {
    let code = code_of(src);
    let mut vm = Vm::new();
    vm.execute(&code)
}

#[test]
fn arith_program() {
    let src = "PUSH 7\nPUSH 3\nADD\nPUSH 9\nPUSH 4\nSUB\nMUL\nPUSH 5\nDIV\nPRINT\nHALT";
    assert_eq!(run(src), (vec![10], Stop::Halted));
}

#[test]
fn celsius_program() {
    let src = "PUSH 100\nPUSH 9\nMUL\nPUSH 5\nDIV\nPUSH 32\nADD\nPRINT\nHALT";
    assert_eq!(run(src), (vec![212], Stop::Halted));
}

#[test]
fn horner_program() {
    let src = "PUSH 11\nSTORE 0\nPUSH 3\nLOAD 0\nMUL\nPUSH 2\nADD\nLOAD 0\nMUL\nPUSH 5\nADD\nLOAD 0\nMUL\nPUSH 7\nADD\nPRINT\nHALT";
    assert_eq!(run(src), (vec![4297], Stop::Halted));
}

#[test]
fn stackplay_program() {
    let src = "PUSH 35\nPUSH 12\nSTORE 0\nSTORE 1\nLOAD 0\nDUP\nSWAP\nMUL\nLOAD 1\nDUP\nSWAP\nMUL\nADD\nPRINT\nHALT";
    assert_eq!(run(src), (vec![1369], Stop::Halted));
}

#[test]
fn digits_program() {
    let src = "PUSH 9274\nPUSH 1000\nDIV\nPRINT\n\
               PUSH 9274\nPUSH 100\nDIV\nPUSH 10\nMOD\nPRINT\n\
               PUSH 9274\nPUSH 10\nDIV\nPUSH 10\nMOD\nPRINT\n\
               PUSH 9274\nPUSH 10\nMOD\nPRINT\nHALT";
    assert_eq!(run(src), (vec![9, 2, 7, 4], Stop::Halted));
}

#[test]
fn print_pops_and_halt_stops() {
    let code = code_of("PUSH 1\nPUSH 2\nPRINT\nHALT\nPRINT");
    let mut vm = Vm::new();
    assert_eq!(vm.execute(&code), (vec![2], Stop::Halted));
    assert_eq!(vm.stack(), &[1]);
    assert_eq!(vm.pc(), 20);
}

#[test]
fn traps() {
    assert_eq!(run("POP"), (vec![], Stop::Trapped { ip: 0, trap: Trap::StackUnderflow }));
    assert_eq!(run("PUSH 1\nPUSH 0\nDIV"), (vec![], Stop::Trapped { ip: 0x12, trap: Trap::DivisionByZero }));
    assert_eq!(run("PUSH 0\nDIV"), (vec![], Stop::Trapped { ip: 9, trap: Trap::DivisionByZero }));
    assert_eq!(run("PUSH 4\nDIV"), (vec![], Stop::Trapped { ip: 9, trap: Trap::StackUnderflow }));
    assert_eq!(run("PUSH 1\nPUSH 0\nMOD"), (vec![], Stop::Trapped { ip: 0x12, trap: Trap::ModuloByZero }));
    assert_eq!(run("PUSH 1\nPRINT"), (vec![1], Stop::Trapped { ip: 10, trap: Trap::MissingHalt }));
    assert_eq!(run("PRINT"), (vec![], Stop::Trapped { ip: 0, trap: Trap::StackUnderflow }));
    assert_eq!(run("PUSH 1\nSWAP"), (vec![], Stop::Trapped { ip: 9, trap: Trap::StackUnderflow }));
    assert_eq!(run("DUP"), (vec![], Stop::Trapped { ip: 0, trap: Trap::StackUnderflow }));
    assert_eq!(run("NEG"), (vec![], Stop::Trapped { ip: 0, trap: Trap::StackUnderflow }));
    assert_eq!(run("STORE 3"), (vec![], Stop::Trapped { ip: 0, trap: Trap::StackUnderflow }));
    assert_eq!(run("PUSH 2\nADD"), (vec![], Stop::Trapped { ip: 9, trap: Trap::StackUnderflow }));
    let mut vm = Vm::new();
    assert_eq!(vm.execute(&[0x60, 0x77]), (vec![], Stop::Trapped { ip: 0, trap: Trap::StackUnderflow }));
    let mut vm = Vm::new();
    assert_eq!(vm.execute(&[0xFE]), (vec![], Stop::Trapped { ip: 0, trap: Trap::UnknownOpcode(0xFE) }));
    let mut vm = Vm::new();
    assert_eq!(vm.execute(&[0x40]), (vec![], Stop::Trapped { ip: 0, trap: Trap::TruncatedInstruction }));
    let mut vm = Vm::new();
    assert_eq!(vm.execute(&[0x01, 1, 2]), (vec![], Stop::Trapped { ip: 0, trap: Trap::TruncatedInstruction }));
    let mut vm = Vm::new();
    assert_eq!(vm.execute(&[]), (vec![], Stop::Trapped { ip: 0, trap: Trap::MissingHalt }));
}

#[test]
fn overflow_traps() {
    let max = "PUSH 9223372036854775807\n";
    let min = "PUSH -9223372036854775808\n";
    assert_eq!(run(&format!("{max}PUSH 1\nADD")).1, Stop::Trapped { ip: 18, trap: Trap::ArithmeticOverflow });
    assert_eq!(run(&format!("{min}PUSH 1\nSUB")).1, Stop::Trapped { ip: 18, trap: Trap::ArithmeticOverflow });
    assert_eq!(run(&format!("{max}PUSH 2\nMUL")).1, Stop::Trapped { ip: 18, trap: Trap::ArithmeticOverflow });
    assert_eq!(run(&format!("{min}PUSH -1\nDIV")).1, Stop::Trapped { ip: 18, trap: Trap::ArithmeticOverflow });
    assert_eq!(run(&format!("{min}PUSH -1\nMOD")).1, Stop::Trapped { ip: 18, trap: Trap::ArithmeticOverflow });
    assert_eq!(run(&format!("{min}NEG")).1, Stop::Trapped { ip: 9, trap: Trap::ArithmeticOverflow });
    assert_eq!(run(&format!("{max}NEG\nPRINT\nHALT")).0, vec![-i64::MAX]);
}

#[test]
fn signed_division_rounds_toward_zero() {
    assert_eq!(run("PUSH -7\nPUSH 2\nDIV\nPRINT\nHALT").0, vec![-3]);
    assert_eq!(run("PUSH -7\nPUSH 2\nMOD\nPRINT\nHALT").0, vec![-1]);
    assert_eq!(run("PUSH 7\nPUSH -2\nDIV\nPRINT\nHALT").0, vec![-3]);
    assert_eq!(run("PUSH 7\nPUSH -2\nMOD\nPRINT\nHALT").0, vec![1]);
    assert_eq!(run("PUSH -7\nPUSH -2\nDIV\nPRINT\nHALT").0, vec![3]);
    assert_eq!(run("PUSH -7\nPUSH -2\nMOD\nPRINT\nHALT").0, vec![-1]);
}

#[test]
fn globals_start_at_zero_and_persist() {
    let code = code_of("LOAD 200\nPRINT\nPUSH 5\nSTORE 200\nLOAD 200\nLOAD 200\nADD\nPRINT\nHALT");
    let mut vm = Vm::new();
    assert_eq!(vm.execute(&code), (vec![0, 10], Stop::Halted));
    assert_eq!(vm.global(200), 5);
    assert_eq!(vm.global(199), 0);
}

#[test]
fn single_steps() {
    let code = code_of("PUSH 4\nDUP\nPRINT\nPOP\nPOP\nHALT");
    let mut vm = Vm::new();
    assert_eq!(vm.step(&code), Step::Ran);
    assert_eq!(vm.pc(), 9);
    assert_eq!(vm.step(&code), Step::Ran);
    assert_eq!(vm.stack(), &[4, 4]);
    assert_eq!(vm.step(&code), Step::Printed(4));
    assert_eq!(vm.step(&code), Step::Ran);
    let pc = vm.pc();
    assert_eq!(vm.step(&code), Step::Trapped(Trap::StackUnderflow));
    assert_eq!(vm.pc(), pc);
    assert_eq!(vm.stack(), &[] as &[i64]);
}

#[test]
fn run_image_checks_header() {
    let code = code_of("PUSH 3\nPRINT\nHALT");
    let image = frame_bytecode(&code);
    assert_eq!(Vm::run_image(&image), Ok((vec![3], Stop::Halted)));
    assert_eq!(Vm::run_image(&image[..8]), Err(ImageError::TooShort));
}

#[test]
fn stack_overflow_trap() {
    let mut ops = vec![Op::Push(0); STACK_CAPACITY];
    ops.push(Op::Halt);
    let mut vm = Vm::new();
    assert_eq!(vm.execute(&encode_program(&ops)), (vec![], Stop::Halted));
    assert_eq!(vm.stack().len(), STACK_CAPACITY);

    let mut ops = vec![Op::Push(0); STACK_CAPACITY + 1];
    ops.push(Op::Halt);
    let mut vm = Vm::new();
    assert_eq!(
        vm.execute(&encode_program(&ops)),
        (vec![], Stop::Trapped { ip: 9 * STACK_CAPACITY, trap: Trap::StackOverflow })
    );
    assert_eq!(vm.stack().len(), STACK_CAPACITY);

    let mut ops = vec![Op::Push(1); STACK_CAPACITY];
    ops.push(Op::Dup);
    let mut vm = Vm::new();
    assert_eq!(vm.execute(&encode_program(&ops)).1, Stop::Trapped { ip: 9 * STACK_CAPACITY, trap: Trap::StackOverflow });
    let mut ops = vec![Op::Push(1); STACK_CAPACITY];
    ops.push(Op::Load(3));
    let mut vm = Vm::new();
    assert_eq!(vm.execute(&encode_program(&ops)).1, Stop::Trapped { ip: 9 * STACK_CAPACITY, trap: Trap::StackOverflow });
}

#[test]
fn bytes_after_halt_do_not_matter() {
    let mut code = code_of("PUSH 5\nPRINT\nHALT");
    let mut vm = Vm::new();
    let first = vm.execute(&code);
    code.extend([0xAB, 0x01, 0x02]);
    let mut vm = Vm::new();
    assert_eq!(vm.execute(&code), first);
}

#[test]
fn trap_messages() {
    assert_eq!(trap_message(0x13, Trap::DivisionByZero), "trap at ip=0x0013: division by zero");
    assert_eq!(trap_message(0, Trap::StackOverflow), "trap at ip=0x0000: stack overflow");
    assert_eq!(trap_message(0x12345, Trap::UnknownOpcode(0x0C)), "trap at ip=0x12345: unknown opcode 0x0C");
    assert_eq!(trap_message(0xABCD, Trap::MissingHalt), "trap at ip=0xABCD: program ended without HALT");
    assert_eq!(trap_message(7, Trap::ModuloByZero), "trap at ip=0x0007: modulo by zero");
    assert_eq!(trap_message(7, Trap::StackUnderflow), "trap at ip=0x0007: stack underflow");
    assert_eq!(trap_message(7, Trap::TruncatedInstruction), "trap at ip=0x0007: truncated instruction");
    assert_eq!(trap_message(7, Trap::ArithmeticOverflow), "trap at ip=0x0007: arithmetic overflow");
}
