use bytecode_vm::ExecutionFault;
use bytecode_vm::OutputItem;
use bytecode_vm::Report;
use bytecode_vm::RunOutcome;
use bytecode_vm::VM;

const FUEL: u64 = 100_000;

fn run_program(words: &[i32]) -> (VM, RunOutcome) {
    let mut vm = VM::new();
    vm.load(words);
    let outcome = vm.run(FUEL);
    (vm, outcome)
}

fn numbers(vm: &VM) -> Vec<i32> {
    vm.output()
        .iter()
        .map(|o| match o {
            OutputItem::Number(n) => *n,
            OutputItem::Text(_) => panic!("expected a number"),
        })
        .collect()
}

#[test]
fn fresh_interpreter_is_zeroed() {
    let vm = VM::new();
    assert_eq!(vm.pc(), 0);
    assert_eq!(vm.register(0), 0);
    assert_eq!(vm.register(999), 0);
    assert_eq!(vm.constant_count(), 0);
    assert!(vm.output().is_empty());
    assert!(vm.reports().is_empty());
}

#[test]
fn push_stores_value() {
    let (vm, outcome) = run_program(&[0x2, 7, 3]);
    assert_eq!(outcome, RunOutcome::Completed);
    assert_eq!(vm.register(3), 7);
}

#[test]
fn add_scenario_outputs_ten() {
    // push 7 -> r0, push 3 -> r1, add r0,r1, print r0
    let (vm, outcome) = run_program(&[0x2, 7, 0, 0x2, 3, 1, 0x5, 0, 1, 0x10, 0, 0]);
    assert_eq!(outcome, RunOutcome::Completed);
    assert_eq!(numbers(&vm), vec![10]);
    assert_eq!(vm.register(0), 10);
    assert_eq!(vm.register(1), 0);
}

#[test]
fn sub_consumes_second_register() {
    let (vm, outcome) = run_program(&[0x2, 7, 0, 0x2, 3, 1, 0x6, 0, 1]);
    assert_eq!(outcome, RunOutcome::Completed);
    assert_eq!(vm.register(0), 4);
    assert_eq!(vm.register(1), 0);
}

#[test]
fn mul_consumes_second_register() {
    let (vm, outcome) = run_program(&[0x2, 7, 0, 0x2, 3, 1, 0x7, 0, 1]);
    assert_eq!(outcome, RunOutcome::Completed);
    assert_eq!(vm.register(0), 21);
    assert_eq!(vm.register(1), 0);
}

#[test]
fn div_truncates_toward_zero() {
    let (vm, outcome) = run_program(&[0x2, -7, 0, 0x2, 2, 1, 0x8, 0, 1]);
    assert_eq!(outcome, RunOutcome::Completed);
    assert_eq!(vm.register(0), -3);
    assert_eq!(vm.register(1), 0);
}

#[test]
fn div_by_zero_is_fatal() {
    let (vm, outcome) = run_program(&[0x2, 7, 0, 0x8, 0, 1]);
    assert_eq!(outcome, RunOutcome::Faulted(ExecutionFault::DivisionByZero));
    // the fault leaves the interpreter as it stood before the instruction
    assert_eq!(vm.register(0), 7);
}

#[test]
fn add_wraps_on_overflow() {
    let (vm, outcome) = run_program(&[0x2, i32::MAX, 0, 0x2, 1, 1, 0x5, 0, 1]);
    assert_eq!(outcome, RunOutcome::Completed);
    assert_eq!(vm.register(0), i32::MIN);
}

#[test]
fn div_min_by_minus_one_wraps() {
    let (vm, outcome) = run_program(&[0x2, i32::MIN, 0, 0x2, -1, 1, 0x8, 0, 1]);
    assert_eq!(outcome, RunOutcome::Completed);
    assert_eq!(vm.register(0), i32::MIN);
}

#[test]
fn constant_literal_appends_hi() {
    let (vm, outcome) = run_program(&[0x15, 104, 105, 0x15]);
    assert_eq!(outcome, RunOutcome::Completed);
    assert_eq!(vm.constant_count(), 1);
    assert_eq!(vm.constant(0).as_str(), "hi");
    assert!(vm.reports().is_empty());
}

#[test]
fn print_constant_uses_operand_directly() {
    // two constants; r0 holds 1, but print mode 1 takes the operand 0
    // as the pool position itself, so "a" comes out, not "b"
    let (vm, outcome) = run_program(&[
        0x15, 97, 0x15, 0x15, 98, 0x15, 0x2, 1, 0, 0x10, 1, 0,
    ]);
    assert_eq!(outcome, RunOutcome::Completed);
    let out = vm.output();
    assert_eq!(out.len(), 1);
    match &out[0] {
        OutputItem::Text(s) => assert_eq!(s.as_str(), "a"),
        OutputItem::Number(_) => panic!("expected text"),
    }
}

#[test]
fn new_constant_is_visible_to_print() {
    let mut vm = VM::new();
    vm.new_constant("abc");
    vm.load(&[0x10, 1, 0]);
    let outcome = vm.run(FUEL);
    assert_eq!(outcome, RunOutcome::Completed);
    let out = vm.output();
    assert_eq!(out.len(), 1);
    match &out[0] {
        OutputItem::Text(s) => assert_eq!(s.as_str(), "abc"),
        OutputItem::Number(_) => panic!("expected text"),
    }
}

#[test]
fn jump_is_absolute() {
    // jump over junk straight to a push
    let (vm, outcome) = run_program(&[0x3, 6, 0x63, 0x63, 0x63, 0x63, 0x2, 1, 0]);
    assert_eq!(outcome, RunOutcome::Completed);
    assert_eq!(vm.register(0), 1);
    assert!(vm.reports().is_empty());
}

#[test]
fn jump_if_equal_taken() {
    // r0 = 9; jump to 8 if r0 == 9; the word at 7 is never dispatched
    let (vm, outcome) = run_program(&[0x2, 9, 0, 0x4, 8, 0, 9, 0x63, 0x2, 1, 1]);
    assert_eq!(outcome, RunOutcome::Completed);
    assert_eq!(vm.register(1), 1);
    assert!(vm.reports().is_empty());
}

#[test]
fn jump_if_equal_not_taken_advances_past_operands() {
    // r0 = 5; condition 5 == 9 is false: the counter must advance past
    // all three operands, straight onto the next push
    let (vm, outcome) = run_program(&[0x2, 5, 0, 0x4, 100, 0, 9, 0x2, 1, 1]);
    assert_eq!(outcome, RunOutcome::Completed);
    assert_eq!(vm.register(1), 1);
    assert!(vm.reports().is_empty());
}

#[test]
fn negative_jump_target_is_fatal() {
    let (_vm, outcome) = run_program(&[0x3, -5]);
    assert_eq!(outcome, RunOutcome::Faulted(ExecutionFault::MemoryOverrun));
}

#[test]
fn register_index_out_of_range_is_fatal() {
    let (_vm, outcome) = run_program(&[0x2, 1, 2000]);
    assert_eq!(
        outcome,
        RunOutcome::Faulted(ExecutionFault::RegisterOutOfRange)
    );
}

#[test]
fn constant_index_out_of_range_is_fatal() {
    let (_vm, outcome) = run_program(&[0x10, 1, 0]);
    assert_eq!(
        outcome,
        RunOutcome::Faulted(ExecutionFault::ConstantOutOfRange)
    );
}

#[test]
fn calling_an_unbound_function_is_fatal() {
    let (_vm, outcome) = run_program(&[0x15, 102, 0x15, 0x11, 0]);
    assert_eq!(outcome, RunOutcome::Faulted(ExecutionFault::UnboundFunction));
}

#[test]
fn calling_with_a_bad_constant_index_is_unbound() {
    // the pool is empty, so index 0 names nothing: the call target
    // cannot be bound
    let (_vm, outcome) = run_program(&[0x11, 0]);
    assert_eq!(outcome, RunOutcome::Faulted(ExecutionFault::UnboundFunction));
}

#[test]
fn declaring_with_a_bad_constant_index_is_fatal() {
    let (_vm, outcome) = run_program(&[0x9, 0]);
    assert_eq!(
        outcome,
        RunOutcome::Faulted(ExecutionFault::ConstantOutOfRange)
    );
}

#[test]
fn unknown_opcode_is_reported_and_skipped() {
    let (vm, outcome) = run_program(&[0x99, 0x2, 1, 0]);
    assert_eq!(outcome, RunOutcome::Completed);
    assert_eq!(vm.register(0), 1);
    assert_eq!(vm.reports(), &vec![Report::UnknownOpcode(0x99)]);
}

#[test]
fn unterminated_constant_block_is_reported() {
    // no closing delimiter: the scan runs to the end of memory, the
    // partial payload (one 'h' and then the zero fill) still becomes a
    // constant, and the condition is reported
    let (vm, outcome) = run_program(&[0x15, 104]);
    assert_eq!(outcome, RunOutcome::Completed);
    assert_eq!(vm.constant_count(), 1);
    let c = vm.constant(0);
    assert_eq!(c.chars().count(), 4095);
    assert!(c.starts_with('h'));
    assert_eq!(vm.reports(), &vec![Report::UnterminatedBlock]);
}

#[test]
fn declared_function_runs_once_per_call() {
    // constant "f"; declare f with body {push 42 -> r5, print r5}; call f
    let (vm, outcome) = run_program(&[
        0x15, 102, 0x15, 0x9, 0, 0x2, 42, 5, 0x10, 0, 5, 0x9, 0x11, 0,
    ]);
    assert_eq!(outcome, RunOutcome::Completed);
    assert_eq!(numbers(&vm), vec![42]);
    // the callee worked on a snapshot: the caller's r5 is untouched
    assert_eq!(vm.register(5), 0);
}

#[test]
fn redeclaration_overwrites_function_body() {
    // declare f printing 1, redeclare f printing 2, call f: only the
    // second body runs
    let (vm, outcome) = run_program(&[
        0x15, 102, 0x15, // constant "f"
        0x9, 0, 0x2, 1, 5, 0x10, 0, 5, 0x9, // f: print 1
        0x9, 0, 0x2, 2, 5, 0x10, 0, 5, 0x9, // f: print 2
        0x11, 0, // call f
    ]);
    assert_eq!(outcome, RunOutcome::Completed);
    assert_eq!(numbers(&vm), vec![2]);
}

#[test]
fn run_is_deterministic() {
    let program = [
        0x15, 102, 0x15, 0x9, 0, 0x2, 42, 5, 0x10, 0, 5, 0x9, 0x11, 0, 0x2, 7, 0, 0x10, 0, 0,
    ];
    let (vm1, o1) = run_program(&program);
    let (vm2, o2) = run_program(&program);
    assert_eq!(o1, o2);
    assert_eq!(numbers(&vm1), numbers(&vm2));
    let d1 = vm1.dump(25, 5);
    let d2 = vm2.dump(25, 5);
    assert_eq!(d1.0, d2.0);
    assert_eq!(d1.1, d2.1);
}

#[test]
fn dump_cuts_prefixes() {
    let (vm, _) = run_program(&[0x2, 7, 0, 0x2, 3, 1, 0x5, 0, 1, 0x10, 0, 0]);
    let (regs, mem) = vm.dump(12, 2);
    assert_eq!(regs, vec![10, 0]);
    assert_eq!(
        mem,
        vec![0x2, 7, 0, 0x2, 3, 1, 0x5, 0, 1, 0x10, 0, 0]
    );
}

#[test]
fn dump_limits_are_capped_at_capacity() {
    let vm = VM::new();
    let (regs, mem) = vm.dump(100_000, 100_000);
    assert_eq!(regs.len(), 1000);
    assert_eq!(mem.len(), 4096);
}

#[test]
fn load_truncates_silently_at_capacity() {
    let mut program = vec![0x0; 5000];
    program[0] = 0x2;
    let mut vm = VM::new();
    vm.load(&program);
    let (_, mem) = vm.dump(4096, 0);
    assert_eq!(mem.len(), 4096);
    assert_eq!(mem[0], 0x2);
}

#[test]
fn out_of_fuel_stops_early() {
    let mut vm = VM::new();
    vm.load(&[0x2, 7, 0]);
    assert_eq!(vm.run(0), RunOutcome::OutOfFuel);
    // with enough budget the same program completes
    let mut vm2 = VM::new();
    vm2.load(&[0x2, 7, 0]);
    assert_eq!(vm2.run(FUEL), RunOutcome::Completed);
    assert_eq!(vm2.register(0), 7);
}

#[test]
fn nop_advances_one_word() {
    let (vm, outcome) = run_program(&[0x0, 0x1, 0x2, 6, 0]);
    assert_eq!(outcome, RunOutcome::Completed);
    assert_eq!(vm.register(0), 6);
    assert!(vm.reports().is_empty());
}
