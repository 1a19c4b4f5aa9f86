use clox::chunk::{Chunk, OpCode, Value};
use clox::stack::{Stack, STACK_MAX};
use clox::vm::{Action, Arithmetic, InterpretResult, VmState, VM};

fn value(x: f32) -> Value {
    Value { bits: x.to_bits() }
}

fn number(v: Value) -> f32 {
    f32::from_bits(v.bits)
}

fn apply(operator: Arithmetic, left: Value, right: Value) -> Value {
    let (a, b) = (number(left), number(right));
    value(match operator {
        Arithmetic::Add => a + b,
        Arithmetic::Subtract => a - b,
        Arithmetic::Multiply => a * b,
        Arithmetic::Divide => a / b,
    })
}

/// Runs a chunk to its end, doing the arithmetic that the machine asks for.
fn run(vm: &mut VM, chunk: Chunk) -> (InterpretResult, Option<Value>) {
    let mut action = vm.interpret(chunk);
    loop {
        match action {
            Action::Compute(operator, left, right) => {
                assert_eq!(vm.state(), VmState::Running);
                action = vm.resume(apply(operator, left, right));
            }
            Action::Finish(result) => {
                assert_eq!(vm.state(), VmState::Halted(InterpretResult::Success));
                return (InterpretResult::Success, Some(result));
            }
            Action::Fault => {
                assert_eq!(vm.state(), VmState::Halted(InterpretResult::RuntimeError));
                return (InterpretResult::RuntimeError, None);
            }
        }
    }
}

fn chunk_of(constants: &[f32], code: &[OpCode]) -> Chunk {
    let mut chunk = Chunk::new();
    for c in constants {
        chunk.add_constant(value(*c));
    }
    for op in code {
        chunk.write_chunk(*op, 1);
    }
    chunk
}

#[test]
fn new_machine_is_idle() {
    let vm = VM::new();
    assert_eq!(vm.state(), VmState::Idle);
}

#[test]
fn end_to_end_expression() {
    let mut chunk = Chunk::new();
    let index = chunk.add_constant(value(1.2));
    chunk.write_chunk(OpCode::Constant(index), 123);
    let index = chunk.add_constant(value(3.4));
    chunk.write_chunk(OpCode::Constant(index), 123);
    chunk.write_chunk(OpCode::Add, 123);
    let index = chunk.add_constant(value(5.6));
    chunk.write_chunk(OpCode::Constant(index), 123);
    chunk.write_chunk(OpCode::Divide, 123);
    chunk.write_chunk(OpCode::Negate, 123);
    chunk.write_chunk(OpCode::Return, 123);
    let mut vm = VM::new();
    let (result, returned) = run(&mut vm, chunk);
    assert_eq!(result, InterpretResult::Success);
    let got = number(returned.unwrap());
    let expected: f32 = -((1.2f32 + 3.4f32) / 5.6f32);
    assert_eq!(got, expected);
    assert!((got - (-0.8214286)).abs() < 1e-6);
}

#[test]
fn chunk_without_return_is_a_runtime_error() {
    let mut vm = VM::new();
    let action = vm.interpret(chunk_of(&[1.0], &[OpCode::Constant(0)]));
    assert_eq!(action, Action::Fault);
    assert_eq!(vm.state(), VmState::Halted(InterpretResult::RuntimeError));
}

#[test]
fn empty_chunk_is_a_runtime_error() {
    let mut vm = VM::new();
    assert_eq!(vm.interpret(Chunk::new()), Action::Fault);
    assert_eq!(vm.state(), VmState::Halted(InterpretResult::RuntimeError));
}

#[test]
fn arithmetic_without_return_after_it_is_a_runtime_error() {
    let mut vm = VM::new();
    let chunk = chunk_of(&[1.0, 2.0], &[OpCode::Constant(0), OpCode::Constant(1), OpCode::Add]);
    assert_eq!(run(&mut vm, chunk), (InterpretResult::RuntimeError, None));
}

#[test]
fn subtract_takes_its_operands_in_order() {
    let mut vm = VM::new();
    let chunk = chunk_of(
        &[7.0, 2.5],
        &[OpCode::Constant(0), OpCode::Constant(1), OpCode::Subtract, OpCode::Return],
    );
    let action = vm.interpret(chunk);
    assert_eq!(action, Action::Compute(Arithmetic::Subtract, value(7.0), value(2.5)));
    assert_eq!(vm.state(), VmState::Running);
    let action = vm.resume(apply(Arithmetic::Subtract, value(7.0), value(2.5)));
    assert_eq!(action, Action::Finish(value(4.5)));
}

#[test]
fn each_arithmetic_instruction_asks_for_its_operation() {
    let cases = [
        (OpCode::Add, Arithmetic::Add, 10.0f32),
        (OpCode::Subtract, Arithmetic::Subtract, 6.0),
        (OpCode::Multiply, Arithmetic::Multiply, 16.0),
        (OpCode::Divide, Arithmetic::Divide, 4.0),
    ];
    for (op, operator, expected) in cases {
        let mut vm = VM::new();
        let chunk = chunk_of(&[8.0, 2.0], &[OpCode::Constant(0), OpCode::Constant(1), op, OpCode::Return]);
        assert_eq!(vm.interpret(chunk), Action::Compute(operator, value(8.0), value(2.0)));
        let result = vm.resume(apply(operator, value(8.0), value(2.0)));
        assert_eq!(result, Action::Finish(value(expected)));
    }
}

#[test]
fn division_by_zero_is_no_fault() {
    let mut vm = VM::new();
    let chunk = chunk_of(
        &[1.0, 0.0],
        &[OpCode::Constant(0), OpCode::Constant(1), OpCode::Divide, OpCode::Return],
    );
    let (result, returned) = run(&mut vm, chunk);
    assert_eq!(result, InterpretResult::Success);
    assert_eq!(number(returned.unwrap()), f32::INFINITY);
    let chunk = chunk_of(
        &[0.0, 0.0],
        &[OpCode::Constant(0), OpCode::Constant(1), OpCode::Divide, OpCode::Return],
    );
    let (result, returned) = run(&mut vm, chunk);
    assert_eq!(result, InterpretResult::Success);
    assert!(number(returned.unwrap()).is_nan());
}

#[test]
fn negate_flips_the_sign() {
    for x in [1.5f32, -2.25, 0.0, -0.0, f32::INFINITY, f32::MIN_POSITIVE, f32::MAX] {
        let mut vm = VM::new();
        let chunk = chunk_of(&[x], &[OpCode::Constant(0), OpCode::Negate, OpCode::Return]);
        let action = vm.interpret(chunk);
        assert_eq!(action, Action::Finish(value(-x)));
    }
    let mut vm = VM::new();
    let chunk = chunk_of(&[f32::NAN], &[OpCode::Constant(0), OpCode::Negate, OpCode::Return]);
    match vm.interpret(chunk) {
        Action::Finish(v) => assert_eq!(v.bits, (-f32::NAN).to_bits()),
        other => panic!("{:?}", other),
    }
}

#[test]
fn negate_twice_gives_the_value_back() {
    let mut vm = VM::new();
    let chunk =
        chunk_of(&[3.25], &[OpCode::Constant(0), OpCode::Negate, OpCode::Negate, OpCode::Return]);
    assert_eq!(vm.interpret(chunk), Action::Finish(value(3.25)));
}

#[test]
fn return_gives_the_top_of_the_stack() {
    let mut vm = VM::new();
    let chunk = chunk_of(&[1.0, 2.0], &[OpCode::Constant(0), OpCode::Constant(1), OpCode::Return]);
    assert_eq!(vm.interpret(chunk), Action::Finish(value(2.0)));
    assert_eq!(vm.state(), VmState::Halted(InterpretResult::Success));
}

#[test]
fn instructions_after_return_are_not_run() {
    let mut vm = VM::new();
    let chunk = chunk_of(&[1.0], &[OpCode::Constant(0), OpCode::Return, OpCode::Add, OpCode::Constant(9)]);
    assert_eq!(vm.interpret(chunk), Action::Finish(value(1.0)));
}

#[test]
fn underflow_is_a_runtime_error() {
    for code in [
        vec![OpCode::Return],
        vec![OpCode::Negate, OpCode::Return],
        vec![OpCode::Add, OpCode::Return],
        vec![OpCode::Constant(0), OpCode::Multiply, OpCode::Return],
        vec![OpCode::Constant(0), OpCode::Return, OpCode::Return],
    ] {
        let mut vm = VM::new();
        let chunk = chunk_of(&[1.0], &code);
        let (result, _) = run(&mut vm, chunk);
        if code.len() == 3 && code[1] == OpCode::Return {
            assert_eq!(result, InterpretResult::Success);
        } else {
            assert_eq!(result, InterpretResult::RuntimeError);
        }
    }
}

#[test]
fn constant_index_outside_the_pool_is_a_runtime_error() {
    let mut vm = VM::new();
    let chunk = chunk_of(&[1.0], &[OpCode::Constant(1), OpCode::Return]);
    assert_eq!(vm.interpret(chunk), Action::Fault);
    assert_eq!(vm.state(), VmState::Halted(InterpretResult::RuntimeError));
    let chunk = chunk_of(&[], &[OpCode::Constant(usize::MAX), OpCode::Return]);
    assert_eq!(vm.interpret(chunk), Action::Fault);
}

#[test]
fn stack_overflow_is_a_runtime_error() {
    let mut full = vec![OpCode::Constant(0); STACK_MAX];
    full.push(OpCode::Return);
    let mut vm = VM::new();
    assert_eq!(vm.interpret(chunk_of(&[4.0], &full)), Action::Finish(value(4.0)));
    let mut over = vec![OpCode::Constant(0); STACK_MAX + 1];
    over.push(OpCode::Return);
    assert_eq!(vm.interpret(chunk_of(&[4.0], &over)), Action::Fault);
    assert_eq!(vm.state(), VmState::Halted(InterpretResult::RuntimeError));
}

#[test]
fn each_run_starts_on_an_empty_stack() {
    let mut vm = VM::new();
    let first = chunk_of(&[1.0, 2.0], &[OpCode::Constant(0), OpCode::Constant(1), OpCode::Return]);
    assert_eq!(vm.interpret(first), Action::Finish(value(2.0)));
    assert_eq!(vm.interpret(chunk_of(&[], &[OpCode::Return])), Action::Fault);
    let again = chunk_of(&[5.0], &[OpCode::Constant(0), OpCode::Return]);
    assert_eq!(vm.interpret(again), Action::Finish(value(5.0)));
}

#[test]
fn a_new_run_replaces_one_that_waits() {
    let mut vm = VM::new();
    let waiting = chunk_of(&[1.0, 2.0], &[OpCode::Constant(0), OpCode::Constant(1), OpCode::Add]);
    assert_eq!(vm.interpret(waiting), Action::Compute(Arithmetic::Add, value(1.0), value(2.0)));
    let other = chunk_of(&[9.0], &[OpCode::Constant(0), OpCode::Return]);
    assert_eq!(vm.interpret(other), Action::Finish(value(9.0)));
    assert_eq!(vm.resume(value(3.0)), Action::Fault);
    assert_eq!(vm.state(), VmState::Halted(InterpretResult::Success));
}

#[test]
fn resume_without_a_waiting_run_is_a_fault_and_changes_nothing() {
    let mut vm = VM::new();
    assert_eq!(vm.resume(value(1.0)), Action::Fault);
    assert_eq!(vm.state(), VmState::Idle);
    let chunk = chunk_of(&[1.0], &[OpCode::Return]);
    assert_eq!(vm.interpret(chunk), Action::Fault);
    assert_eq!(vm.resume(value(1.0)), Action::Fault);
    assert_eq!(vm.state(), VmState::Halted(InterpretResult::RuntimeError));
}

#[test]
fn result_of_the_host_is_used_by_what_follows() {
    let mut vm = VM::new();
    let chunk = chunk_of(
        &[1.0, 2.0, 4.0],
        &[
            OpCode::Constant(0),
            OpCode::Constant(1),
            OpCode::Add,
            OpCode::Constant(2),
            OpCode::Multiply,
            OpCode::Return,
        ],
    );
    assert_eq!(vm.interpret(chunk), Action::Compute(Arithmetic::Add, value(1.0), value(2.0)));
    assert_eq!(
        vm.resume(value(100.0)),
        Action::Compute(Arithmetic::Multiply, value(100.0), value(4.0))
    );
    assert_eq!(vm.resume(value(-1.0)), Action::Finish(value(-1.0)));
}

#[test]
fn push_then_pop_gives_the_value_back() {
    let mut stack = Stack::new();
    assert_eq!(stack.stack_top(), 0);
    for i in 0..200 {
        let before = stack.stack_top();
        assert!(stack.push(value(i as f32)));
        assert_eq!(stack.stack_top(), before + 1);
        assert_eq!(stack.pop(), Some(value(i as f32)));
        assert_eq!(stack.stack_top(), before);
        assert!(stack.push(value(-(i as f32))));
    }
    for i in (0..200).rev() {
        assert_eq!(stack.pop(), Some(value(-(i as f32))));
    }
    assert_eq!(stack.stack_top(), 0);
}

#[test]
fn pop_on_an_empty_stack_gives_nothing() {
    let mut stack = Stack::new();
    assert_eq!(stack.pop(), None);
    assert_eq!(stack.stack_top(), 0);
    assert!(stack.push(value(1.0)));
    assert_eq!(stack.pop(), Some(value(1.0)));
    assert_eq!(stack.pop(), None);
}

#[test]
fn push_on_a_full_stack_is_refused() {
    let mut stack = Stack::new();
    for i in 0..STACK_MAX {
        assert!(stack.push(value(i as f32)));
    }
    assert_eq!(stack.stack_top(), STACK_MAX);
    assert!(!stack.push(value(-1.0)));
    assert_eq!(stack.stack_top(), STACK_MAX);
    assert_eq!(stack.pop(), Some(value((STACK_MAX - 1) as f32)));
    assert!(stack.push(value(-1.0)));
}

#[test]
fn reset_empties_the_stack() {
    let mut stack = Stack::new();
    assert!(stack.push(value(1.0)));
    assert!(stack.push(value(2.0)));
    stack.reset();
    assert_eq!(stack.stack_top(), 0);
    assert_eq!(stack.pop(), None);
}

#[test]
fn stack_holds_two_hundred_and_fifty_six_values() {
    assert_eq!(STACK_MAX, 256);
}
