//! The machine that runs a chunk.
//!
//! The machine fetches, decodes and keeps the stack. Adding, subtracting,
//! multiplying and dividing two singles is rounding arithmetic, which the
//! machine leaves to its host: at such an instruction it stops and hands out
//! the operator and both operands, and goes on when the host hands back the
//! result. Negation only flips the sign bit, so the machine does it itself.

use vstd::prelude::*;
use crate::chunk::{Chunk, ChunkView, OpCode, Value};
use crate::stack::{popped, pushed, Stack, STACK_MAX};

verus! {

/// How a run ended.
#[derive(Clone, Copy, Debug, PartialEq, Eq, Structural)]
pub enum InterpretResult {
    Success,
    CompileError,
    RuntimeError,
}

/// The four operations that the host performs.
#[derive(Clone, Copy, Debug, PartialEq, Eq, Structural)]
pub enum Arithmetic {
    Add,
    Subtract,
    Multiply,
    Divide,
}

/// What the machine hands to its host when it stops.
#[derive(Clone, Copy, Debug, PartialEq, Eq, Structural)]
pub enum Action {
    /// An arithmetic instruction was reached: compute `left` operator
    /// `right` and hand the result to `resume`.
    Compute(Arithmetic, Value, Value),
    /// `Return` was reached with this value on top of the stack.
    Finish(Value),
    /// The run failed: the instructions ended without `Return`, the stack
    /// overflowed or underflowed, or a constant's index was out of range.
    Fault,
}

/// Where the machine stands.
#[derive(Clone, Copy, Debug, PartialEq, Eq, Structural)]
pub enum VmState {
    /// No chunk was run yet.
    Idle,
    /// A run waits for the result of an arithmetic instruction.
    Running,
    /// The last run ended.
    Halted(InterpretResult),
}

/// The machine as plain values.
pub struct Machine {
    pub code: Seq<OpCode>,
    pub constants: Seq<Value>,
    /// The index of the next instruction.
    pub ip: int,
    /// The operand stack, the oldest value first.
    pub stack: Seq<Value>,
    pub state: VmState,
}

/// The single with the opposite sign.
pub open spec fn negated(value: Value) -> Value {
    Value { bits: value.bits ^ 0x8000_0000u32 }
}

/// The operation that an instruction asks the host for.
pub open spec fn arithmetic_of(instruction: OpCode) -> Option<Arithmetic> {
    match instruction {
        OpCode::Add => Some(Arithmetic::Add),
        OpCode::Subtract => Some(Arithmetic::Subtract),
        OpCode::Multiply => Some(Arithmetic::Multiply),
        OpCode::Divide => Some(Arithmetic::Divide),
        _ => None,
    }
}

/// The state in which an action leaves the machine.
pub open spec fn state_after(action: Action) -> VmState {
    match action {
        Action::Compute(_, _, _) => VmState::Running,
        Action::Finish(_) => VmState::Halted(InterpretResult::Success),
        Action::Fault => VmState::Halted(InterpretResult::RuntimeError),
    }
}

/// What one instruction does to the stack, and the action with which the
/// machine stops at it, if it stops.
///
/// A constant is pushed. An arithmetic instruction pops the right operand
/// and then the left one and stops for the host. `Negate` replaces the top
/// value. `Return` pops the result and stops. Whatever cannot be done is a
/// fault: an index outside the pool, a push on a full stack, a pop from an
/// empty one.
pub open spec fn execute(
    instruction: OpCode,
    constants: Seq<Value>,
    stack: Seq<Value>,
) -> (Seq<Value>, Option<Action>) {
    match instruction {
        OpCode::Constant(index) => {
            if index < constants.len() {
                match pushed(stack, constants[index as int]) {
                    Some(grown) => (grown, None),
                    None => (stack, Some(Action::Fault)),
                }
            } else {
                (stack, Some(Action::Fault))
            }
        },
        OpCode::Negate => match popped(stack) {
            Some((value, rest)) => (rest.push(negated(value)), None),
            None => (stack, Some(Action::Fault)),
        },
        OpCode::Return => match popped(stack) {
            Some((value, rest)) => (rest, Some(Action::Finish(value))),
            None => (stack, Some(Action::Fault)),
        },
        _ => match popped(stack) {
            Some((right, rest)) => match popped(rest) {
                Some((left, below)) => (
                    below,
                    Some(Action::Compute(arithmetic_of(instruction).unwrap(), left, right)),
                ),
                None => (rest, Some(Action::Fault)),
            },
            None => (stack, Some(Action::Fault)),
        },
    }
}

impl Machine {
    /// The machine when it next stops, and the action that it stops with:
    /// instruction after instruction is fetched, the pointer moved past it,
    /// and the instruction executed, until one stops the machine or the
    /// instructions end, which is a fault.
    pub open spec fn run(self) -> (Machine, Action)
        decreases self.code.len() - self.ip,
    {
        if self.ip < 0 || self.ip >= self.code.len() {
            (Machine { state: state_after(Action::Fault), ..self }, Action::Fault)
        } else {
            let (stack, stop) = execute(self.code[self.ip], self.constants, self.stack);
            match stop {
                Some(action) => (
                    Machine { ip: self.ip + 1, stack: stack, state: state_after(action), ..self },
                    action,
                ),
                None => (Machine { ip: self.ip + 1, stack: stack, ..self }).run(),
            }
        }
    }

    /// The run of a chunk from its first instruction, on an empty stack.
    pub open spec fn launch(chunk: ChunkView) -> (Machine, Action) {
        (Machine {
            code: chunk.code,
            constants: chunk.constants,
            ip: 0,
            stack: Seq::empty(),
            state: VmState::Running,
        }).run()
    }

    /// The run after the host's answer: the result is pushed and the run
    /// goes on. A machine that waits for no result stays as it is and
    /// answers with a fault.
    pub open spec fn resume(self, value: Value) -> (Machine, Action) {
        if self.state != VmState::Running {
            (self, Action::Fault)
        } else {
            match pushed(self.stack, value) {
                Some(grown) => (Machine { stack: grown, ..self }).run(),
                None => (Machine { state: state_after(Action::Fault), ..self }, Action::Fault),
            }
        }
    }
}

/// Operands reach the host in the order in which they were pushed: where
/// two constants are loaded and an arithmetic instruction follows, the
/// machine stops with the first constant as the left operand and the second
/// as the right one, and the stack is as it was before the two loads.
pub proof fn lemma_operands_in_order(m: Machine, left: usize, right: usize, operator: Arithmetic)
    requires
        0 <= m.ip,
        m.ip + 3 <= m.code.len(),
        m.code[m.ip] == OpCode::Constant(left),
        m.code[m.ip + 1] == OpCode::Constant(right),
        arithmetic_of(m.code[m.ip + 2]) == Some(operator),
        left < m.constants.len(),
        right < m.constants.len(),
        m.stack.len() + 2 <= STACK_MAX,
    ensures
        m.run().1 == Action::Compute(
            operator,
            m.constants[left as int],
            m.constants[right as int],
        ),
        m.run().0.stack == m.stack,
        m.run().0.ip == m.ip + 3,
        m.run().0.state == VmState::Running,
{
    let a = m.constants[left as int];
    let b = m.constants[right as int];
    let first = Machine { ip: m.ip + 1, stack: m.stack.push(a), ..m };
    let second = Machine { ip: m.ip + 2, stack: m.stack.push(a).push(b), ..m };
    assert(m.run() == first.run());
    assert(first.run() == second.run());
    assert(second.stack.drop_last() =~= m.stack.push(a));
    assert(m.stack.push(a).drop_last() =~= m.stack);
}

/// A run changes neither the instructions nor the constants, and the
/// pointer never moves back; where an instruction was left to fetch, the
/// pointer has moved on.
pub proof fn lemma_run_moves_on(m: Machine)
    ensures
        m.run().0.code == m.code,
        m.run().0.constants == m.constants,
        m.run().0.ip >= m.ip,
        0 <= m.ip < m.code.len() ==> m.run().0.ip > m.ip,
        m.run().0.state == state_after(m.run().1),
    decreases m.code.len() - m.ip,
{
    if 0 <= m.ip < m.code.len() {
        let (stack, stop) = execute(m.code[m.ip], m.constants, m.stack);
        if stop is None {
            lemma_run_moves_on(Machine { ip: m.ip + 1, stack: stack, ..m });
        }
    }
}

/// Only `Return` ends a run well: where no `Return` is left among the
/// instructions, neither a run nor a run that is resumed ends with `Finish`.
pub proof fn lemma_finish_needs_return(m: Machine, value: Value)
    requires
        forall|i: int| 0 <= i && m.ip <= i < m.code.len() ==> m.code[i] != OpCode::Return,
    ensures
        !(m.run().1 is Finish),
        !(m.resume(value).1 is Finish),
    decreases m.code.len() - m.ip,
{
    if 0 <= m.ip < m.code.len() {
        let (stack, stop) = execute(m.code[m.ip], m.constants, m.stack);
        if stop is None {
            lemma_finish_needs_return(Machine { ip: m.ip + 1, stack: stack, ..m }, value);
        }
    }
    if m.state == VmState::Running {
        if let Some(grown) = pushed(m.stack, value) {
            let next = Machine { stack: grown, ..m };
            if 0 <= next.ip < next.code.len() {
                let (stack, stop) = execute(next.code[next.ip], next.constants, next.stack);
                if stop is None {
                    lemma_finish_needs_return(Machine { ip: next.ip + 1, stack: stack, ..next }, value);
                }
            }
        }
    }
}

/// The machine: the chunk that it runs, the index of the next instruction,
/// the operand stack, and where the run stands.
pub struct VM {
    chunk: Chunk,
    ip: usize,
    stack: Stack,
    state: VmState,
}

impl View for VM {
    type V = Machine;

    closed spec fn view(&self) -> Machine {
        Machine {
            code: self.chunk@.code,
            constants: self.chunk@.constants,
            ip: self.ip as int,
            stack: self.stack@,
            state: self.state,
        }
    }
}

impl VM {
    /// The stack is well formed.
    pub closed spec fn well_formed(&self) -> bool {
        self.stack.well_formed()
    }

    /// An idle machine with an empty chunk and an empty stack.
    pub fn new() -> (vm: Self)
        ensures
            vm.well_formed(),
            vm@ == (Machine {
                code: Seq::empty(),
                constants: Seq::empty(),
                ip: 0,
                stack: Seq::empty(),
                state: VmState::Idle,
            }),
    {
        Self { chunk: Chunk::new(), ip: 0, stack: Stack::new(), state: VmState::Idle }
    }

    /// Where the machine stands.
    pub fn state(&self) -> (state: VmState)
        ensures
            state == self@.state,
    {
        self.state
    }

    /// Takes over `chunk` and runs it from its first instruction on an empty
    /// stack, up to the first stop.
    pub fn interpret(&mut self, chunk: Chunk) -> (action: Action)
        ensures
            final(self).well_formed(),
            (final(self)@, action) == Machine::launch(chunk@),
    {
        self.chunk = chunk;
        self.ip = 0;
        self.reset_stack();
        self.state = VmState::Running;
        self.run()
    }

    /// Pushes the result that the host computed and runs on to the next
    /// stop.
    pub fn resume(&mut self, value: Value) -> (action: Action)
        requires
            old(self).well_formed(),
        ensures
            final(self).well_formed(),
            (final(self)@, action) == old(self)@.resume(value),
    {
        match self.state {
            VmState::Running => {},
            _ => {
                return Action::Fault;
            },
        }
        if !self.push(value) {
            self.state = VmState::Halted(InterpretResult::RuntimeError);
            return Action::Fault;
        }
        self.run()
    }

    /// The dispatch loop.
    fn run(&mut self) -> (action: Action)
        requires
            old(self).well_formed(),
            old(self)@.state == VmState::Running,
        ensures
            final(self).well_formed(),
            (final(self)@, action) == old(self)@.run(),
    {
        while self.ip < self.chunk.code.len()
            invariant
                self.well_formed(),
                self@.state == VmState::Running,
                self@.run() == old(self)@.run(),
                0 <= self@.ip,
            decreases self.chunk.code.len() - self.ip,
        {
            let instruction = self.chunk.code[self.ip];
            self.ip += 1;
            match instruction {
                OpCode::Constant(value_index) => {
                    if value_index >= self.chunk.constants.len() {
                        return self.halt(Action::Fault);
                    }
                    let constant = self.chunk.constants.values[value_index];
                    if !self.push(constant) {
                        return self.halt(Action::Fault);
                    }
                },
                OpCode::Add => {
                    return self.binary(Arithmetic::Add);
                },
                OpCode::Subtract => {
                    return self.binary(Arithmetic::Subtract);
                },
                OpCode::Multiply => {
                    return self.binary(Arithmetic::Multiply);
                },
                OpCode::Divide => {
                    return self.binary(Arithmetic::Divide);
                },
                OpCode::Negate => {
                    proof {
                        self.stack.lemma_len();
                    }
                    match self.pop() {
                        Some(value) => {
                            let negated = Value { bits: value.bits ^ 0x8000_0000u32 };
                            let pushed = self.push(negated);
                            assert(pushed);
                        },
                        None => {
                            return self.halt(Action::Fault);
                        },
                    }
                },
                OpCode::Return => {
                    return match self.pop() {
                        Some(value) => self.halt(Action::Finish(value)),
                        None => self.halt(Action::Fault),
                    };
                },
            }
        }
        self.halt(Action::Fault)
    }

    /// Pops the right operand and then the left one, and stops for the host
    /// to apply `operator` to them.
    fn binary(&mut self, operator: Arithmetic) -> (action: Action)
        requires
            old(self).well_formed(),
        ensures
            final(self).well_formed(),
            final(self)@.code == old(self)@.code,
            final(self)@.constants == old(self)@.constants,
            final(self)@.ip == old(self)@.ip,
            final(self)@.state == state_after(action),
            (final(self)@.stack, action) == (match popped(old(self)@.stack) {
                Some((right, rest)) => match popped(rest) {
                    Some((left, below)) => (below, Action::Compute(operator, left, right)),
                    None => (rest, Action::Fault),
                },
                None => (old(self)@.stack, Action::Fault),
            }),
    {
        let right = match self.pop() {
            Some(value) => value,
            None => {
                return self.halt(Action::Fault);
            },
        };
        let left = match self.pop() {
            Some(value) => value,
            None => {
                return self.halt(Action::Fault);
            },
        };
        self.halt(Action::Compute(operator, left, right))
    }

    /// Stops the machine with `action`.
    fn halt(&mut self, action: Action) -> (same: Action)
        requires
            old(self).well_formed(),
        ensures
            final(self).well_formed(),
            same == action,
            final(self)@ == (Machine { state: state_after(action), ..old(self)@ }),
    {
        self.state = match action {
            Action::Compute(_, _, _) => VmState::Running,
            Action::Finish(_) => VmState::Halted(InterpretResult::Success),
            Action::Fault => VmState::Halted(InterpretResult::RuntimeError),
        };
        action
    }

    fn reset_stack(&mut self)
        ensures
            final(self).well_formed(),
            final(self)@ == (Machine { stack: Seq::empty(), ..old(self)@ }),
    {
        self.stack.reset();
    }

    fn push(&mut self, value: Value) -> (accepted: bool)
        requires
            old(self).well_formed(),
        ensures
            final(self).well_formed(),
            accepted == (pushed(old(self)@.stack, value) is Some),
            final(self)@ == (Machine {
                stack: match pushed(old(self)@.stack, value) {
                    Some(grown) => grown,
                    None => old(self)@.stack,
                },
                ..old(self)@
            }),
    {
        self.stack.push(value)
    }

    fn pop(&mut self) -> (value: Option<Value>)
        requires
            old(self).well_formed(),
        ensures
            final(self).well_formed(),
            value == match popped(old(self)@.stack) {
                Some((top, _)) => Some(top),
                None => None,
            },
            final(self)@ == (Machine {
                stack: match popped(old(self)@.stack) {
                    Some((_, rest)) => rest,
                    None => old(self)@.stack,
                },
                ..old(self)@
            }),
    {
        self.stack.pop()
    }
}

} // verus!
