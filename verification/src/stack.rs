//! The operand stack of the machine: a fixed number of slots and the index
//! of the next free one.

use vstd::prelude::*;
use crate::chunk::Value;

verus! {

/// How many values the operand stack holds at most.
pub const STACK_MAX: usize = 256;

/// What `push` does to the values on a stack: the new value goes on top
/// while a slot is free, and a full stack takes nothing.
pub open spec fn pushed(values: Seq<Value>, value: Value) -> Option<Seq<Value>> {
    if values.len() < STACK_MAX {
        Some(values.push(value))
    } else {
        None
    }
}

/// What `pop` does to the values on a stack: the top value leaves and the
/// rest stays, and an empty stack gives nothing.
pub open spec fn popped(values: Seq<Value>) -> Option<(Value, Seq<Value>)> {
    if values.len() > 0 {
        Some((values.last(), values.drop_last()))
    } else {
        None
    }
}

/// A last-in-first-out store of at most `STACK_MAX` values.
pub struct Stack {
    slots: [Value; 256],
    top: usize,
}

impl View for Stack {
    type V = Seq<Value>;

    /// The values on the stack, the oldest first.
    closed spec fn view(&self) -> Seq<Value> {
        self.slots@.subrange(0, self.top as int)
    }
}

impl Stack {
    /// The index of the next free slot is within the slots.
    pub closed spec fn well_formed(&self) -> bool {
        self.top <= STACK_MAX
    }

    /// A well-formed stack holds no more values than it has slots.
    pub proof fn lemma_len(&self)
        requires
            self.well_formed(),
        ensures
            self@.len() <= STACK_MAX,
    {
    }

    /// A stack without values.
    pub fn new() -> (stack: Self)
        ensures
            stack.well_formed(),
            stack@ == Seq::<Value>::empty(),
    {
        let stack = Stack { slots: [Value { bits: 0 }; 256], top: 0 };
        assert(stack@ =~= Seq::<Value>::empty());
        stack
    }

    /// The index of the next free slot, which is the number of values held.
    pub fn stack_top(&self) -> (top: usize)
        requires
            self.well_formed(),
        ensures
            top == self@.len(),
    {
        self.top
    }

    /// Forgets every value.
    pub fn reset(&mut self)
        ensures
            final(self).well_formed(),
            final(self)@ == Seq::<Value>::empty(),
    {
        self.top = 0;
        assert(self@ =~= Seq::<Value>::empty());
    }

    /// Writes `value` to the next free slot and moves the index up. On a full
    /// stack nothing changes and the answer is `false`.
    pub fn push(&mut self, value: Value) -> (accepted: bool)
        requires
            old(self).well_formed(),
        ensures
            final(self).well_formed(),
            accepted == (pushed(old(self)@, value) is Some),
            final(self)@ == match pushed(old(self)@, value) {
                Some(values) => values,
                None => old(self)@,
            },
    {
        if self.top >= STACK_MAX {
            return false;
        }
        self.slots[self.top] = value;
        self.top += 1;
        assert(self@ =~= old(self)@.push(value));
        true
    }

    /// Moves the index down and reads the value there. On an empty stack
    /// nothing changes and the answer is `None`.
    pub fn pop(&mut self) -> (value: Option<Value>)
        requires
            old(self).well_formed(),
        ensures
            final(self).well_formed(),
            value == match popped(old(self)@) {
                Some((top, _)) => Some(top),
                None => None,
            },
            final(self)@ == match popped(old(self)@) {
                Some((_, rest)) => rest,
                None => old(self)@,
            },
    {
        if self.top == 0 {
            return None;
        }
        self.top -= 1;
        let value = self.slots[self.top];
        assert(self@ =~= old(self)@.drop_last());
        Some(value)
    }
}

/// A value that was pushed is the value that the next pop returns, and the
/// pop leaves the stack, and so the index of its next free slot, as it was
/// before the push.
pub proof fn lemma_push_pop(values: Seq<Value>, value: Value)
    requires
        values.len() < STACK_MAX,
    ensures
        pushed(values, value) is Some,
        popped(pushed(values, value).unwrap()) == Some((value, values)),
        pushed(values, value).unwrap().len() == values.len() + 1,
        popped(pushed(values, value).unwrap()).unwrap().1.len() == values.len(),
{
    assert(values.push(value).drop_last() =~= values);
}

} // verus!
