use vstd::prelude::*;

use crate::value::Value;

verus! {

/// An activation record: where to go back to (none for the root frame), the
/// local-variable slots, and the operand stack.
#[derive(Debug)]
pub struct Frame {
    pub return_position: Option<usize>,
    pub variables: Vec<Value>,
    pub data: Vec<Value>,
}

/// The slots after writing `value` to `slot`: an existing slot is replaced;
/// past the end, the slots are grown up to `slot`, every new one holding `value`.
pub open spec fn slots_after_write(slots: Seq<Value>, slot: int, value: Value) -> Seq<Value> {
    if slot < slots.len() {
        slots.update(slot, value)
    } else {
        slots + Seq::new((slot + 1 - slots.len()) as nat, |_k: int| value)
    }
}

/// The values that `count` pops take off the top of `stack`, topmost first.
pub open spec fn popped(stack: Seq<Value>, count: int) -> Seq<Value> {
    Seq::new(count as nat, |k: int| stack[stack.len() - 1 - k])
}

impl Frame {
    /// A frame with an empty operand stack, its first slots holding `args`.
    pub fn new(return_position: Option<usize>, args: Option<Vec<Value>>) -> (r: Frame)
        ensures
            r.return_position == return_position,
            r.variables@ == (match args {
                Some(a) => a@,
                None => Seq::<Value>::empty(),
            }),
            r.data@.len() == 0,
    {
        let variables = match args {
            Some(a) => a,
            None => Vec::new(),
        };
        Frame { return_position, variables, data: Vec::new() }
    }

    pub fn push_value_to_stack(&mut self, value: Value)
        ensures
            final(self).data@ == old(self).data@.push(value),
            final(self).variables@ == old(self).variables@,
            final(self).return_position == old(self).return_position,
    {
        self.data.push(value);
    }

    pub fn push_value_to_variable_slot(&mut self, slot: usize, value: Value)
        requires
            slot < usize::MAX,
        ensures
            final(self).variables@ == slots_after_write(old(self).variables@, slot as int, value),
            final(self).data@ == old(self).data@,
            final(self).return_position == old(self).return_position,
    {
        if self.variables.len() <= slot {
            let ghost start = self.variables@;
            while self.variables.len() <= slot
                invariant
                    start.len() <= self.variables@.len() <= slot + 1,
                    self.variables@ == start + Seq::new(
                        (self.variables@.len() - start.len()) as nat,
                        |_k: int| value,
                    ),
                    self.data@ == old(self).data@,
                    self.return_position == old(self).return_position,
                    start == old(self).variables@,
                decreases slot + 1 - self.variables@.len(),
            {
                self.variables.push(value.duplicate());
                assert(self.variables@ =~= start + Seq::new(
                    (self.variables@.len() - start.len()) as nat,
                    |_k: int| value,
                ));
            }
        } else {
            self.variables.set(slot, value);
        }
    }

    pub fn move_from_stack_to_variable_slot(&mut self, slot: usize)
        requires
            old(self).data@.len() > 0,
            slot < usize::MAX,
        ensures
            final(self).variables@ == slots_after_write(
                old(self).variables@,
                slot as int,
                old(self).data@.last(),
            ),
            final(self).data@ == old(self).data@.drop_last(),
            final(self).return_position == old(self).return_position,
    {
        let value = self.pop_value_from_stack();
        self.push_value_to_variable_slot(slot, value);
    }

    pub fn copy_from_stack_to_variable_slot(&mut self, slot: usize)
        requires
            old(self).data@.len() > 0,
            slot < usize::MAX,
        ensures
            final(self).variables@ == slots_after_write(
                old(self).variables@,
                slot as int,
                old(self).data@.last(),
            ),
            final(self).data@ == old(self).data@,
            final(self).return_position == old(self).return_position,
    {
        let value = self.get_top_value_on_stack();
        self.push_value_to_variable_slot(slot, value);
    }

    pub fn copy_from_variable_slot_to_stack(&mut self, slot: usize)
        requires
            slot < old(self).variables@.len(),
        ensures
            final(self).data@ == old(self).data@.push(old(self).variables@[slot as int]),
            final(self).variables@ == old(self).variables@,
            final(self).return_position == old(self).return_position,
    {
        let value = self.get_variable_or_panic(slot).duplicate();
        self.push_value_to_stack(value);
    }

    pub fn get_top_value_on_stack(&self) -> (r: Value)
        requires
            self.data@.len() > 0,
        ensures
            r == self.data@.last(),
    {
        self.data[self.data.len() - 1].duplicate()
    }

    pub fn pop_value_from_stack(&mut self) -> (r: Value)
        requires
            old(self).data@.len() > 0,
        ensures
            r == old(self).data@.last(),
            final(self).data@ == old(self).data@.drop_last(),
            final(self).variables@ == old(self).variables@,
            final(self).return_position == old(self).return_position,
    {
        match self.data.pop() {
            Some(v) => v,
            None => Value::Null,
        }
    }

    /// Pops the right operand, then the left one.
    pub fn pop_2_values_from_stack(&mut self) -> (r: (Value, Value))
        requires
            old(self).data@.len() >= 2,
        ensures
            r.1 == old(self).data@.last(),
            r.0 == old(self).data@[old(self).data@.len() - 2],
            final(self).data@ == old(self).data@.subrange(0, old(self).data@.len() - 2),
            final(self).variables@ == old(self).variables@,
            final(self).return_position == old(self).return_position,
    {
        let rhs = self.pop_value_from_stack();
        let lhs = self.pop_value_from_stack();
        (lhs, rhs)
    }

    /// Pops `count` values; the result holds them in the order they were
    /// popped, the topmost first.
    pub fn pop_values_from_stack(&mut self, count: usize) -> (r: Vec<Value>)
        requires
            count <= old(self).data@.len(),
        ensures
            r@ == popped(old(self).data@, count as int),
            final(self).data@ == old(self).data@.subrange(0, old(self).data@.len() - count),
            final(self).variables@ == old(self).variables@,
            final(self).return_position == old(self).return_position,
    {
        let mut values: Vec<Value> = Vec::new();
        let mut k: usize = 0;
        while k < count
            invariant
                k <= count,
                count <= old(self).data@.len(),
                values@ == popped(old(self).data@, k as int),
                self.data@ == old(self).data@.subrange(0, old(self).data@.len() - k),
                self.variables@ == old(self).variables@,
                self.return_position == old(self).return_position,
            decreases count - k,
        {
            let v = self.pop_value_from_stack();
            values.push(v);
            k = k + 1;
            assert(values@ =~= popped(old(self).data@, k as int));
            assert(self.data@ =~= old(self).data@.subrange(0, old(self).data@.len() - k));
        }
        values
    }

    pub fn get_variable_or_panic(&self, slot: usize) -> (r: &Value)
        requires
            slot < self.variables@.len(),
        ensures
            *r == self.variables@[slot as int],
    {
        &self.variables[slot]
    }
}

/// Reverses a sequence of values.
pub fn reversed(values: Vec<Value>) -> (r: Vec<Value>)
    ensures
        r@ == values@.reverse(),
{
    let mut r: Vec<Value> = Vec::new();
    let mut i: usize = values.len();
    while i > 0
        invariant
            i <= values@.len(),
            r@ == values@.subrange(i as int, values@.len() as int).reverse(),
        decreases i,
    {
        i = i - 1;
        r.push(values[i].duplicate());
        assert(r@ =~= values@.subrange(i as int, values@.len() as int).reverse());
    }
    assert(values@.subrange(0, values@.len() as int) =~= values@);
    r
}

} // verus!
