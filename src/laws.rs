use vstd::prelude::*;

use crate::counter::{indices, IndexedCounter};
use crate::instructions::Instruction;
use crate::program::Program;
use crate::program::lookup;
use crate::semantics::{fits_i32, is_builtin, next, top_values, FrameView, MachineView};
use crate::value::Value;

verus! {

/// A counted loop `for i = a to b step s`, with `s` positive, runs
/// `max(0, (b - a) / s + 1)` rounds, and in round `k` the loop variable is
/// `a + k * s`, never past `b`.
pub proof fn lemma_counted_loop_rounds(a: int, b: int, s: int)
    requires
        s > 0,
    ensures
        indices(a, s, b).len() == (if b < a { 0 } else { (b - a) / s + 1 }),
        forall|k: int| 0 <= k < indices(a, s, b).len() ==> #[trigger] indices(a, s, b)[k] == a + k * s
            && indices(a, s, b)[k] <= b,
    decreases (if a <= b { b - a + 1 } else { 0 }),
{
    if a <= b {
        lemma_counted_loop_rounds(a + s, b, s);
        let rest = indices(a + s, s, b);
        let all = indices(a, s, b);
        assert(all == seq![a] + rest);
        if b < a + s {
            assert((b - a) / s == 0) by (nonlinear_arith)
                requires
                    0 <= b - a < s,
            ;
        } else {
            vstd::arithmetic::div_mod::lemma_div_minus_one(b - a, s);
            assert(-s + (b - a) == b - (a + s));
        }
        assert forall|k: int| 0 <= k < all.len() implies #[trigger] all[k] == a + k * s && all[k] <= b by {
            if k > 0 {
                assert(all[k] == rest[k - 1]);
                assert(a + s + (k - 1) * s == a + k * s) by (nonlinear_arith);
            }
        }
    }
}

/// Iterating over an array of `n` items runs `n` rounds, and round `k`
/// takes index `k`: every item once, in index order.
pub proof fn lemma_array_loop_rounds(n: int)
    requires
        n >= 0,
    ensures
        indices(0, 1, n - 1).len() == n,
        forall|k: int| 0 <= k < n ==> #[trigger] indices(0, 1, n - 1)[k] == k,
{
    lemma_counted_loop_rounds(0, n - 1, 1);
}

/// One round of an iteration: when the counter has passed its end the
/// machine leaves the loop, dropping collection and counter; otherwise the
/// loop variable takes the counter's index (over a range) or the item at
/// that index (over an array), and the counter moves on by its step.
pub proof fn lemma_iteration_round(p: Program, builtins: Seq<String>, m: MachineView, slot: usize, delta: usize)
    requires
        0 <= m.ip < p.instructions@.len(),
        p.instructions@[m.ip] == Instruction::IteratorNext(slot, delta),
        m.frame.data.len() >= 2,
        m.frame.peek(0) is Counter,
        m.frame.peek(1) is Integer || m.frame.peek(1) is Array,
        m.ip + delta <= usize::MAX,
        slot < usize::MAX,
        fits_i32(m.frame.peek(0)->Counter_0.index + m.frame.peek(0)->Counter_0.step),
    ensures
        ({
            let c = m.frame.peek(0)->Counter_0;
            let (m2, o) = next(p, builtins, m);
            &&& c.index > c.end ==> o is Continue && m2.ip == m.ip + delta && m2.frame == m.frame.drop(2)
            &&& (c.index <= c.end && m.frame.peek(1) is Integer) ==> o is Continue && m2.ip == m.ip + 1
                && m2.frame.variables[slot as int] == Value::Integer(c.index)
                && m2.frame.peek(0) == Value::Counter(IndexedCounter { index: (c.index + c.step) as i32, ..c })
        }),
{
    let c = m.frame.peek(0)->Counter_0;
    if c.index <= c.end && m.frame.peek(1) is Integer {
        let rest = m.frame.drop(2);
        let f2 = rest.write(slot as int, Value::Integer(c.index));
        assert(f2.variables[slot as int] == Value::Integer(c.index));
    }
}

/// A call enters the callee with an empty operand stack; a return hands
/// the caller back its stack as it was, with the returned value on top if
/// there is one.
pub proof fn lemma_frame_stacks(p: Program, builtins: Seq<String>, m: MachineView)
    requires
        0 <= m.ip < p.instructions@.len(),
    ensures
        ({
            let (m2, o) = next(p, builtins, m);
            &&& (o is Continue && m2.callers.len() == m.callers.len() + 1) ==> m2.frame.data.len() == 0
            &&& (o is Continue && m2.callers.len() + 1 == m.callers.len()) ==> ({
                let has = p.instructions@[m.ip]->Return_0;
                &&& p.instructions@[m.ip] is Return
                &&& m.frame.return_position is Some
                &&& m2.ip == m.frame.return_position->Some_0
                &&& m2.frame.variables == m.callers.last().variables
                &&& m2.frame.data == (if has {
                    m.callers.last().data.push(m.frame.peek(0))
                } else {
                    m.callers.last().data
                })
            })
        }),
{
}

/// A call of a function of the program: the caller keeps its stack below
/// the callee, and the callee starts at its entry with an empty stack, the
/// arguments in source order in its first slots, and the next instruction
/// of the caller to return to.
pub proof fn lemma_call_enters(
    p: Program,
    builtins: Seq<String>,
    m: MachineView,
    stk: Seq<Value>,
    name: String,
    args: Seq<Value>,
    target: usize,
)
    requires
        0 <= m.ip < p.instructions@.len(),
        p.instructions@[m.ip] == Instruction::Call(args.len() as usize),
        args.len() <= usize::MAX,
        m.frame.data == stk.push(Value::FunctionRef(name)) + args,
        !is_builtin(builtins, name@),
        lookup(p.globals@, name@) == Some(Value::FunctionPointer(target)),
    ensures
        ({
            let (m2, o) = next(p, builtins, m);
            &&& o is Continue
            &&& m2.ip == target
            &&& m2.frame.data.len() == 0
            &&& m2.frame.variables == args
            &&& m2.frame.return_position == Some((m.ip + 1) as usize)
            &&& m2.callers == m.callers.push(FrameView { data: stk, ..m.frame })
            &&& m2.heap == m.heap
        }),
{
    let f = m.frame;
    let n = args.len() as int;
    assert(top_values(f, n) =~= args);
    assert(f.peek(n) == Value::FunctionRef(name));
    assert(f.drop(n + 1).data =~= stk);
}

/// Two names that hold the same array see an update made through either:
/// after `SetCollectionItem` on that array, both still refer to it, and it
/// holds the new item.
pub proof fn lemma_shared_array(p: Program, builtins: Seq<String>, m: MachineView, a: int, b: int)
    requires
        0 <= m.ip < p.instructions@.len(),
        p.instructions@[m.ip] == Instruction::SetCollectionItem,
        m.frame.data.len() >= 3,
        m.frame.peek(2) is Array,
        m.frame.peek(0) is Integer,
        0 <= a < m.frame.variables.len(),
        0 <= b < m.frame.variables.len(),
        m.frame.variables[a] == m.frame.peek(2),
        m.frame.variables[b] == m.frame.peek(2),
        m.frame.peek(2)->Array_0 < m.heap.len(),
        m.heap[m.frame.peek(2)->Array_0 as int] is Array,
        0 <= m.frame.peek(0)->Integer_0 < m.heap[m.frame.peek(2)->Array_0 as int]->Array_0.len(),
    ensures
        ({
            let (m2, o) = next(p, builtins, m);
            let h = m.frame.peek(2)->Array_0 as int;
            let i = m.frame.peek(0)->Integer_0 as int;
            &&& o is Continue
            &&& m2.frame.variables[a] == Value::Array(h as usize)
            &&& m2.frame.variables[b] == Value::Array(h as usize)
            &&& m2.heap[h] is Array
            &&& m2.heap[h]->Array_0[i] == m.frame.peek(1)
        }),
{
}

} // verus!
