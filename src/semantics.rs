use vstd::prelude::*;

use crate::counter::IndexedCounter;
use crate::frame::slots_after_write;
use crate::instructions::Instruction;
use crate::program::{lookup, store, Program};
use crate::value::{same, Value};

verus! {

/// The abstract state of a frame.
pub struct FrameView {
    pub return_position: Option<usize>,
    pub variables: Seq<Value>,
    pub data: Seq<Value>,
}

/// The abstract contents of one heap cell.
pub enum CollectionView {
    Array(Seq<Value>),
    Dictionary(Seq<(String, Value)>),
}

/// Whether the machine may run, waits for its embedder, or has stopped.
#[derive(Clone, Copy, Debug, PartialEq, Eq, Structural)]
pub enum RunState {
    Running,
    Waiting,
    Finished,
    Failed,
}

/// An operator whose operands the machine hands to the embedder when one of
/// them is a float.
#[derive(Clone, Copy, Debug, PartialEq, Eq, Structural)]
pub enum Operator {
    Add,
    Sub,
    Multiply,
    Divide,
    Pow,
    Equal,
    NotEqual,
    LessThan,
    LessThanOrEqual,
    GreaterThan,
    GreaterThanOrEqual,
}

/// The abstract state of a machine.
pub struct MachineView {
    pub ip: int,
    pub frame: FrameView,
    pub callers: Seq<FrameView>,
    pub heap: Seq<CollectionView>,
    pub state: RunState,
}

/// What one step did.
pub enum Outcome {
    /// The next instruction may run.
    Continue,
    /// The root frame returned, with or without a value.
    Returned(Option<Value>),
    /// A builtin is to be called with these arguments.
    Builtin(Seq<char>, Seq<Value>),
    /// The embedder is to apply the operator to two numbers, one a float.
    Arithmetic(Operator, Value, Value),
    /// Execution failed.
    Fault,
}

impl FrameView {
    pub open spec fn push(self, v: Value) -> FrameView {
        FrameView { data: self.data.push(v), ..self }
    }

    /// The frame with its `n` topmost stack values removed.
    pub open spec fn drop(self, n: int) -> FrameView {
        FrameView { data: self.data.subrange(0, self.data.len() - n), ..self }
    }

    /// The stack value `k` places below the top.
    pub open spec fn peek(self, k: int) -> Value {
        self.data[self.data.len() - 1 - k]
    }

    pub open spec fn write(self, slot: int, v: Value) -> FrameView {
        FrameView { variables: slots_after_write(self.variables, slot, v), ..self }
    }
}

pub open spec fn fits_i32(x: int) -> bool {
    i32::MIN <= x <= i32::MAX
}

/// Division that rounds toward zero.
pub open spec fn quotient(a: int, b: int) -> int {
    let q = (if a < 0 { -a } else { a }) / (if b < 0 { -b } else { b });
    if (a < 0) != (b < 0) {
        -q
    } else {
        q
    }
}

/// `b` raised to `e` by repeated multiplication; none once a partial product
/// leaves the 32-bit range.
pub open spec fn checked_power(b: int, e: nat) -> Option<int>
    decreases e,
{
    if e == 0 {
        Some(1)
    } else {
        match checked_power(b, (e - 1) as nat) {
            Some(p) => if fits_i32(p * b) {
                Some(p * b)
            } else {
                None
            },
            None => None,
        }
    }
}

/// The result of an operator on two integers; none on overflow, division by
/// zero or a negative exponent.
pub open spec fn integer_result(op: Operator, a: int, b: int) -> Option<Value> {
    match op {
        Operator::Add => if fits_i32(a + b) {
            Some(Value::Integer((a + b) as i32))
        } else {
            None
        },
        Operator::Sub => if fits_i32(a - b) {
            Some(Value::Integer((a - b) as i32))
        } else {
            None
        },
        Operator::Multiply => if fits_i32(a * b) {
            Some(Value::Integer((a * b) as i32))
        } else {
            None
        },
        Operator::Divide => if b != 0 && fits_i32(quotient(a, b)) {
            Some(Value::Integer(quotient(a, b) as i32))
        } else {
            None
        },
        Operator::Pow => if b >= 0 {
            match checked_power(a, b as nat) {
                Some(p) => Some(Value::Integer(p as i32)),
                None => None,
            }
        } else {
            None
        },
        Operator::Equal => Some(Value::Bool(a == b)),
        Operator::NotEqual => Some(Value::Bool(a != b)),
        Operator::LessThan => Some(Value::Bool(a < b)),
        Operator::LessThanOrEqual => Some(Value::Bool(a <= b)),
        Operator::GreaterThan => Some(Value::Bool(a > b)),
        Operator::GreaterThanOrEqual => Some(Value::Bool(a >= b)),
    }
}

pub open spec fn is_number(v: Value) -> bool {
    v is Integer || v is Float
}

/// What a binary operator makes of two operands: a value, a request to the
/// embedder (a float among numbers), or none when the operands do not suit.
pub enum Binary {
    Done(Value),
    Delegate,
    Fail,
}

pub open spec fn binary(op: Operator, l: Value, r: Value) -> Binary {
    if l is Integer && r is Integer {
        match integer_result(op, l->Integer_0 as int, r->Integer_0 as int) {
            Some(v) => Binary::Done(v),
            None => Binary::Fail,
        }
    } else if is_number(l) && is_number(r) {
        Binary::Delegate
    } else if op == Operator::Equal {
        Binary::Done(Value::Bool(same(l, r)))
    } else if op == Operator::NotEqual {
        Binary::Done(Value::Bool(!same(l, r)))
    } else {
        Binary::Fail
    }
}

/// The operator an instruction applies, if it is one of the binary operators.
pub open spec fn operator_of(i: Instruction) -> Option<Operator> {
    match i {
        Instruction::Add => Some(Operator::Add),
        Instruction::Sub => Some(Operator::Sub),
        Instruction::Multiply => Some(Operator::Multiply),
        Instruction::Divide => Some(Operator::Divide),
        Instruction::Pow => Some(Operator::Pow),
        Instruction::Equal => Some(Operator::Equal),
        Instruction::NotEqual => Some(Operator::NotEqual),
        Instruction::LessThan => Some(Operator::LessThan),
        Instruction::LessThanOrEqual => Some(Operator::LessThanOrEqual),
        Instruction::GreaterThan => Some(Operator::GreaterThan),
        Instruction::GreaterThanOrEqual => Some(Operator::GreaterThanOrEqual),
        _ => None,
    }
}

pub open spec fn fault(m: MachineView) -> (MachineView, Outcome) {
    (MachineView { state: RunState::Failed, ..m }, Outcome::Fault)
}

/// Carry on at `ip` with current frame `f`.
pub open spec fn go(m: MachineView, f: FrameView, ip: int) -> (MachineView, Outcome) {
    (MachineView { ip, frame: f, ..m }, Outcome::Continue)
}

/// Stop and wait for the embedder's answer to `o`.
pub open spec fn wait(m: MachineView, f: FrameView, o: Outcome) -> (MachineView, Outcome) {
    (MachineView { frame: f, state: RunState::Waiting, ..m }, o)
}

/// Enter the function at `target` with `args` in its first slots; `f` is the
/// caller as it is left.
pub open spec fn enter(m: MachineView, f: FrameView, target: int, args: Seq<Value>) -> (
    MachineView,
    Outcome,
) {
    (
        MachineView {
            ip: target,
            frame: FrameView {
                return_position: Some((m.ip + 1) as usize),
                variables: args,
                data: Seq::empty(),
            },
            callers: m.callers.push(f),
            ..m
        },
        Outcome::Continue,
    )
}

pub open spec fn is_builtin(builtins: Seq<String>, name: Seq<char>) -> bool {
    exists|i: int| 0 <= i < builtins.len() && builtins[i]@ == name
}

pub open spec fn class_template(classes: Seq<(String, Seq<(String, Value)>)>, name: Seq<char>) -> Option<Seq<(String, Value)>>
    decreases classes.len(),
{
    if classes.len() == 0 {
        None
    } else if classes[0].0@ == name {
        Some(classes[0].1)
    } else {
        class_template(classes.drop_first(), name)
    }
}

pub open spec fn class_templates(p: Program) -> Seq<(String, Seq<(String, Value)>)> {
    p.classes@.map_values(|c: (String, Vec<(String, Value)>)| (c.0, c.1@))
}

/// The global name of the constructor of class `c`: `c.c`.
pub open spec fn constructor_name(c: Seq<char>) -> Seq<char> {
    c + seq!['.'] + c
}

/// The dictionary built from the `n` key/value pairs at the top of `s`,
/// taken in source order; none if a key is not a string.
pub open spec fn dictionary_of(pairs: Seq<Value>, k: nat) -> Option<Seq<(String, Value)>>
    decreases k,
{
    if k == 0 {
        Some(Seq::empty())
    } else {
        match dictionary_of(pairs, (k - 1) as nat) {
            Some(d) => {
                let key = pairs[2 * (k - 1)];
                if key is String {
                    Some(store(d, key->String_0, pairs[2 * (k - 1) + 1]))
                } else {
                    None
                }
            },
            None => None,
        }
    }
}

pub open spec fn keys_of(d: Seq<(String, Value)>) -> Seq<Value> {
    d.map_values(|e: (String, Value)| Value::String(e.0))
}

pub open spec fn top_values(f: FrameView, n: int) -> Seq<Value> {
    f.data.subrange(f.data.len() - n, f.data.len() as int)
}

/// One step of the machine on program `p`, with `builtins` the names that the
/// embedder serves.
pub open spec fn next(p: Program, builtins: Seq<String>, m: MachineView) -> (MachineView, Outcome) {
    let f = m.frame;
    let n = f.data.len();
    let ip = m.ip;
    if ip < 0 || ip >= p.instructions@.len() {
        fault(m)
    } else {
        match p.instructions@[ip] {
            Instruction::PushNull => go(m, f.push(Value::Null), ip + 1),
            Instruction::PushInteger(v) => go(m, f.push(Value::Integer(v)), ip + 1),
            Instruction::PushFloat(v) => go(m, f.push(Value::Float(v)), ip + 1),
            Instruction::PushBool(v) => go(m, f.push(Value::Bool(v)), ip + 1),
            Instruction::PushString(v) => go(m, f.push(Value::String(v)), ip + 1),
            Instruction::PushFunctionRef(v) => go(m, f.push(Value::FunctionRef(v)), ip + 1),
            Instruction::MoveToLocalVariable(s) => if n > 0 && s < usize::MAX {
                go(m, f.drop(1).write(s as int, f.peek(0)), ip + 1)
            } else {
                fault(m)
            },
            Instruction::LoadLocalVariable(s) => if s < f.variables.len() {
                go(m, f.push(f.variables[s as int]), ip + 1)
            } else {
                fault(m)
            },
            Instruction::LoadGlobal(name) => match lookup(p.globals@, name@) {
                Some(v) => go(m, f.push(v), ip + 1),
                None => fault(m),
            },
            Instruction::LoadMethod(name) => if n > 0 && f.peek(0) is Object {
                let h = f.peek(0)->Object_0 as int;
                if h < m.heap.len() && m.heap[h] is Dictionary {
                    match lookup(m.heap[h]->Dictionary_0, name@) {
                        Some(method) => go(m, f.drop(1).push(method).push(f.peek(0)), ip + 1),
                        None => fault(m),
                    }
                } else {
                    fault(m)
                }
            } else {
                fault(m)
            },
            Instruction::CreateObject(cname, argc) => match class_template(
                class_templates(p),
                cname@,
            ) {
                Some(template) => if argc <= n {
                    let h = m.heap.len();
                    let object = Value::Object(h as usize);
                    let args = top_values(f, argc as int);
                    let caller = f.drop(argc as int).push(object);
                    let m2 = MachineView {
                        heap: m.heap.push(CollectionView::Dictionary(template)),
                        ..m
                    };
                    match lookup(p.globals@, constructor_name(cname@)) {
                        Some(Value::FunctionPointer(target)) => enter(
                            m2,
                            caller,
                            target as int,
                            seq![object] + args,
                        ),
                        None => go(m2, caller, ip + 1),
                        _ => fault(m),
                    }
                } else {
                    fault(m)
                },
                None => fault(m),
            },
            Instruction::GetCollectionItem => if n >= 2 {
                let key = f.peek(0);
                let c = f.peek(1);
                let rest = f.drop(2);
                match c {
                    Value::Array(h) => if h < m.heap.len() && m.heap[h as int] is Array
                        && key is Integer {
                        let items = m.heap[h as int]->Array_0;
                        let i = key->Integer_0 as int;
                        if 0 <= i < items.len() {
                            go(m, rest.push(items[i]), ip + 1)
                        } else {
                            fault(m)
                        }
                    } else {
                        fault(m)
                    },
                    Value::Dictionary(h) | Value::Object(h) => if h < m.heap.len()
                        && m.heap[h as int] is Dictionary && key is String {
                        match lookup(m.heap[h as int]->Dictionary_0, key->String_0@) {
                            Some(v) => go(m, rest.push(v), ip + 1),
                            None => fault(m),
                        }
                    } else {
                        fault(m)
                    },
                    _ => fault(m),
                }
            } else {
                fault(m)
            },
            Instruction::SetCollectionItem => if n >= 3 {
                let key = f.peek(0);
                let v = f.peek(1);
                let c = f.peek(2);
                let rest = f.drop(3).push(c);
                match c {
                    Value::Array(h) => if h < m.heap.len() && m.heap[h as int] is Array
                        && key is Integer {
                        let items = m.heap[h as int]->Array_0;
                        let i = key->Integer_0 as int;
                        if 0 <= i < items.len() {
                            go(
                                MachineView {
                                    heap: m.heap.update(
                                        h as int,
                                        CollectionView::Array(items.update(i, v)),
                                    ),
                                    ..m
                                },
                                rest,
                                ip + 1,
                            )
                        } else {
                            fault(m)
                        }
                    } else {
                        fault(m)
                    },
                    Value::Dictionary(h) | Value::Object(h) => if h < m.heap.len()
                        && m.heap[h as int] is Dictionary && key is String {
                        let d = m.heap[h as int]->Dictionary_0;
                        go(
                            MachineView {
                                heap: m.heap.update(
                                    h as int,
                                    CollectionView::Dictionary(store(d, key->String_0, v)),
                                ),
                                ..m
                            },
                            rest,
                            ip + 1,
                        )
                    } else {
                        fault(m)
                    },
                    _ => fault(m),
                }
            } else {
                fault(m)
            },
            Instruction::CreateCollectionAsDictionary(size) => if 2 * size <= n {
                match dictionary_of(top_values(f, 2 * size), size as nat) {
                    Some(d) => go(
                        MachineView { heap: m.heap.push(CollectionView::Dictionary(d)), ..m },
                        f.drop(2 * size).push(Value::Dictionary(m.heap.len() as usize)),
                        ip + 1,
                    ),
                    None => fault(m),
                }
            } else {
                fault(m)
            },
            Instruction::CreateCollectionAsArray(size) => if size <= n {
                go(
                    MachineView {
                        heap: m.heap.push(CollectionView::Array(top_values(f, size as int))),
                        ..m
                    },
                    f.drop(size as int).push(Value::Array(m.heap.len() as usize)),
                    ip + 1,
                )
            } else {
                fault(m)
            },
            Instruction::IteratorStart => if n >= 3 && f.peek(0) is Integer && f.peek(1) is Integer
                && f.peek(1)->Integer_0 > 0 {
                let start = f.peek(0)->Integer_0;
                let step = f.peek(1)->Integer_0;
                let bound = f.peek(2);
                let rest = f.drop(3);
                match bound {
                    Value::Integer(b) => go(
                        m,
                        rest.push(bound).push(Value::Counter(IndexedCounter { index: start, step, end: b })),
                        ip + 1,
                    ),
                    Value::Array(h) => if h < m.heap.len() && m.heap[h as int] is Array
                        && m.heap[h as int]->Array_0.len() <= i32::MAX {
                        let end = (m.heap[h as int]->Array_0.len() - 1) as i32;
                        go(
                            m,
                            rest.push(bound).push(Value::Counter(IndexedCounter { index: start, step, end })),
                            ip + 1,
                        )
                    } else {
                        fault(m)
                    },
                    Value::Dictionary(h) => if h < m.heap.len() && m.heap[h as int] is Dictionary
                        && m.heap[h as int]->Dictionary_0.len() <= i32::MAX {
                        let keys = keys_of(m.heap[h as int]->Dictionary_0);
                        let end = (keys.len() - 1) as i32;
                        go(
                            MachineView { heap: m.heap.push(CollectionView::Array(keys)), ..m },
                            rest.push(Value::Array(m.heap.len() as usize)).push(
                                Value::Counter(IndexedCounter { index: start, step, end }),
                            ),
                            ip + 1,
                        )
                    } else {
                        fault(m)
                    },
                    _ => fault(m),
                }
            } else {
                fault(m)
            },
            Instruction::IteratorNext(slot, delta) => if n >= 2 && f.peek(0) is Counter {
                let c = f.peek(0)->Counter_0;
                let coll = f.peek(1);
                let rest = f.drop(2);
                let advanced = Value::Counter(IndexedCounter { index: (c.index + c.step) as i32, ..c });
                if !(coll is Integer || coll is Array) {
                    fault(m)
                } else if c.index > c.end {
                    if ip + delta <= usize::MAX {
                        go(m, rest, ip + delta)
                    } else {
                        fault(m)
                    }
                } else if !fits_i32(c.index + c.step) || slot == usize::MAX {
                    fault(m)
                } else {
                    match coll {
                        Value::Integer(_) => go(
                            m,
                            rest.write(slot as int, Value::Integer(c.index)).push(coll).push(advanced),
                            ip + 1,
                        ),
                        Value::Array(h) => if h < m.heap.len() && m.heap[h as int] is Array
                            && 0 <= c.index < m.heap[h as int]->Array_0.len() {
                            go(
                                m,
                                rest.write(slot as int, m.heap[h as int]->Array_0[c.index as int]).push(
                                    coll,
                                ).push(advanced),
                                ip + 1,
                            )
                        } else {
                            fault(m)
                        },
                        _ => fault(m),
                    }
                }
            } else {
                fault(m)
            },
            Instruction::Call(argc) => if argc < n {
                let args = top_values(f, argc as int);
                let callee = f.peek(argc as int);
                let caller = f.drop(argc + 1);
                match callee {
                    Value::FunctionRef(name) => if is_builtin(builtins, name@) {
                        wait(m, caller, Outcome::Builtin(name@, args))
                    } else {
                        match lookup(p.globals@, name@) {
                            Some(Value::FunctionPointer(target)) => enter(m, caller, target as int, args),
                            _ => fault(m),
                        }
                    },
                    Value::FunctionPointer(target) => enter(m, caller, target as int, args),
                    _ => fault(m),
                }
            } else {
                fault(m)
            },
            Instruction::Return(has) => if has && n == 0 {
                fault(m)
            } else {
                let result = if has {
                    Some(f.peek(0))
                } else {
                    None
                };
                match f.return_position {
                    None => (
                        MachineView { frame: if has { f.drop(1) } else { f }, state: RunState::Finished, ..m },
                        Outcome::Returned(result),
                    ),
                    Some(back) => if m.callers.len() > 0 {
                        let caller = m.callers.last();
                        (
                            MachineView {
                                ip: back as int,
                                frame: if has { caller.push(f.peek(0)) } else { caller },
                                callers: m.callers.drop_last(),
                                ..m
                            },
                            Outcome::Continue,
                        )
                    } else {
                        fault(m)
                    },
                }
            },
            Instruction::JumpForward(d) => if ip + d <= usize::MAX {
                go(m, f, ip + d)
            } else {
                fault(m)
            },
            Instruction::JumpBackward(d) => if d <= ip {
                go(m, f, ip - d)
            } else {
                fault(m)
            },
            Instruction::JumpIfFalse(d) => if n > 0 {
                if f.peek(0) == Value::Bool(false) {
                    if ip + d <= usize::MAX {
                        go(m, f.drop(1), ip + d)
                    } else {
                        fault(m)
                    }
                } else {
                    go(m, f.drop(1), ip + 1)
                }
            } else {
                fault(m)
            },
            Instruction::Halt(_) => fault(m),
            i => match operator_of(i) {
                Some(op) => if n >= 2 {
                    let l = f.peek(1);
                    let r = f.peek(0);
                    match binary(op, l, r) {
                        Binary::Done(v) => go(m, f.drop(2).push(v), ip + 1),
                        Binary::Delegate => wait(m, f.drop(2), Outcome::Arithmetic(op, l, r)),
                        Binary::Fail => fault(m),
                    }
                } else {
                    fault(m)
                },
                None => fault(m),
            },
        }
    }
}

/// Up to `fuel` steps from `m`, stopping at the first step that does not
/// simply continue.
pub open spec fn run(p: Program, builtins: Seq<String>, m: MachineView, fuel: nat) -> (MachineView, Outcome)
    decreases fuel,
{
    if fuel == 0 {
        (m, Outcome::Continue)
    } else {
        let t = next(p, builtins, m);
        if t.1 is Continue {
            run(p, builtins, t.0, (fuel - 1) as nat)
        } else {
            t
        }
    }
}

/// The name of the entry function: the one given, or `main`.
pub open spec fn entry_name(entrypoint: Option<String>) -> Seq<char> {
    match entrypoint {
        Some(e) => e@,
        None => "main"@,
    }
}

} // verus!
