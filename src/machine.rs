use vstd::prelude::*;

use crate::counter::IndexedCounter;
use crate::frame::{popped, reversed, Frame};
use crate::instructions::Instruction;
use crate::program::{duplicate_entries, get_entry, set_entry, Entries, Program};
use crate::semantics::{
    entry_name, checked_power, class_template, class_templates, constructor_name, dictionary_of, fits_i32,
    integer_result, is_builtin, keys_of, next, top_values, CollectionView,
    FrameView, MachineView, Operator, Outcome, RunState,
};
use crate::value::Value;

verus! {

/// One heap cell: the storage that array, dictionary and object values share.
#[derive(Debug)]
pub enum Collection {
    Array(Vec<Value>),
    Dictionary(Entries),
}

impl View for Frame {
    type V = FrameView;

    open spec fn view(&self) -> FrameView {
        FrameView {
            return_position: self.return_position,
            variables: self.variables@,
            data: self.data@,
        }
    }
}

impl View for Collection {
    type V = CollectionView;

    open spec fn view(&self) -> CollectionView {
        match self {
            Collection::Array(v) => CollectionView::Array(v@),
            Collection::Dictionary(d) => CollectionView::Dictionary(d@),
        }
    }
}

/// What the machine hands to its embedder.
#[derive(Debug)]
pub enum Event {
    /// The root frame returned.
    Returned(Option<Value>),
    /// Call the builtin of this name with these arguments, then `resume`
    /// with its result.
    Builtin(String, Vec<Value>),
    /// Apply the operator to these numbers, at least one of them a float,
    /// then `resume` with the result.
    Arithmetic(Operator, Value, Value),
}

pub open spec fn outcome_of(r: Result<Option<Event>, String>) -> Outcome {
    match r {
        Err(_) => Outcome::Fault,
        Ok(None) => Outcome::Continue,
        Ok(Some(Event::Returned(v))) => Outcome::Returned(v),
        Ok(Some(Event::Builtin(name, args))) => Outcome::Builtin(name@, args@),
        Ok(Some(Event::Arithmetic(op, l, r))) => Outcome::Arithmetic(op, l, r),
    }
}

/// The machine reached state `m` and returned `r` as the transition `t`
/// prescribes; after a fault only the failed state is promised.
pub open spec fn follows(t: (MachineView, Outcome), m: MachineView, r: Result<Option<Event>, String>) -> bool {
    if t.1 is Fault {
        r is Err && m.state == RunState::Failed
    } else {
        r is Ok && m == t.0 && outcome_of(r) == t.1
    }
}

/// A program in execution.
#[derive(Debug)]
pub struct Machine {
    pub program: Program,
    pub builtins: Vec<String>,
    pub ip: usize,
    pub frame: Frame,
    pub callers: Vec<Frame>,
    pub heap: Vec<Collection>,
    pub state: RunState,
}

impl View for Machine {
    type V = MachineView;

    open spec fn view(&self) -> MachineView {
        MachineView {
            ip: self.ip as int,
            frame: self.frame@,
            callers: self.callers@.map_values(|f: Frame| f@),
            heap: self.heap@.map_values(|c: Collection| c@),
            state: self.state,
        }
    }
}

/// The machine is running and its next instruction is `i`.
pub open spec fn about_to(m: Machine, i: Instruction) -> bool {
    &&& m.state == RunState::Running
    &&& m.ip < m.program.instructions@.len()
    &&& m.program.instructions@[m.ip as int] == i
}

/// `new` is `old` after one step that returned `r`.
pub open spec fn stepped(old: Machine, new: Machine, r: Result<Option<Event>, String>) -> bool {
    &&& new.program == old.program
    &&& new.builtins@ == old.builtins@
    &&& follows(next(old.program, old.builtins@, old@), new@, r)
}

/// The key of each entry, as a string value.
fn key_values(entries: &Entries) -> (r: Vec<Value>)
    ensures
        r@ == keys_of(entries@),
{
    let mut r: Vec<Value> = Vec::new();
    let mut i: usize = 0;
    while i < entries.len()
        invariant
            i <= entries@.len(),
            r@ == keys_of(entries@.subrange(0, i as int)),
        decreases entries.len() - i,
    {
        r.push(Value::String(entries[i].0.clone()));
        i = i + 1;
        assert(r@ =~= keys_of(entries@.subrange(0, i as int)));
    }
    assert(entries@.subrange(0, i as int) =~= entries@);
    r
}

proof fn lemma_power_stays_none(b: int, k: nat, e: nat)
    requires
        k <= e,
        checked_power(b, k) is None,
    ensures
        checked_power(b, e) is None,
    decreases e - k,
{
    if k < e {
        lemma_power_stays_none(b, k + 1, e);
    }
}

/// An operator applied to two integers; none where the result leaves the
/// 32-bit range, on division by zero, and for a negative exponent.
pub fn integer_operation(op: Operator, a: i32, b: i32) -> (r: Option<Value>)
    ensures
        r == integer_result(op, a as int, b as int),
{
    let x = a as i64;
    let y = b as i64;
    match op {
        Operator::Add => narrow(x + y),
        Operator::Sub => narrow(x - y),
        Operator::Multiply => {
            assert(-4611686018427387904 <= x * y <= 4611686018427387904) by (nonlinear_arith)
                requires
                    -2147483648 <= x <= 2147483647,
                    -2147483648 <= y <= 2147483647,
            ;
            narrow(x * y)
        },
        Operator::Divide => {
            if y == 0 {
                None
            } else {
                let ax = if x < 0 { -x } else { x };
                let ay = if y < 0 { -y } else { y };
                let q = ax / ay;
                assert(q <= ax) by (nonlinear_arith)
                    requires
                        ax >= 0,
                        ay >= 1,
                        q == ax / ay,
                ;
                if (x < 0) != (y < 0) {
                    narrow(-q)
                } else {
                    narrow(q)
                }
            }
        },
        Operator::Pow => {
            if b < 0 {
                None
            } else {
                let mut acc: i64 = 1;
                let mut k: i32 = 0;
                while k < b
                    invariant
                        0 <= k <= b,
                        x == a as i64,
                        op == Operator::Pow,
                        -2147483648 <= acc <= 2147483647,
                        checked_power(a as int, k as nat) == Some(acc as int),
                    decreases b - k,
                {
                    assert(-4611686018427387904 <= acc * x <= 4611686018427387904)
                        by (nonlinear_arith)
                        requires
                            -2147483648 <= x <= 2147483647,
                            -2147483648 <= acc <= 2147483647,
                    ;
                    let p = acc * x;
                    if p < -2147483648 || p > 2147483647 {
                        assert(checked_power(a as int, (k + 1) as nat) is None);
                        proof {
                            lemma_power_stays_none(a as int, (k + 1) as nat, (b as int) as nat);
                        }
                        assert(integer_result(op, a as int, b as int) is None);
                        return None;
                    }
                    acc = p;
                    k = k + 1;
                }
                Some(Value::Integer(acc as i32))
            }
        },
        Operator::Equal => Some(Value::Bool(a == b)),
        Operator::NotEqual => Some(Value::Bool(a != b)),
        Operator::LessThan => Some(Value::Bool(a < b)),
        Operator::LessThanOrEqual => Some(Value::Bool(a <= b)),
        Operator::GreaterThan => Some(Value::Bool(a > b)),
        Operator::GreaterThanOrEqual => Some(Value::Bool(a >= b)),
    }
}

/// An integer value if `x` fits in 32 bits.
fn narrow(x: i64) -> (r: Option<Value>)
    ensures
        r == (if fits_i32(x as int) {
            Some(Value::Integer(x as i32))
        } else {
            None
        }),
{
    if -2147483648 <= x && x <= 2147483647 {
        Some(Value::Integer(x as i32))
    } else {
        None
    }
}

proof fn lemma_dictionary_stays_none(pairs: Seq<Value>, k: nat, size: nat)
    requires
        k <= size,
        dictionary_of(pairs, k) is None,
    ensures
        dictionary_of(pairs, size) is None,
    decreases size - k,
{
    if k < size {
        lemma_dictionary_stays_none(pairs, k + 1, size);
    }
}

proof fn lemma_popped_reversed(s: Seq<Value>, n: int)
    requires
        0 <= n <= s.len(),
    ensures
        popped(s, n).reverse() == s.subrange(s.len() - n, s.len() as int),
{
    assert(popped(s, n).reverse() =~= s.subrange(s.len() - n, s.len() as int));
}

impl Machine {
    fn advance(&mut self)
        requires
            old(self).ip < old(self).program.instructions@.len(),
        ensures
            final(self)@ == (MachineView { ip: old(self).ip + 1, ..old(self)@ }),
            final(self).program == old(self).program,
            final(self).builtins@ == old(self).builtins@,
            final(self).state == old(self).state,
    {
        assert(self.program.instructions@.len() == self.program.instructions.len());
        self.ip = self.ip + 1;
    }

    fn fail(&mut self, message: &str) -> (r: Result<Option<Event>, String>)
        ensures
            r is Err,
            final(self).state == RunState::Failed,
            final(self).program == old(self).program,
            final(self).builtins@ == old(self).builtins@,
    {
        self.state = RunState::Failed;
        Err(message.to_owned())
    }

    /// Pops `count` values and returns them in the order they were pushed.
    fn take_values(&mut self, count: usize) -> (r: Vec<Value>)
        requires
            count <= old(self).frame.data@.len(),
        ensures
            r@ == top_values(old(self).frame@, count as int),
            final(self).frame@ == old(self).frame@.drop(count as int),
            final(self)@ == (MachineView { frame: final(self).frame@, ..old(self)@ }),
            final(self).program == old(self).program,
            final(self).builtins@ == old(self).builtins@,
    {
        let popped_values = self.frame.pop_values_from_stack(count);
        proof {
            lemma_popped_reversed(old(self).frame.data@, count as int);
        }
        reversed(popped_values)
    }

    /// Suspends the current frame and enters the function at `target`.
    fn enter(&mut self, target: usize, args: Vec<Value>)
        requires
            old(self).ip < old(self).program.instructions@.len(),
        ensures
            final(self)@ == (MachineView {
                ip: target as int,
                frame: FrameView {
                    return_position: Some((old(self).ip + 1) as usize),
                    variables: args@,
                    data: Seq::empty(),
                },
                callers: old(self)@.callers.push(old(self).frame@),
                ..old(self)@
            }),
            final(self).program == old(self).program,
            final(self).builtins@ == old(self).builtins@,
    {
        assert(self.program.instructions@.len() == self.program.instructions.len());
        let mut callee = Frame::new(Some(self.ip + 1), Some(args));
        core::mem::swap(&mut self.frame, &mut callee);
        self.callers.push(callee);
        self.ip = target;
        assert(self@.callers =~= old(self)@.callers.push(old(self).frame@));
        assert(self@.frame.data =~= Seq::<Value>::empty());
    }

    fn serves(&self, name: &String) -> (r: bool)
        ensures
            r == is_builtin(self.builtins@, name@),
    {
        let mut i: usize = 0;
        while i < self.builtins.len()
            invariant
                i <= self.builtins@.len(),
                forall|j: int| 0 <= j < i ==> self.builtins@[j]@ != name@,
            decreases self.builtins.len() - i,
        {
            if self.builtins[i] == *name {
                return true;
            }
            i = i + 1;
        }
        false
    }

    fn exec_call(&mut self, argc: usize) -> (r: Result<Option<Event>, String>)
        requires
            about_to(*old(self), Instruction::Call(argc)),
        ensures
            stepped(*old(self), *final(self), r),
    {
        if argc >= self.frame.data.len() {
            return self.fail("call without a callee on the stack");
        }
        let args = self.take_values(argc);
        let callee = self.frame.pop_value_from_stack();
        assert(self.frame@ == old(self).frame@.drop(argc + 1)) by {
            assert(self.frame@.data =~= old(self).frame@.drop(argc + 1).data);
        }
        match callee {
            Value::FunctionRef(name) => {
                if self.serves(&name) {
                    self.state = RunState::Waiting;
                    Ok(Some(Event::Builtin(name, args)))
                } else {
                    match get_entry(&self.program.globals, &name) {
                        Some(Value::FunctionPointer(target)) => {
                            self.enter(target, args);
                            Ok(None)
                        },
                        _ => self.fail("call of an unknown function"),
                    }
                }
            },
            Value::FunctionPointer(target) => {
                self.enter(target, args);
                Ok(None)
            },
            _ => self.fail("call of a value that is not a function"),
        }
    }

    fn exec_load_method(&mut self, name: String) -> (r: Result<Option<Event>, String>)
        requires
            about_to(*old(self), Instruction::LoadMethod(name)),
        ensures
            stepped(*old(self), *final(self), r),
    {
        if self.frame.data.len() == 0 {
            return self.fail("method lookup without an object");
        }
        let object = self.frame.get_top_value_on_stack();
        match object {
            Value::Object(h) => {
                if h >= self.heap.len() {
                    return self.fail("object handle out of range");
                }
                let found: Option<Option<Value>> = match &self.heap[h] {
                    Collection::Dictionary(entries) => Some(get_entry(entries, &name)),
                    Collection::Array(_) => None,
                };
                match found {
                    Some(Some(method)) => {
                        let top = self.frame.pop_value_from_stack();
                        self.frame.push_value_to_stack(method);
                        self.frame.push_value_to_stack(top);
                        self.advance();
                        assert(self.frame@.data =~= old(self).frame@.drop(1).push(method).push(
                            object,
                        ).data);
                        Ok(None)
                    },
                    _ => self.fail("method not found on object"),
                }
            },
            _ => self.fail("method lookup on a value that is not an object"),
        }
    }

    fn find_class(&self, name: &String) -> (r: Option<usize>)
        ensures
            r matches Some(i) ==> i < self.program.classes@.len() && class_template(
                class_templates(self.program),
                name@,
            ) == Some(self.program.classes@[i as int].1@),
            r is None ==> class_template(class_templates(self.program), name@) is None,
    {
        let ghost all = class_templates(self.program);
        let mut i: usize = 0;
        assert(all.subrange(0, all.len() as int) =~= all);
        while i < self.program.classes.len()
            invariant
                i <= self.program.classes@.len(),
                all == class_templates(self.program),
                class_template(all, name@) == class_template(
                    all.subrange(i as int, all.len() as int),
                    name@,
                ),
            decreases self.program.classes.len() - i,
        {
            let ghost rest = all.subrange(i as int, all.len() as int);
            assert(rest[0] == all[i as int]);
            if self.program.classes[i].0 == *name {
                return Some(i);
            }
            assert(rest.drop_first() =~= all.subrange(i + 1, all.len() as int));
            i = i + 1;
        }
        None
    }

    fn exec_create_object(&mut self, cname: String, argc: usize) -> (r: Result<Option<Event>, String>)
        requires
            about_to(*old(self), Instruction::CreateObject(cname, argc)),
        ensures
            stepped(*old(self), *final(self), r),
    {
        let template = match self.find_class(&cname) {
            Some(c) => duplicate_entries(&self.program.classes[c].1),
            None => {
                return self.fail("unknown class");
            },
        };
        if argc > self.frame.data.len() {
            return self.fail("too few constructor arguments on the stack");
        }
        let args = self.take_values(argc);
        let h = self.heap.len();
        self.heap.push(Collection::Dictionary(template));
        assert(self@.heap =~= old(self)@.heap.push(CollectionView::Dictionary(template@)));
        self.frame.push_value_to_stack(Value::Object(h));
        let mut constructor = cname.clone();
        constructor.append(".");
        constructor.append(cname.as_str());
        proof {
            reveal_strlit(".");
        }
        assert(constructor@ =~= constructor_name(cname@));
        match get_entry(&self.program.globals, &constructor) {
            Some(Value::FunctionPointer(target)) => {
                let mut full: Vec<Value> = Vec::new();
                full.push(Value::Object(h));
                let mut rest = args;
                full.append(&mut rest);
                assert(full@ =~= seq![Value::Object(h)] + args@);
                self.enter(target, full);
                Ok(None)
            },
            None => {
                self.advance();
                Ok(None)
            },
            _ => self.fail("constructor is not a function"),
        }
    }

    fn exec_get_item(&mut self) -> (r: Result<Option<Event>, String>)
        requires
            about_to(*old(self), Instruction::GetCollectionItem),
        ensures
            stepped(*old(self), *final(self), r),
    {
        if self.frame.data.len() < 2 {
            return self.fail("item lookup without collection and key");
        }
        let key = self.frame.pop_value_from_stack();
        let collection = self.frame.pop_value_from_stack();
        assert(self.frame@.data =~= old(self).frame@.drop(2).data);
        let found: Option<Value> = match collection {
            Value::Array(h) => {
                if h < self.heap.len() {
                    match &self.heap[h] {
                        Collection::Array(items) => match key {
                            Value::Integer(i) => if 0 <= i && (i as usize) < items.len() {
                                Some(items[i as usize].duplicate())
                            } else {
                                None
                            },
                            _ => None,
                        },
                        Collection::Dictionary(_) => None,
                    }
                } else {
                    None
                }
            },
            Value::Dictionary(h) | Value::Object(h) => {
                if h < self.heap.len() {
                    match &self.heap[h] {
                        Collection::Dictionary(entries) => match key {
                            Value::String(k) => get_entry(entries, &k),
                            _ => None,
                        },
                        Collection::Array(_) => None,
                    }
                } else {
                    None
                }
            },
            _ => None,
        };
        match found {
            Some(v) => {
                self.frame.push_value_to_stack(v);
                self.advance();
                Ok(None)
            },
            None => self.fail("no such item"),
        }
    }

    /// Replaces item `i` of the array in cell `h`.
    fn update_array(&mut self, h: usize, i: usize, value: Value)
        requires
            h < old(self).heap@.len(),
            old(self).heap@[h as int] matches Collection::Array(items) && i < items@.len(),
        ensures
            final(self)@ == (MachineView {
                heap: old(self)@.heap.update(
                    h as int,
                    CollectionView::Array(old(self)@.heap[h as int]->Array_0.update(i as int, value)),
                ),
                ..old(self)@
            }),
            final(self).program == old(self).program,
            final(self).builtins@ == old(self).builtins@,
    {
        let mut cell = Collection::Array(Vec::new());
        self.heap.set_and_swap(h, &mut cell);
        match cell {
            Collection::Array(items) => {
                let mut items = items;
                items.set(i, value);
                self.heap.set(h, Collection::Array(items));
            },
            other => {
                self.heap.set(h, other);
            },
        }
        assert(self@.heap =~= old(self)@.heap.update(
            h as int,
            CollectionView::Array(old(self)@.heap[h as int]->Array_0.update(i as int, value)),
        ));
    }

    /// Sets entry `key` of the dictionary in cell `h`.
    fn update_dictionary(&mut self, h: usize, key: String, value: Value)
        requires
            h < old(self).heap@.len(),
            old(self).heap@[h as int] is Dictionary,
        ensures
            final(self)@ == (MachineView {
                heap: old(self)@.heap.update(
                    h as int,
                    CollectionView::Dictionary(
                        crate::program::store(old(self)@.heap[h as int]->Dictionary_0, key, value),
                    ),
                ),
                ..old(self)@
            }),
            final(self).program == old(self).program,
            final(self).builtins@ == old(self).builtins@,
    {
        let mut cell = Collection::Array(Vec::new());
        self.heap.set_and_swap(h, &mut cell);
        match cell {
            Collection::Dictionary(entries) => {
                let mut entries = entries;
                set_entry(&mut entries, key, value);
                self.heap.set(h, Collection::Dictionary(entries));
            },
            other => {
                self.heap.set(h, other);
            },
        }
        assert(self@.heap =~= old(self)@.heap.update(
            h as int,
            CollectionView::Dictionary(
                crate::program::store(old(self)@.heap[h as int]->Dictionary_0, key, value),
            ),
        ));
    }

    fn exec_set_item(&mut self) -> (r: Result<Option<Event>, String>)
        requires
            about_to(*old(self), Instruction::SetCollectionItem),
        ensures
            stepped(*old(self), *final(self), r),
    {
        if self.frame.data.len() < 3 {
            return self.fail("item update without collection, value and key");
        }
        let key = self.frame.pop_value_from_stack();
        let value = self.frame.pop_value_from_stack();
        let collection = self.frame.pop_value_from_stack();
        assert(self.frame@.data =~= old(self).frame@.drop(3).data);
        match collection {
            Value::Array(h) => {
                if h >= self.heap.len() {
                    return self.fail("collection handle out of range");
                }
                let index: Option<usize> = match &key {
                    Value::Integer(i) => if *i >= 0 {
                        match &self.heap[h] {
                            Collection::Array(items) => if (*i as usize) < items.len() {
                                Some(*i as usize)
                            } else {
                                None
                            },
                            Collection::Dictionary(_) => None,
                        }
                    } else {
                        None
                    },
                    _ => None,
                };
                match index {
                    Some(i) => {
                        self.update_array(h, i, value);
                        self.frame.push_value_to_stack(collection);
                        self.advance();
                        Ok(None)
                    },
                    None => self.fail("no such array item"),
                }
            },
            Value::Dictionary(h) | Value::Object(h) => {
                if h >= self.heap.len() {
                    return self.fail("collection handle out of range");
                }
                let is_dictionary = match &self.heap[h] {
                    Collection::Dictionary(_) => true,
                    Collection::Array(_) => false,
                };
                match key {
                    Value::String(k) => if is_dictionary {
                        self.update_dictionary(h, k, value);
                        self.frame.push_value_to_stack(collection);
                        self.advance();
                        Ok(None)
                    } else {
                        self.fail("keyed update on an array")
                    },
                    _ => self.fail("dictionary key is not a string"),
                }
            },
            _ => self.fail("item update on a value that is not a collection"),
        }
    }

    fn exec_create_dictionary(&mut self, size: usize) -> (r: Result<Option<Event>, String>)
        requires
            about_to(*old(self), Instruction::CreateCollectionAsDictionary(size)),
        ensures
            stepped(*old(self), *final(self), r),
    {
        if size > self.frame.data.len() / 2 {
            return self.fail("too few dictionary entries on the stack");
        }
        let pairs = self.take_values(2 * size);
        let mut entries: Entries = Vec::new();
        let mut k: usize = 0;
        while k < size
            invariant
                k <= size,
                2 * size == pairs@.len(),
                2 * size <= usize::MAX,
                dictionary_of(pairs@, k as nat) == Some(entries@),
                pairs@ == top_values(old(self).frame@, 2 * size),
                2 * size <= old(self).frame@.data.len(),
                about_to(*old(self), Instruction::CreateCollectionAsDictionary(size)),
                self.frame@ == old(self).frame@.drop(2 * size),
                self@ == (MachineView { frame: self.frame@, ..old(self)@ }),
                self.program == old(self).program,
                self.builtins@ == old(self).builtins@,
                self.state == old(self).state,
            decreases size - k,
        {
            match &pairs[2 * k] {
                Value::String(name) => {
                    set_entry(&mut entries, name.clone(), pairs[2 * k + 1].duplicate());
                },
                _ => {
                    assert(dictionary_of(pairs@, (k + 1) as nat) is None);
                    proof {
                        lemma_dictionary_stays_none(pairs@, (k + 1) as nat, size as nat);
                    }
                    return self.fail("dictionary key is not a string");
                },
            }
            k = k + 1;
        }
        let ghost built = entries@;
        let h = self.heap.len();
        self.heap.push(Collection::Dictionary(entries));
        self.frame.push_value_to_stack(Value::Dictionary(h));
        self.advance();
        assert(self@.heap =~= old(self)@.heap.push(CollectionView::Dictionary(built)));
        Ok(None)
    }

    fn exec_create_array(&mut self, size: usize) -> (r: Result<Option<Event>, String>)
        requires
            about_to(*old(self), Instruction::CreateCollectionAsArray(size)),
        ensures
            stepped(*old(self), *final(self), r),
    {
        if size > self.frame.data.len() {
            return self.fail("too few array items on the stack");
        }
        let items = self.take_values(size);
        let ghost seen = items@;
        let h = self.heap.len();
        self.heap.push(Collection::Array(items));
        self.frame.push_value_to_stack(Value::Array(h));
        self.advance();
        assert(self@.heap =~= old(self)@.heap.push(CollectionView::Array(seen)));
        Ok(None)
    }

    fn exec_iterator_start(&mut self) -> (r: Result<Option<Event>, String>)
        requires
            about_to(*old(self), Instruction::IteratorStart),
        ensures
            stepped(*old(self), *final(self), r),
    {
        if self.frame.data.len() < 3 {
            return self.fail("iteration without bound, step and start");
        }
        let start = match self.frame.pop_value_from_stack() {
            Value::Integer(v) => v,
            _ => {
                return self.fail("iteration start is not an integer");
            },
        };
        let step = match self.frame.pop_value_from_stack() {
            Value::Integer(v) => v,
            _ => {
                return self.fail("iteration step is not an integer");
            },
        };
        if step <= 0 {
            return self.fail("iteration step is not positive");
        }
        let bound = self.frame.pop_value_from_stack();
        assert(self.frame@.data =~= old(self).frame@.drop(3).data);
        match bound {
            Value::Integer(b) => {
                self.frame.push_value_to_stack(bound);
                self.frame.push_value_to_stack(
                    Value::Counter(IndexedCounter::new(start, step, b)),
                );
                self.advance();
                Ok(None)
            },
            Value::Array(h) => {
                if h >= self.heap.len() {
                    return self.fail("array handle out of range");
                }
                let length: Option<usize> = match &self.heap[h] {
                    Collection::Array(items) => Some(items.len()),
                    Collection::Dictionary(_) => None,
                };
                match length {
                    Some(len) => if len <= 2147483647 {
                        let end = (len as i64 - 1) as i32;
                        self.frame.push_value_to_stack(bound);
                        self.frame.push_value_to_stack(
                            Value::Counter(IndexedCounter::new(start, step, end)),
                        );
                        self.advance();
                        Ok(None)
                    } else {
                        self.fail("array too long to iterate")
                    },
                    None => self.fail("array handle refers to a dictionary"),
                }
            },
            Value::Dictionary(h) => {
                if h >= self.heap.len() {
                    return self.fail("dictionary handle out of range");
                }
                let keys: Option<Vec<Value>> = match &self.heap[h] {
                    Collection::Dictionary(entries) => Some(key_values(entries)),
                    Collection::Array(_) => None,
                };
                match keys {
                    Some(keys) => if keys.len() <= 2147483647 {
                        let end = (keys.len() as i64 - 1) as i32;
                        let ghost seen = keys@;
                        let k = self.heap.len();
                        self.heap.push(Collection::Array(keys));
                        assert(self@.heap =~= old(self)@.heap.push(CollectionView::Array(seen)));
                        self.frame.push_value_to_stack(Value::Array(k));
                        self.frame.push_value_to_stack(
                            Value::Counter(IndexedCounter::new(start, step, end)),
                        );
                        self.advance();
                        Ok(None)
                    } else {
                        self.fail("dictionary too large to iterate")
                    },
                    None => self.fail("dictionary handle refers to an array"),
                }
            },
            _ => self.fail("iteration over a value that is neither integer, array nor dictionary"),
        }
    }

    fn exec_iterator_next(&mut self, slot: usize, delta: usize) -> (r: Result<Option<Event>, String>)
        requires
            about_to(*old(self), Instruction::IteratorNext(slot, delta)),
        ensures
            stepped(*old(self), *final(self), r),
    {
        if self.frame.data.len() < 2 {
            return self.fail("iteration step without collection and counter");
        }
        let counter = match self.frame.pop_value_from_stack() {
            Value::Counter(c) => c,
            _ => {
                return self.fail("iteration step without a counter");
            },
        };
        let collection = self.frame.pop_value_from_stack();
        assert(self.frame@.data =~= old(self).frame@.drop(2).data);
        let is_range = match collection {
            Value::Integer(_) => true,
            Value::Array(_) => false,
            _ => {
                return self.fail("iteration over a value that is neither integer nor array");
            },
        };
        if counter.is_done() {
            if delta > usize::MAX - self.ip {
                return self.fail("jump out of range");
            }
            self.ip = self.ip + delta;
            return Ok(None);
        }
        if slot == usize::MAX || (counter.index as i64 + counter.step as i64) > 2147483647 || (
        counter.index as i64 + counter.step as i64) < -2147483648 {
            return self.fail("iteration counter out of range");
        }
        let mut advanced = counter;
        advanced.increment();
        if is_range {
            self.frame.push_value_to_variable_slot(slot, Value::Integer(counter.index));
        } else {
            let h = match collection {
                Value::Array(h) => h,
                _ => 0,
            };
            if h >= self.heap.len() {
                return self.fail("array handle out of range");
            }
            let item: Option<Value> = match &self.heap[h] {
                Collection::Array(items) => if 0 <= counter.index && (counter.index as usize)
                    < items.len() {
                    Some(items[counter.index as usize].duplicate())
                } else {
                    None
                },
                Collection::Dictionary(_) => None,
            };
            match item {
                Some(v) => self.frame.push_value_to_variable_slot(slot, v),
                None => {
                    return self.fail("iteration index out of range");
                },
            }
        }
        self.frame.push_value_to_stack(collection);
        self.frame.push_value_to_stack(Value::Counter(advanced));
        self.advance();
        Ok(None)
    }

    fn exec_binary(&mut self, op: Operator) -> (r: Result<Option<Event>, String>)
        requires
            old(self).state == RunState::Running,
            old(self).ip < old(self).program.instructions@.len(),
            crate::semantics::operator_of(old(self).program.instructions@[old(self).ip as int])
                == Some(op),
        ensures
            stepped(*old(self), *final(self), r),
    {
        if self.frame.data.len() < 2 {
            return self.fail("operator without two operands");
        }
        let (l, r) = self.frame.pop_2_values_from_stack();
        assert(self.frame@.data =~= old(self).frame@.drop(2).data);
        match (&l, &r) {
            (Value::Integer(a), Value::Integer(b)) => {
                match integer_operation(op, *a, *b) {
                    Some(v) => {
                        self.frame.push_value_to_stack(v);
                        self.advance();
                        Ok(None)
                    },
                    None => self.fail("integer arithmetic out of range"),
                }
            },
            _ => {
                let numbers = (l.is_float() || matches!(l, Value::Integer(_))) && (r.is_float()
                    || matches!(r, Value::Integer(_)));
                if numbers {
                    self.state = RunState::Waiting;
                    Ok(Some(Event::Arithmetic(op, l, r)))
                } else {
                    match op {
                        Operator::Equal => {
                            self.frame.push_value_to_stack(Value::Bool(l.same_as(&r)));
                            self.advance();
                            Ok(None)
                        },
                        Operator::NotEqual => {
                            self.frame.push_value_to_stack(Value::Bool(!l.same_as(&r)));
                            self.advance();
                            Ok(None)
                        },
                        _ => self.fail("operator on values that are not numbers"),
                    }
                }
            },
        }
    }

    /// Runs the next instruction.
    pub fn step(&mut self) -> (r: Result<Option<Event>, String>)
        ensures
            old(self).state != RunState::Running ==> r is Err && *final(self) == *old(self),
            old(self).state == RunState::Running ==> stepped(*old(self), *final(self), r),
    {
        if self.state != RunState::Running {
            return Err("the machine is not running".to_owned());
        }
        if self.ip >= self.program.instructions.len() {
            return self.fail("instruction pointer out of range");
        }
        let instruction = self.program.instructions[self.ip].duplicate();
        match instruction {
            Instruction::PushNull => self.push_and_advance(Value::Null),
            Instruction::PushInteger(v) => self.push_and_advance(Value::Integer(v)),
            Instruction::PushFloat(v) => self.push_and_advance(Value::Float(v)),
            Instruction::PushBool(v) => self.push_and_advance(Value::Bool(v)),
            Instruction::PushString(v) => self.push_and_advance(Value::String(v)),
            Instruction::PushFunctionRef(v) => self.push_and_advance(Value::FunctionRef(v)),
            Instruction::MoveToLocalVariable(slot) => {
                if self.frame.data.len() == 0 || slot == usize::MAX {
                    return self.fail("nothing to store");
                }
                self.frame.move_from_stack_to_variable_slot(slot);
                assert(self.frame@ == old(self).frame@.drop(1).write(slot as int, old(self).frame@.peek(0)));
                self.advance();
                Ok(None)
            },
            Instruction::LoadLocalVariable(slot) => {
                if slot >= self.frame.variables.len() {
                    return self.fail("local variable slot out of range");
                }
                self.frame.copy_from_variable_slot_to_stack(slot);
                self.advance();
                Ok(None)
            },
            Instruction::LoadGlobal(name) => {
                match get_entry(&self.program.globals, &name) {
                    Some(v) => self.push_and_advance(v),
                    None => self.fail("unknown global"),
                }
            },
            Instruction::LoadMethod(name) => self.exec_load_method(name),
            Instruction::CreateObject(cname, argc) => self.exec_create_object(cname, argc),
            Instruction::GetCollectionItem => self.exec_get_item(),
            Instruction::SetCollectionItem => self.exec_set_item(),
            Instruction::CreateCollectionAsDictionary(n) => self.exec_create_dictionary(n),
            Instruction::CreateCollectionAsArray(n) => self.exec_create_array(n),
            Instruction::IteratorStart => self.exec_iterator_start(),
            Instruction::IteratorNext(slot, delta) => self.exec_iterator_next(slot, delta),
            Instruction::Call(argc) => self.exec_call(argc),
            Instruction::Return(has) => self.exec_return(has),
            Instruction::JumpForward(d) => {
                if d > usize::MAX - self.ip {
                    return self.fail("jump out of range");
                }
                self.ip = self.ip + d;
                Ok(None)
            },
            Instruction::JumpBackward(d) => {
                if d > self.ip {
                    return self.fail("jump out of range");
                }
                self.ip = self.ip - d;
                Ok(None)
            },
            Instruction::JumpIfFalse(d) => {
                if self.frame.data.len() == 0 {
                    return self.fail("conditional jump without a condition");
                }
                let condition = self.frame.pop_value_from_stack();
                assert(self.frame@.data =~= old(self).frame@.drop(1).data);
                match condition {
                    Value::Bool(false) => {
                        if d > usize::MAX - self.ip {
                            return self.fail("jump out of range");
                        }
                        self.ip = self.ip + d;
                        Ok(None)
                    },
                    _ => {
                        self.advance();
                        Ok(None)
                    },
                }
            },
            Instruction::Add => self.exec_binary(Operator::Add),
            Instruction::Sub => self.exec_binary(Operator::Sub),
            Instruction::Multiply => self.exec_binary(Operator::Multiply),
            Instruction::Divide => self.exec_binary(Operator::Divide),
            Instruction::Pow => self.exec_binary(Operator::Pow),
            Instruction::Equal => self.exec_binary(Operator::Equal),
            Instruction::NotEqual => self.exec_binary(Operator::NotEqual),
            Instruction::LessThan => self.exec_binary(Operator::LessThan),
            Instruction::LessThanOrEqual => self.exec_binary(Operator::LessThanOrEqual),
            Instruction::GreaterThan => self.exec_binary(Operator::GreaterThan),
            Instruction::GreaterThanOrEqual => self.exec_binary(Operator::GreaterThanOrEqual),
            Instruction::Halt(_) => self.fail("halt reached"),
        }
    }

    /// Runs at most `fuel` instructions, and stops early at the first that
    /// does not simply continue: a return from the root frame, a request to
    /// the embedder, or a failure.
    pub fn run(&mut self, fuel: u64) -> (r: Result<Option<Event>, String>)
        ensures
            old(self).state != RunState::Running ==> r is Err && *final(self) == *old(self),
            old(self).state == RunState::Running ==> {
                &&& final(self).program == old(self).program
                &&& final(self).builtins@ == old(self).builtins@
                &&& follows(
                    crate::semantics::run(old(self).program, old(self).builtins@, old(self)@, fuel as nat),
                    final(self)@,
                    r,
                )
            },
    {
        if self.state != RunState::Running {
            return Err("the machine is not running".to_owned());
        }
        let mut used: u64 = 0;
        while used < fuel
            invariant
                used <= fuel,
                old(self).state == RunState::Running,
                self.state == RunState::Running,
                self.program == old(self).program,
                self.builtins@ == old(self).builtins@,
                crate::semantics::run(old(self).program, old(self).builtins@, old(self)@, fuel as nat)
                    == crate::semantics::run(self.program, self.builtins@, self@, (fuel - used) as nat),
            decreases fuel - used,
        {
            let r = self.step();
            match r {
                Ok(None) => {},
                _ => {
                    return r;
                },
            }
            used = used + 1;
        }
        Ok(None)
    }

    fn push_and_advance(&mut self, v: Value) -> (r: Result<Option<Event>, String>)
        requires
            old(self).state == RunState::Running,
            old(self).ip < old(self).program.instructions@.len(),
        ensures
            r == Ok::<Option<Event>, String>(None),
            final(self)@ == (MachineView {
                ip: old(self).ip + 1,
                frame: old(self).frame@.push(v),
                ..old(self)@
            }),
            final(self).program == old(self).program,
            final(self).builtins@ == old(self).builtins@,
    {
        self.frame.push_value_to_stack(v);
        self.advance();
        Ok(None)
    }

    /// Hands the embedder's answer to a waiting machine: the result, if any,
    /// is pushed, and execution goes on after the instruction that asked.
    pub fn resume(&mut self, result: Option<Value>) -> (r: Result<(), String>)
        ensures
            r is Ok <==> old(self).state == RunState::Waiting && old(self).ip < usize::MAX,
            r is Ok ==> final(self)@ == (MachineView {
                ip: old(self).ip + 1,
                frame: match result {
                    Some(v) => old(self).frame@.push(v),
                    None => old(self).frame@,
                },
                state: RunState::Running,
                ..old(self)@
            }),
            r is Err ==> *final(self) == *old(self),
            final(self).program == old(self).program,
            final(self).builtins@ == old(self).builtins@,
    {
        if self.state != RunState::Waiting || self.ip == usize::MAX {
            return Err("the machine is not waiting for an answer".to_owned());
        }
        match result {
            Some(v) => self.frame.push_value_to_stack(v),
            None => {},
        }
        self.ip = self.ip + 1;
        self.state = RunState::Running;
        Ok(())
    }

    fn exec_return(&mut self, has: bool) -> (r: Result<Option<Event>, String>)
        requires
            about_to(*old(self), Instruction::Return(has)),
        ensures
            stepped(*old(self), *final(self), r),
    {
        if has && self.frame.data.len() == 0 {
            return self.fail("return without a value on the stack");
        }
        let result = if has {
            Some(self.frame.pop_value_from_stack())
        } else {
            None
        };
        match self.frame.return_position {
            None => {
                self.state = RunState::Finished;
                Ok(Some(Event::Returned(result)))
            },
            Some(back) => {
                match self.callers.pop() {
                    Some(caller) => {
                        let mut caller = caller;
                        match result {
                            Some(v) => caller.push_value_to_stack(v),
                            None => {},
                        }
                        self.frame = caller;
                        self.ip = back;
                        assert(self@.callers =~= old(self)@.callers.drop_last());
                        Ok(None)
                    },
                    None => self.fail("return from a frame without a caller"),
                }
            },
        }
    }
}

/// The machine's embedder-facing side: the names of the builtins it serves,
/// and the way to start a program.
pub struct VM {
    pub builtins: Vec<String>,
}

impl VM {
    pub fn new() -> (r: VM)
        ensures
            r.builtins@.len() == 0,
    {
        VM { builtins: Vec::new() }
    }

    /// Registers `name` as a builtin: a call of that name is handed to the
    /// embedder, in preference to a function of the program.
    pub fn add_builtin_function(&mut self, name: &str)
        ensures
            final(self).builtins@.len() == old(self).builtins@.len() + 1,
            final(self).builtins@.drop_last() == old(self).builtins@,
            final(self).builtins@.last()@ == name@,
    {
        self.builtins.push(name.to_owned());
        assert(self.builtins@.drop_last() =~= old(self).builtins@);
    }

    /// Starts `program` at its entry function (`main` unless another is
    /// named), with `parameters` in the entry frame's first slots. Fails
    /// when the entry name is not a function of the program.
    pub fn execute(&self, program: Program, parameters: Option<Vec<Value>>, entrypoint: Option<String>) -> (r: Result<Machine, String>)
        ensures
            r is Ok <==> crate::program::lookup(program.globals@, entry_name(entrypoint)) matches Some(
                Value::FunctionPointer(_),
            ),
            r matches Ok(m) ==> {
                &&& m.program == program
                &&& m.builtins@ == self.builtins@
                &&& crate::program::lookup(program.globals@, entry_name(entrypoint)) == Some(
                    Value::FunctionPointer(m.ip),
                )
                &&& m@.frame == FrameView {
                    return_position: None,
                    variables: match parameters {
                        Some(a) => a@,
                        None => Seq::empty(),
                    },
                    data: Seq::empty(),
                }
                &&& m@.callers.len() == 0
                &&& m@.heap.len() == 0
                &&& m.state == RunState::Running
            },
    {
        let entry = match entrypoint {
            Some(e) => e,
            None => "main".to_owned(),
        };
        let ip = match get_entry(&program.globals, &entry) {
            Some(Value::FunctionPointer(p)) => p,
            _ => {
                return Err("No entrypoint found".to_owned());
            },
        };
        let mut builtins: Vec<String> = Vec::new();
        let mut i: usize = 0;
        while i < self.builtins.len()
            invariant
                i <= self.builtins@.len(),
                builtins@ == self.builtins@.subrange(0, i as int),
            decreases self.builtins.len() - i,
        {
            builtins.push(self.builtins[i].clone());
            i = i + 1;
        }
        assert(builtins@ =~= self.builtins@);
        let m = Machine {
            program,
            builtins,
            ip,
            frame: Frame::new(None, parameters),
            callers: Vec::new(),
            heap: Vec::new(),
            state: RunState::Running,
        };
        assert(m@.callers =~= Seq::<FrameView>::empty());
        assert(m@.frame.data =~= Seq::<Value>::empty());
        assert(m@.frame.variables == match parameters {
            Some(a) => a@,
            None => Seq::<Value>::empty(),
        });
        assert(crate::program::lookup(program.globals@, entry_name(entrypoint)) == Some(
            Value::FunctionPointer(m.ip)));
        assert(m@.heap =~= Seq::<CollectionView>::empty());
        Ok(m)
    }
}

} // verus!
