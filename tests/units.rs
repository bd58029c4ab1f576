use orbscript::function::decimal_string;
use orbscript::lexer::{tokenize, LexKind, Symbol};
use orbscript::machine::integer_operation;
use orbscript::{Compiler, Frame, IndexedCounter, Instruction, Operator, RunState, Value, VM};

#[test]
fn counter_steps_and_bounds() {
    let mut c = IndexedCounter::new(1, 3, 7);
    assert!(!c.is_done());
    assert!(c.has_next());
    c.increment();
    assert_eq!(c.index, 4);
    c.increment();
    assert_eq!(c.index, 7);
    assert!(!c.has_next());
    assert!(!c.is_done());
    c.increment();
    assert!(c.is_done());
}

#[test]
fn frame_stack_operations() {
    let mut f = Frame::new(Some(3), None);
    assert_eq!(f.return_position, Some(3));
    f.push_value_to_stack(Value::Integer(1));
    f.push_value_to_stack(Value::Integer(2));
    f.push_value_to_stack(Value::Integer(3));
    assert_eq!(f.get_top_value_on_stack(), Value::Integer(3));
    let (l, r) = f.pop_2_values_from_stack();
    assert_eq!((l, r), (Value::Integer(2), Value::Integer(3)));
    assert_eq!(f.pop_value_from_stack(), Value::Integer(1));
    f.push_value_to_stack(Value::Integer(7));
    f.push_value_to_stack(Value::Integer(8));
    assert_eq!(f.pop_values_from_stack(2), vec![Value::Integer(8), Value::Integer(7)]);
}

#[test]
fn frame_slots_grow_on_write() {
    let mut f = Frame::new(None, Some(vec![Value::Integer(1)]));
    f.push_value_to_variable_slot(3, Value::Bool(true));
    assert_eq!(f.get_variable_or_panic(3), &Value::Bool(true));
    assert_eq!(f.get_variable_or_panic(2), &Value::Bool(true));
    assert_eq!(f.get_variable_or_panic(0), &Value::Integer(1));
    f.push_value_to_variable_slot(0, Value::Null);
    assert_eq!(f.get_variable_or_panic(0), &Value::Null);
}

#[test]
fn frame_moves_and_copies() {
    let mut f = Frame::new(None, None);
    f.push_value_to_stack(Value::Integer(5));
    f.copy_from_stack_to_variable_slot(0);
    assert_eq!(f.get_top_value_on_stack(), Value::Integer(5));
    f.move_from_stack_to_variable_slot(1);
    f.copy_from_variable_slot_to_stack(0);
    assert_eq!(f.pop_value_from_stack(), Value::Integer(5));
    assert_eq!(f.get_variable_or_panic(1), &Value::Integer(5));
}

#[test]
fn integer_operations() {
    assert_eq!(integer_operation(Operator::Add, 2, 3), Some(Value::Integer(5)));
    assert_eq!(integer_operation(Operator::Divide, 7, -2), Some(Value::Integer(-3)));
    assert_eq!(integer_operation(Operator::Divide, 1, 0), None);
    assert_eq!(integer_operation(Operator::Divide, i32::MIN, -1), None);
    assert_eq!(integer_operation(Operator::Pow, 2, 10), Some(Value::Integer(1024)));
    assert_eq!(integer_operation(Operator::Pow, 2, 31), None);
    assert_eq!(integer_operation(Operator::Pow, 3, -1), None);
    assert_eq!(integer_operation(Operator::LessThanOrEqual, 3, 3), Some(Value::Bool(true)));
    assert_eq!(integer_operation(Operator::Multiply, 65536, 65536), None);
}

#[test]
fn decimal_digits() {
    assert_eq!(decimal_string(0), "0");
    assert_eq!(decimal_string(1234), "1234");
}

#[test]
fn compiled_code_of_a_return() {
    let mut c = Compiler::new();
    let p = c.compile("function main() return 1 end").unwrap();
    assert_eq!(p.instructions, vec![Instruction::PushInteger(1), Instruction::Return(true)]);
}

#[test]
fn compiled_code_of_if_else_jumps_within_the_function() {
    let mut c = Compiler::new();
    let p = c.compile("function main() var x = 7 if x < 5 then return 1 else return 2 end end").unwrap();
    let n = p.instructions.len();
    assert!(matches!(p.instructions[n - 1], Instruction::Return(_)));
    for (i, ins) in p.instructions.iter().enumerate() {
        match ins {
            Instruction::JumpIfFalse(d) | Instruction::JumpForward(d) => assert!(i + d < n),
            _ => {}
        }
    }
}

#[test]
fn machine_waits_for_builtin_answer() {
    let mut c = Compiler::new();
    let p = c.compile("function main() return twice(4) end").unwrap();
    let mut vm = VM::new();
    vm.add_builtin_function("twice");
    let mut m = vm.execute(p, None, None).unwrap();
    let e = m.run(100).unwrap();
    assert!(matches!(e, Some(orbscript::Event::Builtin(ref name, ref args)) if name == "twice" && args == &vec![Value::Integer(4)]));
    assert_eq!(m.state, RunState::Waiting);
    assert!(m.step().is_err());
    m.resume(Some(Value::Integer(8))).unwrap();
    let e = m.run(100).unwrap();
    assert!(matches!(e, Some(orbscript::Event::Returned(Some(Value::Integer(8))))));
    assert_eq!(m.state, RunState::Finished);
}

#[test]
fn new_frame_starts_with_empty_stack_and_arguments() {
    let mut c = Compiler::new();
    let p = c.compile("function f(a, b) return a end function main() return f(1, 2) end").unwrap();
    let vm = VM::new();
    let mut m = vm.execute(p, None, None).unwrap();
    // push callee, two arguments, call
    for _ in 0..4 {
        m.step().unwrap();
    }
    assert!(m.frame.data.is_empty());
    assert_eq!(m.frame.variables, vec![Value::Integer(1), Value::Integer(2)]);
    assert_eq!(m.callers.len(), 1);
}

#[test]
fn lexemes_of_a_line() {
    let ls = tokenize("var x = -12 -- note\n\"s\" 1.5").unwrap();
    assert_eq!(ls.len(), 8);
    assert!(matches!(&ls[0].kind, LexKind::Word(w) if w == "var"));
    assert!(matches!(&ls[2].kind, LexKind::Sym(Symbol::Assign)));
    assert!(matches!(&ls[3].kind, LexKind::Sym(Symbol::Minus)));
    assert!(matches!(&ls[4].kind, LexKind::Number(12)));
    assert!(ls[4].glued);
    assert!(matches!(&ls[5].kind, LexKind::Remark(r) if r == " note"));
    assert!(matches!(&ls[6].kind, LexKind::Text(t) if t == "s"));
    assert!(matches!(&ls[7].kind, LexKind::Decimal(d) if d == "1.5"));
    assert!(tokenize("a @ b").is_err());
    assert!(tokenize("99999999999").is_err());
}
