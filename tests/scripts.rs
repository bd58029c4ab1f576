use orbscript::{Compiler, Event, Operator, Value, VM};

fn float_of(v: &Value) -> f32 {
    match v {
        Value::Integer(i) => *i as f32,
        Value::Float(s) => s.parse::<f32>().unwrap(),
        _ => panic!("not a number"),
    }
}

fn arithmetic(op: Operator, l: &Value, r: &Value) -> Value {
    let a = float_of(l);
    let b = float_of(r);
    match op {
        Operator::Add => Value::Float(format!("{}", a + b)),
        Operator::Sub => Value::Float(format!("{}", a - b)),
        Operator::Multiply => Value::Float(format!("{}", a * b)),
        Operator::Divide => Value::Float(format!("{}", a / b)),
        Operator::Pow => Value::Float(format!("{}", a.powf(b))),
        Operator::Equal => Value::Bool(a == b),
        Operator::NotEqual => Value::Bool(a != b),
        Operator::LessThan => Value::Bool(a < b),
        Operator::LessThanOrEqual => Value::Bool(a <= b),
        Operator::GreaterThan => Value::Bool(a > b),
        Operator::GreaterThanOrEqual => Value::Bool(a >= b),
    }
}

fn run(source: &str, args: Option<Vec<Value>>, entry: Option<String>) -> Result<Option<Value>, String> {
    let mut printed = Vec::new();
    run_printing(source, args, entry, &mut printed)
}

fn run_printing(
    source: &str,
    args: Option<Vec<Value>>,
    entry: Option<String>,
    printed: &mut Vec<String>,
) -> Result<Option<Value>, String> {
    let mut compiler = Compiler::new();
    let program = compiler.compile(source)?;
    let mut vm = VM::new();
    vm.add_builtin_function("print");
    vm.add_builtin_function("assertTrue");
    vm.add_builtin_function("assertEquals");
    let mut machine = vm.execute(program, args, entry)?;
    loop {
        match machine.run(1_000_000)? {
            None => {}
            Some(Event::Returned(v)) => return Ok(v),
            Some(Event::Builtin(name, mut values)) => {
                if name == "print" {
                    printed.push(format!("{:?}", values.first()));
                } else if name == "assertTrue" {
                    let _msg = values.pop();
                    assert_eq!(values.pop(), Some(Value::Bool(true)));
                } else if name == "assertEquals" {
                    let _msg = values.pop();
                    let b = values.pop();
                    let a = values.pop();
                    assert_eq!(a, b);
                }
                machine.resume(None)?;
            }
            Some(Event::Arithmetic(op, l, r)) => {
                let v = arithmetic(op, &l, &r);
                machine.resume(Some(v))?;
            }
        }
    }
}

#[test]
fn arithmetic_round_trip() {
    let r = run("function main() var a = 2 + 3 * 4 return a end", None, None);
    assert_eq!(r, Ok(Some(Value::Integer(14))));
}

#[test]
fn integer_counted_loop() {
    let r = run("function main() var s = 0 for i = 1 to 5 do s = s + i end return s end", None, None);
    assert_eq!(r, Ok(Some(Value::Integer(15))));
}

#[test]
fn array_iteration() {
    let r = run("function main() var s = 0 for x in [10, 20, 30] do s = s + x end return s end", None, None);
    assert_eq!(r, Ok(Some(Value::Integer(60))));
}

#[test]
fn dictionary_round_trip() {
    let r = run(
        "function main() var d = {\"a\": 1, \"b\": 2} d[\"c\"] = 3 return d[\"a\"] + d[\"b\"] + d[\"c\"] end",
        None,
        None,
    );
    assert_eq!(r, Ok(Some(Value::Integer(6))));
}

#[test]
fn recursive_function() {
    let r = run(
        "function fib(n) if n < 2 then return n end return fib(n-1) + fib(n-2) end function main() return fib(10) end",
        None,
        None,
    );
    assert_eq!(r, Ok(Some(Value::Integer(55))));
}

#[test]
fn if_else_branching() {
    let r = run("function main() var x = 7 if x < 5 then return 1 else return 2 end end", None, None);
    assert_eq!(r, Ok(Some(Value::Integer(2))));
}

#[test]
fn lambda_via_local() {
    let r = run("function main() var f = function(x) return x * x end return f(6) end", None, None);
    assert_eq!(r, Ok(Some(Value::Integer(36))));
}

#[test]
fn counted_loop_with_step_runs_formula_rounds() {
    // (10 - 1) / 3 + 1 = 4 rounds: 1, 4, 7, 10
    let r = run("function main() var n = 0 var s = 0 for i = 1 to 10 step 3 do n = n + 1 s = s + i end return n * 100 + s end", None, None);
    assert_eq!(r, Ok(Some(Value::Integer(422))));
}

#[test]
fn counted_loop_with_end_below_start_runs_no_round() {
    let r = run("function main() var n = 0 for i = 5 to 4 do n = n + 1 end return n end", None, None);
    assert_eq!(r, Ok(Some(Value::Integer(0))));
}

#[test]
fn array_loop_visits_items_in_order() {
    let r = run("function main() var s = 0 for x in [1, 2, 3] do s = s * 10 + x end return s end", None, None);
    assert_eq!(r, Ok(Some(Value::Integer(123))));
}

#[test]
fn empty_array_loop_runs_no_round() {
    let r = run("function main() var n = 0 for x in [] do n = n + 1 end return n end", None, None);
    assert_eq!(r, Ok(Some(Value::Integer(0))));
}

#[test]
fn dictionary_loop_visits_every_key() {
    let r = run(
        "function main() var d = {\"a\": 1, \"b\": 20} var s = 0 for k in d do s = s + d[k] end return s end",
        None,
        None,
    );
    assert_eq!(r, Ok(Some(Value::Integer(21))));
}

#[test]
fn array_assignment_aliases() {
    let r = run("function main() var a = [1, 2] var b = a b[0] = 9 return a[0] end", None, None);
    assert_eq!(r, Ok(Some(Value::Integer(9))));
}

#[test]
fn dictionary_assignment_aliases() {
    let r = run("function main() var a = {\"k\": 1} var b = a b[\"k\"] = 5 return a[\"k\"] end", None, None);
    assert_eq!(r, Ok(Some(Value::Integer(5))));
}

#[test]
fn while_loop_counts_down() {
    let r = run("function main() var n = 5 var s = 0 while n > 0 do s = s + n n = n - 1 end return s end", None, None);
    assert_eq!(r, Ok(Some(Value::Integer(15))));
}

#[test]
fn if_without_else_falls_through() {
    let r = run("function main() var x = 1 if x > 5 then x = 100 end return x end", None, None);
    assert_eq!(r, Ok(Some(Value::Integer(1))));
}

#[test]
fn exponent_binds_tighter_than_product() {
    let r = run("function main() return 2 * 3 ^ 2 end", None, None);
    assert_eq!(r, Ok(Some(Value::Integer(18))));
}

#[test]
fn negative_literal_and_subtraction() {
    assert_eq!(run("function main() return -5 + 3 end", None, None), Ok(Some(Value::Integer(-2))));
    assert_eq!(run("function main() return 10 - 3 end", None, None), Ok(Some(Value::Integer(7))));
}

#[test]
fn division_rounds_toward_zero() {
    assert_eq!(run("function main() return -7 / 2 end", None, None), Ok(Some(Value::Integer(-3))));
}

#[test]
fn division_by_zero_fails() {
    assert!(run("function main() return 1 / 0 end", None, None).is_err());
}

#[test]
fn integer_overflow_fails() {
    assert!(run("function main() return 2147483647 + 1 end", None, None).is_err());
}

#[test]
fn float_arithmetic_goes_to_embedder() {
    let r = run("function main() return 1.5 + 2 end", None, None);
    assert_eq!(r, Ok(Some(Value::Float(String::from("3.5")))));
}

#[test]
fn string_equality_is_by_text() {
    let r = run("function main() return \"ab\" == \"ab\" end", None, None);
    assert_eq!(r, Ok(Some(Value::Bool(true))));
}

#[test]
fn arrays_compare_by_identity() {
    let r = run("function main() var a = [1] var b = [1] var c = a if a == b then return 1 end if a == c then return 2 end return 3 end", None, None);
    assert_eq!(r, Ok(Some(Value::Integer(2))));
}

#[test]
fn constants_are_globals() {
    let r = run("const LIMIT = 40\nfunction main() return LIMIT + 2 end", None, None);
    assert_eq!(r, Ok(Some(Value::Integer(42))));
}

#[test]
fn object_with_constructor_and_method() {
    let src = "class Counter var n function get() return self[\"n\"] end end function Counter:Counter(v) self[\"n\"] = v end function main() var c = new Counter(5) return c.get() end";
    assert_eq!(run(src, None, None), Ok(Some(Value::Integer(5))));
}

#[test]
fn builtins_are_called_and_execution_goes_on() {
    let mut printed = Vec::new();
    let r = run_printing(
        "function main() print(\"hello\") assertTrue(1 < 2, \"ordered\") assertEquals(3, 1 + 2, \"sum\") return 1 end",
        None,
        None,
        &mut printed,
    );
    assert_eq!(r, Ok(Some(Value::Integer(1))));
    assert_eq!(printed.len(), 1);
}

#[test]
fn entry_point_and_arguments() {
    let r = run("function twice(x) return x * 2 end", Some(vec![Value::Integer(21)]), Some(String::from("twice")));
    assert_eq!(r, Ok(Some(Value::Integer(42))));
}

#[test]
fn missing_entry_point_fails() {
    assert!(run("function other() return 1 end", None, None).is_err());
}

#[test]
fn unknown_function_fails_at_runtime() {
    assert!(run("function main() return nothing(1) end", None, None).is_err());
}

#[test]
fn root_frame_without_value_returns_none() {
    assert_eq!(run("function main() var x = 1 end", None, None), Ok(None));
}

#[test]
fn lambdas_of_two_functions_do_not_collide() {
    let src = "function other() var g = function(x) return x + 1 end return g(1) end function main() var f = function(x) return x * 10 end return f(2) + other() end";
    assert_eq!(run(src, None, None), Ok(Some(Value::Integer(22))));
}

#[test]
fn duplicate_variable_is_a_compile_error() {
    let mut c = Compiler::new();
    assert!(c.compile("function main() var x = 1 var x = 2 end").is_err());
}

#[test]
fn assignment_to_undeclared_variable_is_a_compile_error() {
    let mut c = Compiler::new();
    assert!(c.compile("function main() y = 2 end").is_err());
}

#[test]
fn malformed_source_is_a_parse_error() {
    let mut c = Compiler::new();
    assert!(c.compile("function main( return 1 end").is_err());
    assert!(c.compile("function main() return \"open end").is_err());
}

#[test]
fn comments_are_accepted() {
    let r = run("-- a comment\nfunction main()\n-- inside\nreturn 3 end", None, None);
    assert_eq!(r, Ok(Some(Value::Integer(3))));
}

#[test]
fn operators_associate_to_the_left() {
    assert_eq!(run("function main() return 10 - 3 - 2 end", None, None), Ok(Some(Value::Integer(5))));
    assert_eq!(run("function main() return 2 ^ 3 ^ 2 end", None, None), Ok(Some(Value::Integer(64))));
}

#[test]
fn counted_loop_with_step_not_positive_fails() {
    assert!(run("function main() var n = 0 for i = 1 to 5 step 0 do n = n + 1 end return n end", None, None).is_err());
    assert!(run("function main() var n = 0 for i = 5 to 1 step -1 do n = n + 1 end return n end", None, None).is_err());
}
