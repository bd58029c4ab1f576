use vstd::prelude::*;

use crate::instructions::Instruction;
use crate::lowering::{
    after, c_expr, c_exprs, c_function, c_loop, c_pairs, c_stmt, c_stmts, code_view, decimal,
    declare, declare_all, digit, emit, instruction_view, jump_target, lambda_name,
    needs_return, param_names, texts, position, CState, InstructionView,
};
use crate::naming::{
    lemma_expr_names, lemma_next_lambda_name_is_fresh, lemma_statement_names, lemma_statements_names,
    well_named,
};
use crate::token::{text, Token};

verus! {

/// The compiler's state inside one function body.
pub struct Function {
    pub instructions: Vec<Instruction>,
    pub variables: Vec<String>,
    pub anon_functions: Vec<(String, Vec<Instruction>)>,
    pub owner: String,
    pub lambda_count: usize,
}

pub open spec fn lambdas_view(ls: Seq<(String, Vec<Instruction>)>) -> Seq<(Seq<char>, Seq<InstructionView>)> {
    ls.map_values(|p: (String, Vec<Instruction>)| (p.0@, code_view(p.1@)))
}

proof fn lemma_position_first(vars: Seq<Seq<char>>, name: Seq<char>, i: int)
    requires
        0 <= i <= vars.len(),
        forall|j: int| 0 <= j < i ==> vars[j] != name,
        i < vars.len() ==> vars[i] == name,
    ensures
        i < vars.len() ==> position(vars, name) == Some(i as nat),
        i == vars.len() ==> position(vars, name) is None,
    decreases i,
{
    if i > 0 {
        lemma_position_first(vars.drop_first(), name, i - 1);
    }
}

proof fn lemma_function_needs_parameters(owner: Seq<char>, names: Seq<Seq<char>>, body: Seq<Token>)
    ensures
        declare_all(
            CState {
                code: Seq::empty(),
                vars: Seq::empty(),
                lambdas: Seq::empty(),
                owner,
                count: 0,
            },
            names,
        ) is None ==> c_function(owner, names, body) is None,
{
}

fn digit_text(d: usize) -> (r: &'static str)
    requires
        d < 10,
    ensures
        r@ == seq![digit(d as nat)],
{
    proof {
        reveal_strlit("0");
        reveal_strlit("1");
        reveal_strlit("2");
        reveal_strlit("3");
        reveal_strlit("4");
        reveal_strlit("5");
        reveal_strlit("6");
        reveal_strlit("7");
        reveal_strlit("8");
        reveal_strlit("9");
    }
    if d == 0 { "0" } else if d == 1 { "1" } else if d == 2 { "2" } else if d == 3 { "3" }
    else if d == 4 { "4" } else if d == 5 { "5" } else if d == 6 { "6" } else if d == 7 { "7" }
    else if d == 8 { "8" } else { "9" }
}

/// The decimal digits of `n`.
pub fn decimal_string(n: usize) -> (r: String)
    ensures
        r@ == decimal(n as nat),
    decreases n,
{
    if n < 10 {
        digit_text(n).to_owned()
    } else {
        let mut s = decimal_string(n / 10);
        s.append(digit_text(n % 10));
        s
    }
}

impl Function {
    pub open spec fn state(&self) -> CState {
        CState {
            code: code_view(self.instructions@),
            vars: texts(self.variables@),
            lambdas: lambdas_view(self.anon_functions@),
            owner: self.owner@,
            count: self.lambda_count as nat,
        }
    }

    fn emit(&mut self, i: Instruction)
        ensures
            final(self).state() == emit(old(self).state(), instruction_view(i)),
            final(self).instructions@.len() == old(self).instructions@.len() + 1,
    {
        self.instructions.push(i);
        assert(self.state().code =~= old(self).state().code.push(instruction_view(i)));
    }

    fn patch(&mut self, at: usize, i: Instruction)
        requires
            at < old(self).instructions@.len(),
        ensures
            final(self).state() == (CState {
                code: old(self).state().code.update(at as int, instruction_view(i)),
                ..old(self).state()
            }),
            final(self).instructions@.len() == old(self).instructions@.len(),
    {
        self.instructions.set(at, i);
        assert(self.state().code =~= old(self).state().code.update(at as int, instruction_view(i)));
    }

    fn get_variable(&self, name: &String) -> (r: Option<usize>)
        ensures
            r matches Some(i) ==> position(self.state().vars, name@) == Some(i as nat),
            r is None ==> position(self.state().vars, name@) is None,
    {
        let ghost vars = self.state().vars;
        let mut i: usize = 0;
        while i < self.variables.len()
            invariant
                i <= self.variables@.len(),
                vars == self.state().vars,
                forall|j: int| 0 <= j < i ==> vars[j] != name@,
            decreases self.variables.len() - i,
        {
            if self.variables[i] == *name {
                proof {
                    lemma_position_first(vars, name@, i as int);
                }
                return Some(i);
            }
            i = i + 1;
        }
        proof {
            lemma_position_first(vars, name@, i as int);
        }
        None
    }

    /// Lowers an expression: its code pushes the expression's value.
    #[verifier::rlimit(50)]
    pub fn compile_expression(&mut self, t: &Token) -> (r: Result<(), String>)
        ensures
            match r {
                Ok(()) => c_expr(old(self).state(), *t) == Some(final(self).state()),
                Err(_) => c_expr(old(self).state(), *t) is None,
            },
            r is Ok ==> old(self).instructions@.len() < final(self).instructions@.len(),
            r is Ok && well_named(old(self).state()) ==> well_named(final(self).state()),
            well_named(old(self).state()) ==> forall|i: int| 0 <= i < old(self).anon_functions@.len()
                ==> #[trigger] old(self).anon_functions@[i].0@ != lambda_name(old(self).owner@, old(self).lambda_count as nat),
        decreases *t, 1nat,
    {
        proof {
            if well_named(self.state()) {
                lemma_expr_names(self.state(), *t);
                lemma_next_lambda_name_is_fresh(self.state());
                assert forall|i: int| 0 <= i < self.anon_functions@.len() implies #[trigger] self.anon_functions@[i].0@
                    != lambda_name(self.owner@, self.lambda_count as nat) by {
                    assert(self.state().lambdas[i].0 == self.anon_functions@[i].0@);
                }
            }
        }
        match t {
            Token::Null => {
                self.emit(Instruction::PushNull);
                Ok(())
            },
            Token::Integer(v) => {
                self.emit(Instruction::PushInteger(*v));
                Ok(())
            },
            Token::Float(v) => {
                self.emit(Instruction::PushFloat(v.clone()));
                Ok(())
            },
            Token::Bool(v) => {
                self.emit(Instruction::PushBool(*v));
                Ok(())
            },
            Token::String(v) => {
                self.emit(Instruction::PushString(v.clone()));
                Ok(())
            },
            Token::Identifier(n) => {
                match self.get_variable(n) {
                    Some(slot) => self.emit(Instruction::LoadLocalVariable(slot)),
                    None => self.emit(Instruction::LoadGlobal(n.clone())),
                }
                Ok(())
            },
            Token::Array(es) => {
                if let Err(e) = self.compile_expressions(es) {
                    return Err(e);
                }
                self.emit(Instruction::CreateCollectionAsArray(es.len()));
                Ok(())
            },
            Token::Dictionary(ps) => {
                if let Err(e) = self.compile_pairs(ps) {
                    return Err(e);
                }
                self.emit(Instruction::CreateCollectionAsDictionary(ps.len()));
                Ok(())
            },
            Token::AnonFunction(params, body) => {
                if self.lambda_count == usize::MAX {
                    return Err("too many anonymous functions".to_owned());
                }
                let mut name = self.owner.clone();
                name.append(".lambda_");
                let number = decimal_string(self.lambda_count);
                name.append(number.as_str());
                assert(name@ == lambda_name(self.owner@, self.lambda_count as nat));
                let names = parameter_names(params);
                match Function::new(name.clone(), names, body) {
                    Ok(f) => {
                        let ghost before = self.state();
                        let ghost nested = lambdas_view(f.anon_functions@);
                        let mut rest = f.anon_functions;
                        self.anon_functions.push((name.clone(), f.instructions));
                        self.anon_functions.append(&mut rest);
                        self.lambda_count = self.lambda_count + 1;
                        assert(self.state().lambdas =~= before.lambdas.push(
                            (name@, code_view(f.instructions@)),
                        ) + nested);
                        self.emit(Instruction::PushFunctionRef(name));
                        Ok(())
                    },
                    Err(e) => Err(e),
                }
            },
            Token::CollectionIndex(target, index) => {
                match &**target {
                    Token::Identifier(n) => match self.get_variable(n) {
                        Some(slot) => {
                            self.emit(Instruction::LoadLocalVariable(slot));
                            if let Err(e) = self.compile_expression(index) {
                                return Err(e);
                            }
                            self.emit(Instruction::GetCollectionItem);
                            Ok(())
                        },
                        None => Err("indexed variable is not declared".to_owned()),
                    },
                    _ => Err("only a variable can be indexed".to_owned()),
                }
            },
            Token::Call(name, args) => {
                let f = name.to_string();
                match self.get_variable(&f) {
                    Some(slot) => self.emit(Instruction::LoadLocalVariable(slot)),
                    None => self.emit(Instruction::PushFunctionRef(f)),
                }
                if let Err(e) = self.compile_expressions(args) {
                    return Err(e);
                }
                self.emit(Instruction::Call(args.len()));
                Ok(())
            },
            Token::DotChain(head, chain) => {
                if chain.len() != 1 {
                    return Err("only a single method call can follow a dot".to_owned());
                }
                match &chain[0] {
                    Token::Call(method, args) => {
                        if args.len() == usize::MAX {
                            return Err("too many arguments".to_owned());
                        }
                        if let Err(e) = self.compile_expression(head) {
                            return Err(e);
                        }
                        self.emit(Instruction::LoadMethod(method.to_string()));
                        if let Err(e) = self.compile_expressions(args) {
                            return Err(e);
                        }
                        self.emit(Instruction::Call(args.len() + 1));
                        Ok(())
                    },
                    _ => Err("only a method call can follow a dot".to_owned()),
                }
            },
            Token::NewObject(class, args) => {
                if let Err(e) = self.compile_expressions(args) {
                    return Err(e);
                }
                self.emit(Instruction::CreateObject(class.clone(), args.len()));
                Ok(())
            },
            Token::Eq(a, b) => self.compile_binary(t, a, b, Instruction::Equal),
            Token::Ne(a, b) => self.compile_binary(t, a, b, Instruction::NotEqual),
            Token::Lt(a, b) => self.compile_binary(t, a, b, Instruction::LessThan),
            Token::Le(a, b) => self.compile_binary(t, a, b, Instruction::LessThanOrEqual),
            Token::Gt(a, b) => self.compile_binary(t, a, b, Instruction::GreaterThan),
            Token::Ge(a, b) => self.compile_binary(t, a, b, Instruction::GreaterThanOrEqual),
            Token::Add(a, b) => self.compile_binary(t, a, b, Instruction::Add),
            Token::Sub(a, b) => self.compile_binary(t, a, b, Instruction::Sub),
            Token::Mul(a, b) => self.compile_binary(t, a, b, Instruction::Multiply),
            Token::Div(a, b) => self.compile_binary(t, a, b, Instruction::Divide),
            Token::Pow(a, b) => self.compile_binary(t, a, b, Instruction::Pow),
            _ => Err("not an expression".to_owned()),
        }
    }

    /// Lowers a binary operation `t` on `a` and `b`: both operands, then `op`.
    fn compile_binary(&mut self, t: &Token, a: &Token, b: &Token, op: Instruction) -> (r: Result<(), String>)
        requires
            (*t == Token::Eq(Box::new(*a), Box::new(*b)) && op == Instruction::Equal)
            || (*t == Token::Ne(Box::new(*a), Box::new(*b)) && op == Instruction::NotEqual)
            || (*t == Token::Lt(Box::new(*a), Box::new(*b)) && op == Instruction::LessThan)
            || (*t == Token::Le(Box::new(*a), Box::new(*b)) && op == Instruction::LessThanOrEqual)
            || (*t == Token::Gt(Box::new(*a), Box::new(*b)) && op == Instruction::GreaterThan)
            || (*t == Token::Ge(Box::new(*a), Box::new(*b)) && op == Instruction::GreaterThanOrEqual)
            || (*t == Token::Add(Box::new(*a), Box::new(*b)) && op == Instruction::Add)
            || (*t == Token::Sub(Box::new(*a), Box::new(*b)) && op == Instruction::Sub)
            || (*t == Token::Mul(Box::new(*a), Box::new(*b)) && op == Instruction::Multiply)
            || (*t == Token::Div(Box::new(*a), Box::new(*b)) && op == Instruction::Divide)
            || (*t == Token::Pow(Box::new(*a), Box::new(*b)) && op == Instruction::Pow),
        ensures
            match r {
                Ok(()) => c_expr(old(self).state(), *t) == Some(final(self).state()),
                Err(_) => c_expr(old(self).state(), *t) is None,
            },
            r is Ok ==> old(self).instructions@.len() < final(self).instructions@.len(),
        decreases *t, 0nat,
    {
        if let Err(e) = self.compile_expression(a) {
            return Err(e);
        }
        if let Err(e) = self.compile_expression(b) {
            return Err(e);
        }
        self.emit(op);
        Ok(())
    }

    /// Lowers expressions one after the other.
    fn compile_expressions(&mut self, es: &Vec<Token>) -> (r: Result<(), String>)
        ensures
            match r {
                Ok(()) => c_exprs(old(self).state(), es@) == Some(final(self).state()),
                Err(_) => c_exprs(old(self).state(), es@) is None,
            },
            r is Ok ==> old(self).instructions@.len() <= final(self).instructions@.len(),
        decreases es@, 1nat,
    {
        let mut i: usize = 0;
        assert(es@.subrange(0, es@.len() as int) =~= es@);
        while i < es.len()
            invariant
                i <= es@.len(),
                c_exprs(old(self).state(), es@) == c_exprs(
                    self.state(),
                    es@.subrange(i as int, es@.len() as int),
                ),
                old(self).instructions@.len() <= self.instructions@.len(),
            decreases es.len() - i,
        {
            let ghost sub = es@.subrange(i as int, es@.len() as int);
            assert(sub[0] == es@[i as int]);
            assert(sub.drop_first() =~= es@.subrange(i + 1, es@.len() as int));
            if let Err(e) = self.compile_expression(&es[i]) {
                return Err(e);
            }
            i = i + 1;
        }
        Ok(())
    }

    /// Lowers the entries of a dictionary literal.
    fn compile_pairs(&mut self, ps: &Vec<Token>) -> (r: Result<(), String>)
        ensures
            match r {
                Ok(()) => c_pairs(old(self).state(), ps@) == Some(final(self).state()),
                Err(_) => c_pairs(old(self).state(), ps@) is None,
            },
            r is Ok ==> old(self).instructions@.len() <= final(self).instructions@.len(),
        decreases ps@, 1nat,
    {
        let mut i: usize = 0;
        assert(ps@.subrange(0, ps@.len() as int) =~= ps@);
        while i < ps.len()
            invariant
                i <= ps@.len(),
                c_pairs(old(self).state(), ps@) == c_pairs(
                    self.state(),
                    ps@.subrange(i as int, ps@.len() as int),
                ),
                old(self).instructions@.len() <= self.instructions@.len(),
            decreases ps.len() - i,
        {
            let ghost sub = ps@.subrange(i as int, ps@.len() as int);
            assert(sub[0] == ps@[i as int]);
            assert(sub.drop_first() =~= ps@.subrange(i + 1, ps@.len() as int));
            match &ps[i] {
                Token::KeyValuePair(k, v) => {
                    self.emit(Instruction::PushString(k.clone()));
                    if let Err(e) = self.compile_expression(v) {
                        return Err(e);
                    }
                },
                _ => {
                    return Err("dictionary entry is not a key and a value".to_owned());
                },
            }
            i = i + 1;
        }
        Ok(())
    }

    /// Lowers a statement.
    pub fn compile_statement(&mut self, t: &Token) -> (r: Result<(), String>)
        ensures
            match r {
                Ok(()) => c_stmt(old(self).state(), *t) == Some(final(self).state()),
                Err(_) => c_stmt(old(self).state(), *t) is None,
            },
            r is Ok ==> old(self).instructions@.len() <= final(self).instructions@.len(),
            r is Ok && well_named(old(self).state()) ==> well_named(final(self).state()),
        decreases *t, 2nat,
    {
        proof {
            if well_named(self.state()) {
                lemma_statement_names(self.state(), *t);
            }
        }
        match t {
            Token::Variable(name, e) => {
                match self.add_variable(name.to_string()) {
                    Some(slot) => {
                        if let Err(err) = self.compile_expression(e) {
                            return Err(err);
                        }
                        self.emit(Instruction::MoveToLocalVariable(slot));
                        Ok(())
                    },
                    None => Err("variable already declared".to_owned()),
                }
            },
            Token::Assign(left, right) => self.compile_assignment(t, left, right),
            Token::Call(_, _) => self.compile_expression(t),
            Token::DotChain(_, _) => self.compile_expression(t),
            Token::Return(e) => {
                if let Err(err) = self.compile_expression(e) {
                    return Err(err);
                }
                self.emit(Instruction::Return(true));
                Ok(())
            },
            Token::WhileLoop(cond, body) => {
                let start = self.instructions.len();
                if let Err(err) = self.compile_expression(cond) {
                    return Err(err);
                }
                let p = self.instructions.len();
                self.emit(Instruction::Halt("jump not yet placed".to_owned()));
                if let Err(err) = self.compile_statements(body) {
                    return Err(err);
                }
                let back = self.instructions.len() - start;
                self.emit(Instruction::JumpBackward(back));
                let forward = self.instructions.len() - p;
                self.patch(p, Instruction::JumpIfFalse(forward));
                Ok(())
            },
            Token::ForI(var, start, step, end, body) => {
                match self.add_variable(var.to_string()) {
                    Some(slot) => {
                        if let Err(err) = self.compile_expression(end) {
                            return Err(err);
                        }
                        if let Err(err) = self.compile_expression(step) {
                            return Err(err);
                        }
                        if let Err(err) = self.compile_expression(start) {
                            return Err(err);
                        }
                        self.compile_loop(slot, body)
                    },
                    None => Err("loop variable already declared".to_owned()),
                }
            },
            Token::ForEach(var, collection, body) => {
                match self.add_variable(var.to_string()) {
                    Some(slot) => {
                        if let Err(err) = self.compile_expression(collection) {
                            return Err(err);
                        }
                        self.emit(Instruction::PushInteger(1));
                        self.emit(Instruction::PushInteger(0));
                        self.compile_loop(slot, body)
                    },
                    None => Err("loop variable already declared".to_owned()),
                }
            },
            Token::IfElse(cond, then_body, else_body) => {
                if let Err(err) = self.compile_expression(cond) {
                    return Err(err);
                }
                let at_else = self.instructions.len();
                self.emit(Instruction::Halt("jump not yet placed".to_owned()));
                if let Err(err) = self.compile_statements(then_body) {
                    return Err(err);
                }
                let at_end = self.instructions.len();
                self.emit(Instruction::Halt("jump not yet placed".to_owned()));
                let else_start = self.instructions.len();
                match else_body {
                    Some(e) => {
                        if let Err(err) = self.compile_statements(e) {
                            return Err(err);
                        }
                    },
                    None => {},
                }
                self.patch(at_else, Instruction::JumpIfFalse(else_start - at_else));
                let forward = self.instructions.len() - at_end;
                self.patch(at_end, Instruction::JumpForward(forward));
                Ok(())
            },
            Token::Comment(_) => Ok(()),
            _ => Err("not a statement".to_owned()),
        }
    }

    /// Lowers an assignment `t`, whose target is `left` and value `right`.
    fn compile_assignment(&mut self, t: &Token, left: &Token, right: &Token) -> (r: Result<(), String>)
        requires
            *t == Token::Assign(Box::new(*left), Box::new(*right)),
        ensures
            match r {
                Ok(()) => c_stmt(old(self).state(), *t) == Some(final(self).state()),
                Err(_) => c_stmt(old(self).state(), *t) is None,
            },
            r is Ok ==> old(self).instructions@.len() <= final(self).instructions@.len(),
        decreases *t, 1nat,
    {
        match left {
            Token::Identifier(n) => match self.get_variable(n) {
                Some(slot) => {
                    if let Err(err) = self.compile_expression(right) {
                        return Err(err);
                    }
                    self.emit(Instruction::MoveToLocalVariable(slot));
                    Ok(())
                },
                None => Err("assignment to an undeclared variable".to_owned()),
            },
            Token::CollectionIndex(target, index) => match &**target {
                Token::Identifier(n) => match self.get_variable(n) {
                    Some(slot) => {
                        self.emit(Instruction::LoadLocalVariable(slot));
                        if let Err(err) = self.compile_expression(right) {
                            return Err(err);
                        }
                        if let Err(err) = self.compile_expression(index) {
                            return Err(err);
                        }
                        self.emit(Instruction::SetCollectionItem);
                        self.emit(Instruction::MoveToLocalVariable(slot));
                        Ok(())
                    },
                    None => Err("assignment to an undeclared variable".to_owned()),
                },
                _ => Err("only a variable can be indexed".to_owned()),
            },
            _ => Err("assignment to something that is neither a variable nor an item".to_owned()),
        }
    }

    /// Lowers statements one after the other.
    fn compile_statements(&mut self, ts: &Vec<Token>) -> (r: Result<(), String>)
        ensures
            match r {
                Ok(()) => c_stmts(old(self).state(), ts@) == Some(final(self).state()),
                Err(_) => c_stmts(old(self).state(), ts@) is None,
            },
            r is Ok ==> old(self).instructions@.len() <= final(self).instructions@.len(),
        decreases ts@, 2nat,
    {
        let mut i: usize = 0;
        assert(ts@.subrange(0, ts@.len() as int) =~= ts@);
        while i < ts.len()
            invariant
                i <= ts@.len(),
                c_stmts(old(self).state(), ts@) == c_stmts(
                    self.state(),
                    ts@.subrange(i as int, ts@.len() as int),
                ),
                old(self).instructions@.len() <= self.instructions@.len(),
            decreases ts.len() - i,
        {
            let ghost sub = ts@.subrange(i as int, ts@.len() as int);
            assert(sub[0] == ts@[i as int]);
            assert(sub.drop_first() =~= ts@.subrange(i + 1, ts@.len() as int));
            if let Err(e) = self.compile_statement(&ts[i]) {
                return Err(e);
            }
            i = i + 1;
        }
        Ok(())
    }

    /// Lowers the iteration that follows the pushes of bound, step and start.
    fn compile_loop(&mut self, slot: usize, body: &Vec<Token>) -> (r: Result<(), String>)
        ensures
            match r {
                Ok(()) => c_loop(old(self).state(), slot as nat, body@) == Some(final(self).state()),
                Err(_) => c_loop(old(self).state(), slot as nat, body@) is None,
            },
            r is Ok ==> old(self).instructions@.len() <= final(self).instructions@.len(),
        decreases body@, 3nat,
    {
        self.emit(Instruction::IteratorStart);
        let p = self.instructions.len();
        self.emit(Instruction::Halt("jump not yet placed".to_owned()));
        if let Err(err) = self.compile_statements(body) {
            return Err(err);
        }
        let back = self.instructions.len() - p;
        self.emit(Instruction::JumpBackward(back));
        let forward = self.instructions.len() - p;
        self.patch(p, Instruction::IteratorNext(slot, forward));
        Ok(())
    }

    /// Whether the code needs a closing return (see `needs_return`).
    fn needs_closing_return(&self) -> (r: bool)
        ensures
            r == needs_return(self.state().code),
    {
        let ghost code = self.state().code;
        let n = self.instructions.len();
        if n == 0 {
            return true;
        }
        assert(code.last() == instruction_view(self.instructions@[n - 1]));
        match &self.instructions[n - 1] {
            Instruction::Return(_) => {},
            _ => {
                return true;
            },
        }
        let mut i: usize = 0;
        while i < n
            invariant
                i <= n,
                n == code.len(),
                code == self.state().code,
                forall|j: int| 0 <= j < i ==> jump_target(code, j) != Some(n as int),
            decreases n - i,
        {
            assert(code[i as int] == instruction_view(self.instructions@[i as int]));
            let lands_at_end = match &self.instructions[i] {
                Instruction::JumpForward(d) => *d == n - i,
                Instruction::JumpIfFalse(d) => *d == n - i,
                Instruction::IteratorNext(_, d) => *d == n - i,
                _ => false,
            };
            if lands_at_end {
                assert(jump_target(code, i as int) == Some(n as int));
                return true;
            }
            i = i + 1;
        }
        false
    }

    /// Compiles the function `owner` with the given parameter names: its
    /// parameters take the first slots, its body is lowered, and a return
    /// closes it where the body needs one.
    pub fn new(owner: String, parameters: Vec<String>, body: &Vec<Token>) -> (r: Result<Function, String>)
        ensures
            match r {
                Ok(f) => c_function(owner@, texts(parameters@), body@) == Some(
                    (code_view(f.instructions@), lambdas_view(f.anon_functions@)),
                ),
                Err(_) => c_function(owner@, texts(parameters@), body@) is None,
            },
            r matches Ok(f) ==> well_named(f.state()) && f.owner@ == owner@,
        decreases body@, 4nat,
    {
        let ghost names = texts(parameters@);
        let ghost st0 = CState {
            code: Seq::empty(),
            vars: Seq::empty(),
            lambdas: Seq::empty(),
            owner: owner@,
            count: 0,
        };
        let mut f = Function {
            instructions: Vec::new(),
            variables: Vec::new(),
            anon_functions: Vec::new(),
            owner: owner.clone(),
            lambda_count: 0,
        };
        let ghost start = f.state();
        assert(start.code =~= Seq::<InstructionView>::empty());
        assert(start.vars =~= Seq::<Seq<char>>::empty());
        assert(start.lambdas =~= Seq::<(Seq<char>, Seq<InstructionView>)>::empty());
        assert(start == st0);
        let mut i: usize = 0;
        assert(names.subrange(0, names.len() as int) =~= names);
        while i < parameters.len()
            invariant
                i <= parameters@.len(),
                names == texts(parameters@),
                st0 == (CState {
                    code: Seq::empty(),
                    vars: Seq::empty(),
                    lambdas: Seq::empty(),
                    owner: owner@,
                    count: 0,
                }),
                declare_all(st0, names) == declare_all(f.state(), names.subrange(i as int, names.len() as int)),
                f.state().lambdas.len() == 0,
                f.state().owner == owner@,
            decreases parameters.len() - i,
        {
            let ghost sub = names.subrange(i as int, names.len() as int);
            assert(sub[0] == parameters@[i as int]@);
            assert(sub.drop_first() =~= names.subrange(i + 1, names.len() as int));
            let ghost before = f.state();
            let name = parameters[i].clone();
            assert(name@ == sub[0]);
            match f.add_variable(name) {
                Some(_) => {},
                None => {
                    assert(declare(before, sub[0]) is None);
                    assert(declare_all(before, sub) is None);
                    assert(declare_all(st0, names) is None);
                    proof {
                        lemma_function_needs_parameters(st0.owner, names, body@);
                    }
                    return Err("parameter declared twice".to_owned());
                },
            }
            i = i + 1;
        }
        assert(names.subrange(i as int, names.len() as int) =~= Seq::<Seq<char>>::empty());
        let ghost before_body = f.state();
        assert(well_named(before_body));
        proof {
            lemma_statements_names(before_body, body@);
        }
        if let Err(e) = f.compile_statements(body) {
            return Err(e);
        }
        if f.needs_closing_return() {
            f.emit(Instruction::Return(false));
        }
        Ok(f)
    }

    fn add_variable(&mut self, name: String) -> (r: Option<usize>)
        ensures
            r matches Some(slot) ==> declare(old(self).state(), name@) == Some(
                (final(self).state(), slot as nat),
            ),
            r is None ==> declare(old(self).state(), name@) is None,
            final(self).instructions@ == old(self).instructions@,
    {
        match self.get_variable(&name) {
            Some(_) => None,
            None => {
                let slot = self.variables.len();
                let ghost before = self.state();
                self.variables.push(name);
                assert(self.state().vars =~= before.vars.push(name@));
                Some(slot)
            },
        }
    }
}

/// The names of a parameter list.
pub(crate) fn parameter_names(params: &Vec<Token>) -> (r: Vec<String>)
    ensures
        texts(r@) == param_names(params@),
{
    let mut r: Vec<String> = Vec::new();
    let mut i: usize = 0;
    while i < params.len()
        invariant
            i <= params@.len(),
            r@.len() == i,
            forall|k: int| 0 <= k < i ==> r@[k]@ == text(params@[k]),
        decreases params.len() - i,
    {
        r.push(params[i].to_string());
        i = i + 1;
    }
    assert(texts(r@) =~= param_names(params@));
    r
}

} // verus!
