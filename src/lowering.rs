use vstd::prelude::*;

use crate::counter::IndexedCounter;
use crate::instructions::Instruction;
use crate::token::{text, Token};
use crate::value::Value;

verus! {

/// A value with its strings seen as their text.
pub enum ValueView {
    Null,
    Integer(i32),
    Float(Seq<char>),
    Bool(bool),
    String(Seq<char>),
    Array(usize),
    Dictionary(usize),
    Object(usize),
    Class(Seq<char>),
    FunctionPointer(usize),
    FunctionRef(Seq<char>),
    Counter(IndexedCounter),
}

pub open spec fn value_view(v: Value) -> ValueView {
    match v {
        Value::Null => ValueView::Null,
        Value::Integer(i) => ValueView::Integer(i),
        Value::Float(s) => ValueView::Float(s@),
        Value::Bool(b) => ValueView::Bool(b),
        Value::String(s) => ValueView::String(s@),
        Value::Array(h) => ValueView::Array(h),
        Value::Dictionary(h) => ValueView::Dictionary(h),
        Value::Object(h) => ValueView::Object(h),
        Value::Class(s) => ValueView::Class(s@),
        Value::FunctionPointer(p) => ValueView::FunctionPointer(p),
        Value::FunctionRef(s) => ValueView::FunctionRef(s@),
        Value::Counter(c) => ValueView::Counter(c),
    }
}

/// An instruction with its strings seen as their text.
pub enum InstructionView {
    PushNull,
    PushInteger(i32),
    PushFloat(Seq<char>),
    PushBool(bool),
    PushString(Seq<char>),
    PushFunctionRef(Seq<char>),
    MoveToLocalVariable(nat),
    LoadLocalVariable(nat),
    LoadGlobal(Seq<char>),
    LoadMethod(Seq<char>),
    CreateObject(Seq<char>, nat),
    GetCollectionItem,
    SetCollectionItem,
    CreateCollectionAsDictionary(nat),
    CreateCollectionAsArray(nat),
    IteratorStart,
    IteratorNext(nat, nat),
    Call(nat),
    JumpForward(nat),
    JumpBackward(nat),
    JumpIfFalse(nat),
    Return(bool),
    Equal,
    NotEqual,
    Add,
    Sub,
    Multiply,
    Divide,
    Pow,
    LessThan,
    LessThanOrEqual,
    GreaterThan,
    GreaterThanOrEqual,
    Halt(Seq<char>),
}

pub open spec fn instruction_view(i: Instruction) -> InstructionView {
    match i {
        Instruction::PushNull => InstructionView::PushNull,
        Instruction::PushInteger(v) => InstructionView::PushInteger(v),
        Instruction::PushFloat(v) => InstructionView::PushFloat(v@),
        Instruction::PushBool(v) => InstructionView::PushBool(v),
        Instruction::PushString(v) => InstructionView::PushString(v@),
        Instruction::PushFunctionRef(v) => InstructionView::PushFunctionRef(v@),
        Instruction::MoveToLocalVariable(s) => InstructionView::MoveToLocalVariable(s as nat),
        Instruction::LoadLocalVariable(s) => InstructionView::LoadLocalVariable(s as nat),
        Instruction::LoadGlobal(n) => InstructionView::LoadGlobal(n@),
        Instruction::LoadMethod(n) => InstructionView::LoadMethod(n@),
        Instruction::CreateObject(n, c) => InstructionView::CreateObject(n@, c as nat),
        Instruction::GetCollectionItem => InstructionView::GetCollectionItem,
        Instruction::SetCollectionItem => InstructionView::SetCollectionItem,
        Instruction::CreateCollectionAsDictionary(n) => InstructionView::CreateCollectionAsDictionary(n as nat),
        Instruction::CreateCollectionAsArray(n) => InstructionView::CreateCollectionAsArray(n as nat),
        Instruction::IteratorStart => InstructionView::IteratorStart,
        Instruction::IteratorNext(s, d) => InstructionView::IteratorNext(s as nat, d as nat),
        Instruction::Call(n) => InstructionView::Call(n as nat),
        Instruction::JumpForward(d) => InstructionView::JumpForward(d as nat),
        Instruction::JumpBackward(d) => InstructionView::JumpBackward(d as nat),
        Instruction::JumpIfFalse(d) => InstructionView::JumpIfFalse(d as nat),
        Instruction::Return(h) => InstructionView::Return(h),
        Instruction::Equal => InstructionView::Equal,
        Instruction::NotEqual => InstructionView::NotEqual,
        Instruction::Add => InstructionView::Add,
        Instruction::Sub => InstructionView::Sub,
        Instruction::Multiply => InstructionView::Multiply,
        Instruction::Divide => InstructionView::Divide,
        Instruction::Pow => InstructionView::Pow,
        Instruction::LessThan => InstructionView::LessThan,
        Instruction::LessThanOrEqual => InstructionView::LessThanOrEqual,
        Instruction::GreaterThan => InstructionView::GreaterThan,
        Instruction::GreaterThanOrEqual => InstructionView::GreaterThanOrEqual,
        Instruction::Halt(m) => InstructionView::Halt(m@),
    }
}

pub open spec fn code_view(c: Seq<Instruction>) -> Seq<InstructionView> {
    c.map_values(|i: Instruction| instruction_view(i))
}

/// The state of the compiler inside one function: the code so far, the
/// local variables by slot, the anonymous functions met so far with their
/// code, the name of the function (which prefixes those of its anonymous
/// functions) and how many anonymous functions it has named.
pub struct CState {
    pub code: Seq<InstructionView>,
    pub vars: Seq<Seq<char>>,
    pub lambdas: Seq<(Seq<char>, Seq<InstructionView>)>,
    pub owner: Seq<char>,
    pub count: nat,
}

/// The slot of the first variable called `name`.
pub open spec fn position(vars: Seq<Seq<char>>, name: Seq<char>) -> Option<nat>
    decreases vars.len(),
{
    if vars.len() == 0 {
        None
    } else if vars[0] == name {
        Some(0)
    } else {
        match position(vars.drop_first(), name) {
            Some(i) => Some(i + 1),
            None => None,
        }
    }
}

pub open spec fn emit(st: CState, i: InstructionView) -> CState {
    CState { code: st.code.push(i), ..st }
}

pub open spec fn after(o: Option<CState>, i: InstructionView) -> Option<CState> {
    match o {
        Some(st) => Some(emit(st, i)),
        None => None,
    }
}

/// A fresh slot for `name`; none if the function already has such a variable.
pub open spec fn declare(st: CState, name: Seq<char>) -> Option<(CState, nat)> {
    if position(st.vars, name) is Some {
        None
    } else {
        Some((CState { vars: st.vars.push(name), ..st }, st.vars.len()))
    }
}

pub open spec fn declare_all(st: CState, names: Seq<Seq<char>>) -> Option<CState>
    decreases names.len(),
{
    if names.len() == 0 {
        Some(st)
    } else {
        match declare(st, names[0]) {
            Some((s, _)) => declare_all(s, names.drop_first()),
            None => None,
        }
    }
}

pub open spec fn digit(d: nat) -> char {
    if d == 0 { '0' } else if d == 1 { '1' } else if d == 2 { '2' } else if d == 3 { '3' }
    else if d == 4 { '4' } else if d == 5 { '5' } else if d == 6 { '6' } else if d == 7 { '7' }
    else if d == 8 { '8' } else { '9' }
}

/// The decimal digits of `n`.
pub open spec fn decimal(n: nat) -> Seq<char>
    decreases n,
{
    if n < 10 {
        seq![digit(n)]
    } else {
        decimal(n / 10) + seq![digit(n % 10)]
    }
}

/// The name of the `k`-th anonymous function of `owner`.
pub open spec fn lambda_name(owner: Seq<char>, k: nat) -> Seq<char> {
    owner + ".lambda_"@ + decimal(k)
}

/// Where a jump at `i` lands, if `code[i]` is a jump.
pub open spec fn jump_target(code: Seq<InstructionView>, i: int) -> Option<int> {
    match code[i] {
        InstructionView::JumpForward(d) => Some(i + d),
        InstructionView::JumpIfFalse(d) => Some(i + d),
        InstructionView::IteratorNext(_, d) => Some(i + d),
        InstructionView::JumpBackward(d) => Some(i - d),
        _ => None,
    }
}

/// A function body needs a closing return when it is empty, when it does
/// not end in a return, or when a jump lands just past its end.
pub open spec fn needs_return(code: Seq<InstructionView>) -> bool {
    code.len() == 0 || !(code.last() is Return) || exists|i: int|
        0 <= i < code.len() && jump_target(code, i) == Some(code.len() as int)
}

pub open spec fn finish(code: Seq<InstructionView>) -> Seq<InstructionView> {
    if needs_return(code) {
        code.push(InstructionView::Return(false))
    } else {
        code
    }
}

/// The text of each string.
pub open spec fn texts(ss: Seq<String>) -> Seq<Seq<char>> {
    ss.map_values(|s: String| s@)
}

pub open spec fn param_names(params: Seq<Token>) -> Seq<Seq<char>> {
    params.map_values(|t: Token| text(t))
}

/// Lowers an expression.
pub open spec fn c_expr(st: CState, t: Token) -> Option<CState>
    decreases t, 0nat,
{
    match t {
        Token::Null => Some(emit(st, InstructionView::PushNull)),
        Token::Integer(v) => Some(emit(st, InstructionView::PushInteger(v))),
        Token::Float(v) => Some(emit(st, InstructionView::PushFloat(v@))),
        Token::Bool(v) => Some(emit(st, InstructionView::PushBool(v))),
        Token::String(v) => Some(emit(st, InstructionView::PushString(v@))),
        Token::Identifier(n) => match position(st.vars, n@) {
            Some(slot) => Some(emit(st, InstructionView::LoadLocalVariable(slot))),
            None => Some(emit(st, InstructionView::LoadGlobal(n@))),
        },
        Token::Array(es) => after(
            c_exprs(st, es@),
            InstructionView::CreateCollectionAsArray(es@.len()),
        ),
        Token::Dictionary(ps) => after(
            c_pairs(st, ps@),
            InstructionView::CreateCollectionAsDictionary(ps@.len()),
        ),
        Token::AnonFunction(params, body) => if st.count < usize::MAX {
            let name = lambda_name(st.owner, st.count);
            match c_function(name, param_names(params@), body@) {
                Some((code, nested)) => Some(
                    emit(
                        CState {
                            lambdas: st.lambdas.push((name, code)) + nested,
                            count: st.count + 1,
                            ..st
                        },
                        InstructionView::PushFunctionRef(name),
                    ),
                ),
                None => None,
            }
        } else {
            None
        },
        Token::CollectionIndex(target, index) => match *target {
            Token::Identifier(n) => match position(st.vars, n@) {
                Some(slot) => after(
                    c_expr(emit(st, InstructionView::LoadLocalVariable(slot)), *index),
                    InstructionView::GetCollectionItem,
                ),
                None => None,
            },
            _ => None,
        },
        Token::Call(name, args) => {
            let f = text(*name);
            let s1 = match position(st.vars, f) {
                Some(slot) => emit(st, InstructionView::LoadLocalVariable(slot)),
                None => emit(st, InstructionView::PushFunctionRef(f)),
            };
            after(c_exprs(s1, args@), InstructionView::Call(args@.len()))
        },
        Token::DotChain(head, chain) => if chain@.len() == 1 {
            match chain@[0] {
                Token::Call(method, args) => if args@.len() < usize::MAX {
                    match c_expr(st, *head) {
                        Some(s1) => after(
                            c_exprs(emit(s1, InstructionView::LoadMethod(text(*method))), args@),
                            InstructionView::Call(args@.len() + 1),
                        ),
                        None => None,
                    }
                } else {
                    None
                },
                _ => None,
            }
        } else {
            None
        },
        Token::NewObject(class, args) => after(
            c_exprs(st, args@),
            InstructionView::CreateObject(class@, args@.len()),
        ),
        Token::Eq(a, b) => match c_expr(st, *a) {
            Some(s) => after(c_expr(s, *b), InstructionView::Equal),
            None => None,
        },
        Token::Ne(a, b) => match c_expr(st, *a) {
            Some(s) => after(c_expr(s, *b), InstructionView::NotEqual),
            None => None,
        },
        Token::Lt(a, b) => match c_expr(st, *a) {
            Some(s) => after(c_expr(s, *b), InstructionView::LessThan),
            None => None,
        },
        Token::Le(a, b) => match c_expr(st, *a) {
            Some(s) => after(c_expr(s, *b), InstructionView::LessThanOrEqual),
            None => None,
        },
        Token::Gt(a, b) => match c_expr(st, *a) {
            Some(s) => after(c_expr(s, *b), InstructionView::GreaterThan),
            None => None,
        },
        Token::Ge(a, b) => match c_expr(st, *a) {
            Some(s) => after(c_expr(s, *b), InstructionView::GreaterThanOrEqual),
            None => None,
        },
        Token::Add(a, b) => match c_expr(st, *a) {
            Some(s) => after(c_expr(s, *b), InstructionView::Add),
            None => None,
        },
        Token::Sub(a, b) => match c_expr(st, *a) {
            Some(s) => after(c_expr(s, *b), InstructionView::Sub),
            None => None,
        },
        Token::Mul(a, b) => match c_expr(st, *a) {
            Some(s) => after(c_expr(s, *b), InstructionView::Multiply),
            None => None,
        },
        Token::Div(a, b) => match c_expr(st, *a) {
            Some(s) => after(c_expr(s, *b), InstructionView::Divide),
            None => None,
        },
        Token::Pow(a, b) => match c_expr(st, *a) {
            Some(s) => after(c_expr(s, *b), InstructionView::Pow),
            None => None,
        },
        _ => None,
    }
}

/// Lowers expressions one after the other.
pub open spec fn c_exprs(st: CState, es: Seq<Token>) -> Option<CState>
    decreases es, 0nat,
{
    if es.len() == 0 {
        Some(st)
    } else {
        match c_expr(st, es[0]) {
            Some(s) => c_exprs(s, es.drop_first()),
            None => None,
        }
    }
}

/// Lowers the entries of a dictionary literal: each key, then its value.
pub open spec fn c_pairs(st: CState, ps: Seq<Token>) -> Option<CState>
    decreases ps, 0nat,
{
    if ps.len() == 0 {
        Some(st)
    } else {
        match ps[0] {
            Token::KeyValuePair(k, v) => match c_expr(
                emit(st, InstructionView::PushString(k@)),
                *v,
            ) {
                Some(s) => c_pairs(s, ps.drop_first()),
                None => None,
            },
            _ => None,
        }
    }
}

/// The placeholder a jump is written over once its distance is known.
pub open spec fn placeholder() -> InstructionView {
    InstructionView::Halt("jump not yet placed"@)
}

/// Lowers the iteration that follows the pushes of bound, step and start.
pub open spec fn c_loop(st: CState, slot: nat, body: Seq<Token>) -> Option<CState>
    decreases body, 2nat,
{
    let s1 = emit(st, InstructionView::IteratorStart);
    let p = s1.code.len();
    match c_stmts(emit(s1, placeholder()), body) {
        Some(s2) => {
            let s3 = emit(s2, InstructionView::JumpBackward((s2.code.len() - p) as nat));
            Some(
                CState {
                    code: s3.code.update(
                        p as int,
                        InstructionView::IteratorNext(slot, (s3.code.len() - p) as nat),
                    ),
                    ..s3
                },
            )
        },
        None => None,
    }
}

/// Lowers a statement.
pub open spec fn c_stmt(st: CState, t: Token) -> Option<CState>
    decreases t, 1nat,
{
    match t {
        Token::Variable(name, e) => match declare(st, text(*name)) {
            Some((s1, slot)) => after(
                c_expr(s1, *e),
                InstructionView::MoveToLocalVariable(slot),
            ),
            None => None,
        },
        Token::Assign(left, right) => match *left {
            Token::Identifier(n) => match position(st.vars, n@) {
                Some(slot) => after(
                    c_expr(st, *right),
                    InstructionView::MoveToLocalVariable(slot),
                ),
                None => None,
            },
            Token::CollectionIndex(target, index) => match *target {
                Token::Identifier(n) => match position(st.vars, n@) {
                    Some(slot) => match c_expr(
                        emit(st, InstructionView::LoadLocalVariable(slot)),
                        *right,
                    ) {
                        Some(s2) => match c_expr(s2, *index) {
                            Some(s3) => Some(
                                emit(
                                    emit(s3, InstructionView::SetCollectionItem),
                                    InstructionView::MoveToLocalVariable(slot),
                                ),
                            ),
                            None => None,
                        },
                        None => None,
                    },
                    None => None,
                },
                _ => None,
            },
            _ => None,
        },
        Token::Call(_, _) => c_expr(st, t),
        Token::DotChain(_, _) => c_expr(st, t),
        Token::Return(e) => after(c_expr(st, *e), InstructionView::Return(true)),
        Token::WhileLoop(cond, body) => {
            let start = st.code.len();
            match c_expr(st, *cond) {
                Some(s1) => {
                    let p = s1.code.len();
                    match c_stmts(emit(s1, placeholder()), body@) {
                        Some(s2) => {
                            let s3 = emit(
                                s2,
                                InstructionView::JumpBackward((s2.code.len() - start) as nat),
                            );
                            Some(
                                CState {
                                    code: s3.code.update(
                                        p as int,
                                        InstructionView::JumpIfFalse((s3.code.len() - p) as nat),
                                    ),
                                    ..s3
                                },
                            )
                        },
                        None => None,
                    }
                },
                None => None,
            }
        },
        Token::ForI(var, start, step, end, body) => match declare(st, text(*var)) {
            Some((s0, slot)) => match c_expr(s0, *end) {
                Some(s1) => match c_expr(s1, *step) {
                    Some(s2) => match c_expr(s2, *start) {
                        Some(s3) => c_loop(s3, slot, body@),
                        None => None,
                    },
                    None => None,
                },
                None => None,
            },
            None => None,
        },
        Token::ForEach(var, collection, body) => match declare(st, text(*var)) {
            Some((s0, slot)) => match c_expr(s0, *collection) {
                Some(s1) => c_loop(
                    emit(emit(s1, InstructionView::PushInteger(1)), InstructionView::PushInteger(0)),
                    slot,
                    body@,
                ),
                None => None,
            },
            None => None,
        },
        Token::IfElse(cond, then_body, else_body) => match c_expr(st, *cond) {
            Some(s1) => {
                let at_else = s1.code.len();
                match c_stmts(emit(s1, placeholder()), then_body@) {
                    Some(s2) => {
                        let at_end = s2.code.len();
                        let s3 = emit(s2, placeholder());
                        let s4 = match else_body {
                            Some(e) => c_stmts(s3, e@),
                            None => Some(s3),
                        };
                        match s4 {
                            Some(s4) => Some(
                                CState {
                                    code: s4.code.update(
                                        at_else as int,
                                        InstructionView::JumpIfFalse((at_end + 1 - at_else) as nat),
                                    ).update(
                                        at_end as int,
                                        InstructionView::JumpForward((s4.code.len() - at_end) as nat),
                                    ),
                                    ..s4
                                },
                            ),
                            None => None,
                        }
                    },
                    None => None,
                }
            },
            None => None,
        },
        Token::Comment(_) => Some(st),
        _ => None,
    }
}

/// Lowers statements one after the other.
pub open spec fn c_stmts(st: CState, ts: Seq<Token>) -> Option<CState>
    decreases ts, 1nat,
{
    if ts.len() == 0 {
        Some(st)
    } else {
        match c_stmt(st, ts[0]) {
            Some(s) => c_stmts(s, ts.drop_first()),
            None => None,
        }
    }
}

/// Compiles a function called `owner` with parameters `params`: its code,
/// closed by a return, and its anonymous functions (named and compiled).
pub open spec fn c_function(owner: Seq<char>, params: Seq<Seq<char>>, body: Seq<Token>) -> Option<
    (Seq<InstructionView>, Seq<(Seq<char>, Seq<InstructionView>)>),
>
    decreases body, 3nat,
{
    let st = CState {
        code: Seq::empty(),
        vars: Seq::empty(),
        lambdas: Seq::empty(),
        owner,
        count: 0,
    };
    match declare_all(st, params) {
        Some(s1) => match c_stmts(s1, body) {
            Some(s2) => Some((finish(s2.code), s2.lambdas)),
            None => None,
        },
        None => None,
    }
}

} // verus!
