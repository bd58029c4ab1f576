use vstd::prelude::*;

use crate::lowering::{
    c_expr, c_exprs, c_function, c_loop, c_pairs, c_stmt, c_stmts, decimal, declare, declare_all,
    digit, emit, lambda_name, position, CState, InstructionView,
};
use crate::token::{text, Token};

verus! {

/// What may follow the number in the name of an anonymous function: nothing,
/// or the rest of the name of one nested in it, after a dot.
pub open spec fn suffix_ok(rest: Seq<char>) -> bool {
    rest.len() == 0 || rest[0] == '.'
}

/// `name` belongs to the anonymous function of `owner` numbered `k`, or to
/// one nested in it, for some `k` below `count`.
pub open spec fn owned_below(name: Seq<char>, owner: Seq<char>, count: nat) -> bool {
    exists|k: nat, rest: Seq<char>| k < count && suffix_ok(rest) && #[trigger] (lambda_name(owner, k) + rest) == name
}

/// `name` belongs to an anonymous function of `owner`, or to one nested in it.
pub open spec fn owned(name: Seq<char>, owner: Seq<char>) -> bool {
    exists|c: nat| owned_below(name, owner, c)
}

/// The names of the anonymous functions met so far all belong to the
/// function being compiled and carry numbers below its counter.
pub open spec fn well_named(st: CState) -> bool {
    forall|i: int| 0 <= i < st.lambdas.len() ==> owned_below(#[trigger] st.lambdas[i].0, st.owner, st.count)
}

proof fn lemma_decimal_digits(n: nat)
    ensures
        decimal(n).len() >= 1,
        n >= 10 ==> decimal(n).len() >= 2,
        forall|i: int| 0 <= i < decimal(n).len() ==> #[trigger] decimal(n)[i] != '.',
    decreases n,
{
    if n >= 10 {
        lemma_decimal_digits(n / 10);
        let d = decimal(n);
        assert forall|i: int| 0 <= i < d.len() implies #[trigger] d[i] != '.' by {
            if i < decimal(n / 10).len() {
                assert(d[i] == decimal(n / 10)[i]);
            }
        }
    }
}

proof fn lemma_decimal_injective(a: nat, b: nat)
    requires
        decimal(a) == decimal(b),
    ensures
        a == b,
    decreases a,
{
    lemma_decimal_digits(a);
    lemma_decimal_digits(b);
    if a < 10 && b < 10 {
        assert(decimal(a)[0] == digit(a));
        assert(decimal(b)[0] == digit(b));
    } else if a >= 10 && b >= 10 {
        let da = decimal(a);
        assert(da.last() == digit(a % 10));
        assert(decimal(b).last() == digit(b % 10));
        assert(decimal(a / 10) =~= da.drop_last());
        assert(decimal(b / 10) =~= decimal(b).drop_last());
        lemma_decimal_injective(a / 10, b / 10);
    }
}

/// The next name the compiler gives an anonymous function is not taken:
/// it differs from every name met so far.
pub proof fn lemma_next_lambda_name_is_fresh(st: CState)
    requires
        well_named(st),
    ensures
        forall|i: int| 0 <= i < st.lambdas.len() ==> #[trigger] st.lambdas[i].0 != lambda_name(st.owner, st.count),
{
    assert forall|i: int| 0 <= i < st.lambdas.len() implies #[trigger] st.lambdas[i].0 != lambda_name(
        st.owner,
        st.count,
    ) by {
        assert(owned_below(st.lambdas[i].0, st.owner, st.count));
        let (k, rest) = choose|k: nat, rest: Seq<char>| k < st.count && suffix_ok(rest) && #[trigger] (
        lambda_name(st.owner, k) + rest) == st.lambdas[i].0;
        if st.lambdas[i].0 == lambda_name(st.owner, st.count) {
            let p = st.owner + ".lambda_"@;
            let dk = decimal(k);
            let dc = decimal(st.count);
            assert(p + dc == p + dk + rest);
            assert(dc =~= (p + dc).subrange(p.len() as int, (p + dc).len() as int));
            assert(dk + rest =~= (p + dk + rest).subrange(p.len() as int, (p + dk + rest).len() as int));
            assert(dc == dk + rest);
            lemma_decimal_digits(st.count);
            if rest.len() > 0 {
                assert(dc[dk.len() as int] == rest[0]);
            }
            assert(dc =~= dk);
            lemma_decimal_injective(k, st.count);
        }
    }
}

proof fn lemma_widen(st: CState, count: nat)
    requires
        well_named(st),
        st.count <= count,
    ensures
        well_named(CState { count, ..st }),
{
    assert forall|i: int| 0 <= i < st.lambdas.len() implies owned_below(#[trigger] st.lambdas[i].0, st.owner, count) by {
        assert(owned_below(st.lambdas[i].0, st.owner, st.count));
        let (k, rest) = choose|k: nat, rest: Seq<char>| k < st.count && suffix_ok(rest) && #[trigger] (
        lambda_name(st.owner, k) + rest) == st.lambdas[i].0;
        assert(lambda_name(st.owner, k) + rest == st.lambdas[i].0);
    }
}

/// A name that belongs to the function `lambda_name(owner, k)` belongs to
/// `owner`'s anonymous function `k`.
proof fn lemma_nested_name(n: Seq<char>, owner: Seq<char>, k: nat, inner: nat)
    requires
        owned_below(n, lambda_name(owner, k), inner),
    ensures
        owned_below(n, owner, k + 1),
{
    let (j, rest) = choose|j: nat, rest: Seq<char>| j < inner && suffix_ok(rest) && #[trigger] (
    lambda_name(lambda_name(owner, k), j) + rest) == n;
    let rest2 = ".lambda_"@ + decimal(j) + rest;
    reveal_strlit(".lambda_");
    assert(rest2[0] == '.');
    assert(lambda_name(owner, k) + rest2 =~= n);
}

pub open spec fn keeps_names(st: CState, o: Option<CState>) -> bool {
    o matches Some(s2) ==> well_named(s2) && s2.owner == st.owner && s2.count >= st.count
}

proof fn lemma_chain(st: CState, s1: CState, o: Option<CState>)
    requires
        well_named(s1),
        s1.owner == st.owner,
        s1.count >= st.count,
        keeps_names(s1, o),
    ensures
        keeps_names(st, o),
{
}

proof fn lemma_declare_names(st: CState, name: Seq<char>)
    ensures
        declare(st, name) matches Some((s, _)) ==> s.lambdas == st.lambdas && s.owner == st.owner
            && s.count == st.count,
{
}

pub proof fn lemma_declare_all_names(st: CState, names: Seq<Seq<char>>)
    ensures
        declare_all(st, names) matches Some(s) ==> s.lambdas == st.lambdas && s.owner == st.owner
            && s.count == st.count,
    decreases names.len(),
{
    if names.len() > 0 {
        match declare(st, names[0]) {
            Some((s, _)) => lemma_declare_all_names(s, names.drop_first()),
            None => {},
        }
    }
}

/// Lowering an expression keeps the names of anonymous functions well formed.
pub proof fn lemma_expr_names(st: CState, t: Token)
    requires
        well_named(st),
    ensures
        keeps_names(st, c_expr(st, t)),
    decreases t, 0nat,
{
    match t {
        Token::Array(es) => lemma_exprs_names(st, es@),
        Token::Dictionary(ps) => lemma_pairs_names(st, ps@),
        Token::AnonFunction(params, body) => {
            if st.count < usize::MAX {
                let name = lambda_name(st.owner, st.count);
                lemma_function_names(name, crate::lowering::param_names(params@), body@);
                match c_function(name, crate::lowering::param_names(params@), body@) {
                    Some((code, nested)) => {
                        let s2 = CState {
                            lambdas: st.lambdas.push((name, code)) + nested,
                            count: st.count + 1,
                            ..st
                        };
                        lemma_widen(st, st.count + 1);
                        assert forall|i: int| 0 <= i < s2.lambdas.len() implies owned_below(
                            #[trigger] s2.lambdas[i].0,
                            s2.owner,
                            s2.count,
                        ) by {
                            if i < st.lambdas.len() {
                                assert(s2.lambdas[i] == st.lambdas[i]);
                                assert(owned_below(st.lambdas[i].0, st.owner, (st.count + 1) as nat));
                            } else if i == st.lambdas.len() {
                                assert(lambda_name(st.owner, st.count) + Seq::<char>::empty() =~= name);
                            } else {
                                let j = i - st.lambdas.len() - 1;
                                assert(s2.lambdas[i] == nested[j]);
                                assert(owned(nested[j].0, name));
                                let c = choose|c: nat| owned_below(nested[j].0, name, c);
                                lemma_nested_name(nested[j].0, st.owner, st.count, c);
                            }
                        }
                    },
                    None => {},
                }
            }
        },
        Token::CollectionIndex(target, index) => {
            match *target {
                Token::Identifier(n) => match position(st.vars, n@) {
                    Some(slot) => lemma_expr_names(
                        emit(st, InstructionView::LoadLocalVariable(slot)),
                        *index,
                    ),
                    None => {},
                },
                _ => {},
            }
        },
        Token::Call(name, args) => {
            let f = text(*name);
            let s0 = match position(st.vars, f) {
                Some(slot) => emit(st, InstructionView::LoadLocalVariable(slot)),
                None => emit(st, InstructionView::PushFunctionRef(f)),
            };
            lemma_exprs_names(s0, args@);
        },
        Token::DotChain(head, chain) => {
            if chain@.len() == 1 {
                match chain@[0] {
                    Token::Call(method, args) => {
                        lemma_expr_names(st, *head);
                        match c_expr(st, *head) {
                            Some(s1) => lemma_exprs_names(
                                emit(s1, InstructionView::LoadMethod(text(*method))),
                                args@,
                            ),
                            None => {},
                        }
                    },
                    _ => {},
                }
            }
        },
        Token::NewObject(_, args) => lemma_exprs_names(st, args@),
        Token::Eq(a, b) | Token::Ne(a, b) | Token::Lt(a, b) | Token::Le(a, b) | Token::Gt(a, b)
        | Token::Ge(a, b) | Token::Add(a, b) | Token::Sub(a, b) | Token::Mul(a, b) | Token::Div(a, b)
        | Token::Pow(a, b) => {
            lemma_expr_names(st, *a);
            match c_expr(st, *a) {
                Some(s1) => lemma_expr_names(s1, *b),
                None => {},
            }
        },
        _ => {},
    }
}

proof fn lemma_exprs_names(st: CState, es: Seq<Token>)
    requires
        well_named(st),
    ensures
        keeps_names(st, c_exprs(st, es)),
    decreases es, 0nat,
{
    if es.len() > 0 {
        lemma_expr_names(st, es[0]);
        match c_expr(st, es[0]) {
            Some(s1) => {
                lemma_exprs_names(s1, es.drop_first());
                lemma_chain(st, s1, c_exprs(s1, es.drop_first()));
            },
            None => {},
        }
    }
}

proof fn lemma_pairs_names(st: CState, ps: Seq<Token>)
    requires
        well_named(st),
    ensures
        keeps_names(st, c_pairs(st, ps)),
    decreases ps, 0nat,
{
    if ps.len() > 0 {
        match ps[0] {
            Token::KeyValuePair(k, v) => {
                let s0 = emit(st, InstructionView::PushString(k@));
                lemma_expr_names(s0, *v);
                match c_expr(s0, *v) {
                    Some(s1) => {
                        lemma_pairs_names(s1, ps.drop_first());
                        lemma_chain(st, s1, c_pairs(s1, ps.drop_first()));
                    },
                    None => {},
                }
            },
            _ => {},
        }
    }
}

/// Lowering a statement keeps the names of anonymous functions well formed.
pub proof fn lemma_statement_names(st: CState, t: Token)
    requires
        well_named(st),
    ensures
        keeps_names(st, c_stmt(st, t)),
    decreases t, 1nat,
{
    match t {
        Token::Variable(name, e) => {
            lemma_declare_names(st, text(*name));
            match declare(st, text(*name)) {
                Some((s1, _)) => lemma_expr_names(s1, *e),
                None => {},
            }
        },
        Token::Assign(left, right) => match *left {
            Token::Identifier(_) => lemma_expr_names(st, *right),
            Token::CollectionIndex(target, index) => match *target {
                Token::Identifier(n) => match position(st.vars, n@) {
                    Some(slot) => {
                        let s0 = emit(st, InstructionView::LoadLocalVariable(slot));
                        lemma_expr_names(s0, *right);
                        match c_expr(s0, *right) {
                            Some(s2) => {
                                lemma_expr_names(s2, *index);
                            },
                            None => {},
                        }
                    },
                    None => {},
                },
                _ => {},
            },
            _ => {},
        },
        Token::Call(_, _) | Token::DotChain(_, _) => lemma_expr_names(st, t),
        Token::Return(e) => lemma_expr_names(st, *e),
        Token::WhileLoop(cond, body) => {
            lemma_expr_names(st, *cond);
            match c_expr(st, *cond) {
                Some(s1) => lemma_statements_names(emit(s1, crate::lowering::placeholder()), body@),
                None => {},
            }
        },
        Token::ForI(var, start, step, end, body) => {
            lemma_declare_names(st, text(*var));
            match declare(st, text(*var)) {
                Some((s0, slot)) => {
                    lemma_expr_names(s0, *end);
                    match c_expr(s0, *end) {
                        Some(s1) => {
                            lemma_expr_names(s1, *step);
                            match c_expr(s1, *step) {
                                Some(s2) => {
                                    lemma_expr_names(s2, *start);
                                    match c_expr(s2, *start) {
                                        Some(s3) => lemma_loop_names(s3, slot, body@),
                                        None => {},
                                    }
                                },
                                None => {},
                            }
                        },
                        None => {},
                    }
                },
                None => {},
            }
        },
        Token::ForEach(var, collection, body) => {
            lemma_declare_names(st, text(*var));
            match declare(st, text(*var)) {
                Some((s0, slot)) => {
                    lemma_expr_names(s0, *collection);
                    match c_expr(s0, *collection) {
                        Some(s1) => lemma_loop_names(
                            emit(emit(s1, InstructionView::PushInteger(1)), InstructionView::PushInteger(0)),
                            slot,
                            body@,
                        ),
                        None => {},
                    }
                },
                None => {},
            }
        },
        Token::IfElse(cond, then_body, else_body) => {
            lemma_expr_names(st, *cond);
            match c_expr(st, *cond) {
                Some(s1) => {
                    let s1b = emit(s1, crate::lowering::placeholder());
                    lemma_statements_names(s1b, then_body@);
                    match c_stmts(s1b, then_body@) {
                        Some(s2) => {
                            let s3 = emit(s2, crate::lowering::placeholder());
                            match else_body {
                                Some(e) => lemma_statements_names(s3, e@),
                                None => {},
                            }
                        },
                        None => {},
                    }
                },
                None => {},
            }
        },
        _ => {},
    }
}

pub proof fn lemma_statements_names(st: CState, ts: Seq<Token>)
    requires
        well_named(st),
    ensures
        keeps_names(st, c_stmts(st, ts)),
    decreases ts, 1nat,
{
    if ts.len() > 0 {
        lemma_statement_names(st, ts[0]);
        match c_stmt(st, ts[0]) {
            Some(s1) => {
                lemma_statements_names(s1, ts.drop_first());
                lemma_chain(st, s1, c_stmts(s1, ts.drop_first()));
            },
            None => {},
        }
    }
}

proof fn lemma_loop_names(st: CState, slot: nat, body: Seq<Token>)
    requires
        well_named(st),
    ensures
        keeps_names(st, c_loop(st, slot, body)),
    decreases body, 2nat,
{
    let s1 = emit(emit(st, InstructionView::IteratorStart), crate::lowering::placeholder());
    lemma_statements_names(s1, body);
}

/// Every anonymous function that compiling a function yields is named
/// after that function.
pub proof fn lemma_function_names(owner: Seq<char>, params: Seq<Seq<char>>, body: Seq<Token>)
    ensures
        c_function(owner, params, body) matches Some((_, ls)) ==> forall|i: int|
            0 <= i < ls.len() ==> owned(#[trigger] ls[i].0, owner),
    decreases body, 3nat,
{
    let st = CState {
        code: Seq::empty(),
        vars: Seq::empty(),
        lambdas: Seq::empty(),
        owner,
        count: 0,
    };
    lemma_declare_all_names(st, params);
    match declare_all(st, params) {
        Some(s1) => {
            lemma_statements_names(s1, body);
            match c_stmts(s1, body) {
                Some(s2) => {
                    assert forall|i: int| 0 <= i < s2.lambdas.len() implies owned(
                        #[trigger] s2.lambdas[i].0,
                        owner,
                    ) by {
                        assert(owned_below(s2.lambdas[i].0, owner, s2.count));
                    }
                },
                None => {},
            }
        },
        None => {},
    }
}

} // verus!
