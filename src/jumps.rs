use vstd::prelude::*;

use crate::lowering::{
    c_expr, c_exprs, c_function, c_loop, c_pairs, c_stmt, c_stmts, declare, declare_all, emit,
    finish, jump_target, needs_return, placeholder, CState, InstructionView,
};
use crate::token::Token;

verus! {

/// `b` is `a` with more code after it.
pub open spec fn extends(a: Seq<InstructionView>, b: Seq<InstructionView>) -> bool {
    a.len() <= b.len() && forall|i: int| 0 <= i < a.len() ==> #[trigger] b[i] == a[i]
}

/// No instruction in `[from, to)` is a jump.
pub open spec fn quiet(code: Seq<InstructionView>, from: int, to: int) -> bool {
    forall|i: int| from <= i < to ==> #[trigger] jump_target(code, i) is None
}

/// Every jump in `[from, to)` lands in `[lo, hi]`, and every conditional
/// jump there moves forward.
pub open spec fn lands_in(code: Seq<InstructionView>, from: int, to: int, lo: int, hi: int) -> bool {
    forall|i: int|
        from <= i < to ==> (#[trigger] jump_target(code, i) matches Some(t) ==> lo <= t <= hi) && (
        code[i] is JumpIfFalse ==> i < i + code[i]->JumpIfFalse_0 <= hi)
}

proof fn lemma_quiet_lands(code: Seq<InstructionView>, from: int, to: int, lo: int, hi: int)
    requires
        quiet(code, from, to),
    ensures
        lands_in(code, from, to, lo, hi),
{
    assert forall|i: int| from <= i < to implies (#[trigger] jump_target(code, i) matches Some(t) ==> lo <= t <= hi) && (
    code[i] is JumpIfFalse ==> i < i + code[i]->JumpIfFalse_0 <= hi) by {
        assert(jump_target(code, i) is None);
    }
}

proof fn lemma_quiet_frame(a: Seq<InstructionView>, b: Seq<InstructionView>, from: int, to: int)
    requires
        extends(a, b),
        0 <= from,
        to <= a.len(),
        quiet(a, from, to),
    ensures
        quiet(b, from, to),
{
    assert forall|i: int| from <= i < to implies #[trigger] jump_target(b, i) is None by {
        assert(b[i] == a[i]);
        assert(jump_target(a, i) is None);
    }
}

proof fn lemma_lands_frame(a: Seq<InstructionView>, b: Seq<InstructionView>, from: int, to: int, lo: int, hi: int)
    requires
        extends(a, b),
        0 <= from,
        to <= a.len(),
        lands_in(a, from, to, lo, hi),
    ensures
        lands_in(b, from, to, lo, hi),
{
    assert forall|i: int| from <= i < to implies (#[trigger] jump_target(b, i) matches Some(t) ==> lo <= t <= hi) && (
    b[i] is JumpIfFalse ==> i < i + b[i]->JumpIfFalse_0 <= hi) by {
        assert(b[i] == a[i]);
        assert(jump_target(a, i) == jump_target(b, i));
    }
}

proof fn lemma_lands_update(a: Seq<InstructionView>, p: int, x: InstructionView, from: int, to: int, lo: int, hi: int)
    requires
        0 <= p < a.len(),
        0 <= from,
        to <= a.len(),
        p < from || p >= to,
        lands_in(a, from, to, lo, hi),
    ensures
        lands_in(a.update(p, x), from, to, lo, hi),
{
    let b = a.update(p, x);
    assert forall|i: int| from <= i < to implies (#[trigger] jump_target(b, i) matches Some(t) ==> lo <= t <= hi) && (
    b[i] is JumpIfFalse ==> i < i + b[i]->JumpIfFalse_0 <= hi) by {
        assert(b[i] == a[i]);
        assert(jump_target(a, i) == jump_target(b, i));
    }
}

proof fn lemma_quiet_update(a: Seq<InstructionView>, p: int, x: InstructionView, from: int, to: int)
    requires
        0 <= p < a.len(),
        0 <= from,
        to <= a.len(),
        p < from || p >= to,
        quiet(a, from, to),
    ensures
        quiet(a.update(p, x), from, to),
{
    let b = a.update(p, x);
    assert forall|i: int| from <= i < to implies #[trigger] jump_target(b, i) is None by {
        assert(b[i] == a[i]);
        assert(jump_target(a, i) is None);
    }
}

proof fn lemma_lands_widen(a: Seq<InstructionView>, from: int, to: int, lo: int, hi: int, lo2: int, hi2: int)
    requires
        lands_in(a, from, to, lo, hi),
        lo2 <= lo,
        hi <= hi2,
    ensures
        lands_in(a, from, to, lo2, hi2),
{
    assert forall|i: int| from <= i < to implies (#[trigger] jump_target(a, i) matches Some(t) ==> lo2 <= t <= hi2) && (
    a[i] is JumpIfFalse ==> i < i + a[i]->JumpIfFalse_0 <= hi2) by {
        assert((jump_target(a, i) matches Some(t) ==> lo <= t <= hi) && (a[i] is JumpIfFalse ==> i < i
            + a[i]->JumpIfFalse_0 <= hi));
    }
}

proof fn lemma_lands_join(a: Seq<InstructionView>, x: int, y: int, z: int, lo: int, hi: int)
    requires
        lands_in(a, x, y, lo, hi),
        lands_in(a, y, z, lo, hi),
    ensures
        lands_in(a, x, z, lo, hi),
{
    assert forall|i: int| x <= i < z implies (#[trigger] jump_target(a, i) matches Some(t) ==> lo <= t <= hi) && (
    a[i] is JumpIfFalse ==> i < i + a[i]->JumpIfFalse_0 <= hi) by {
        if i < y {
            assert(x <= i < y);
        } else {
            assert(y <= i < z);
        }
    }
}

proof fn lemma_quiet_join(a: Seq<InstructionView>, x: int, y: int, z: int)
    requires
        quiet(a, x, y),
        quiet(a, y, z),
    ensures
        quiet(a, x, z),
{
    assert forall|i: int| x <= i < z implies #[trigger] jump_target(a, i) is None by {
        if i < y {
            assert(x <= i < y);
        } else {
            assert(y <= i < z);
        }
    }
}

/// `b` extends `a` with code that holds no jump.
pub open spec fn adds_quiet(a: Seq<InstructionView>, b: Seq<InstructionView>) -> bool {
    extends(a, b) && quiet(b, a.len() as int, b.len() as int)
}

/// `b` extends `a` with code whose jumps land inside the added code or
/// just past its end.
pub open spec fn adds_contained(a: Seq<InstructionView>, b: Seq<InstructionView>) -> bool {
    extends(a, b) && lands_in(b, a.len() as int, b.len() as int, a.len() as int, b.len() as int)
}

proof fn lemma_quiet_chain(x: Seq<InstructionView>, y: Seq<InstructionView>, z: Seq<InstructionView>)
    requires
        adds_quiet(x, y),
        adds_quiet(y, z),
    ensures
        adds_quiet(x, z),
{
    lemma_quiet_frame(y, z, x.len() as int, y.len() as int);
    lemma_quiet_join(z, x.len() as int, y.len() as int, z.len() as int);
}

proof fn lemma_quiet_contained(x: Seq<InstructionView>, y: Seq<InstructionView>)
    requires
        adds_quiet(x, y),
    ensures
        adds_contained(x, y),
{
    lemma_quiet_lands(y, x.len() as int, y.len() as int, x.len() as int, y.len() as int);
}

proof fn lemma_contained_chain(x: Seq<InstructionView>, y: Seq<InstructionView>, z: Seq<InstructionView>)
    requires
        adds_contained(x, y),
        adds_contained(y, z),
    ensures
        adds_contained(x, z),
{
    lemma_lands_frame(y, z, x.len() as int, y.len() as int, x.len() as int, y.len() as int);
    lemma_lands_widen(z, x.len() as int, y.len() as int, x.len() as int, y.len() as int, x.len() as int, z.len() as int);
    lemma_lands_widen(z, y.len() as int, z.len() as int, y.len() as int, z.len() as int, x.len() as int, z.len() as int);
    lemma_lands_join(z, x.len() as int, y.len() as int, z.len() as int, x.len() as int, z.len() as int);
}

proof fn lemma_emit_plain(st: CState, i: InstructionView)
    requires
        jump_target(st.code.push(i), st.code.len() as int) is None,
    ensures
        adds_quiet(st.code, emit(st, i).code),
{
}

proof fn lemma_single(code: Seq<InstructionView>, i: int, lo: int, hi: int)
    requires
        jump_target(code, i) matches Some(t) ==> lo <= t <= hi,
        code[i] is JumpIfFalse ==> i < i + code[i]->JumpIfFalse_0 <= hi,
    ensures
        lands_in(code, i, i + 1, lo, hi),
{
    assert forall|j: int| i <= j < i + 1 implies (#[trigger] jump_target(code, j) matches Some(t) ==> lo <= t
        <= hi) && (code[j] is JumpIfFalse ==> j < j + code[j]->JumpIfFalse_0 <= hi) by {
        assert(j == i);
    }
}

proof fn lemma_declare_all_code(st: CState, names: Seq<Seq<char>>)
    ensures
        declare_all(st, names) matches Some(s) ==> s.code == st.code,
    decreases names.len(),
{
    if names.len() > 0 {
        match declare(st, names[0]) {
            Some((s, _)) => lemma_declare_all_code(s, names.drop_first()),
            None => {},
        }
    }
}

/// The code of an expression holds no jump.
pub proof fn lemma_expr_code(st: CState, t: Token)
    ensures
        c_expr(st, t) matches Some(s2) ==> adds_quiet(st.code, s2.code),
    decreases t, 0nat,
{
    match t {
        Token::Array(es) => {
            lemma_exprs_code(st, es@);
            match c_exprs(st, es@) {
                Some(s1) => {
                    lemma_emit_plain(s1, InstructionView::CreateCollectionAsArray(es@.len()));
                    lemma_quiet_chain(st.code, s1.code, c_expr(st, t)->Some_0.code);
                },
                None => {},
            }
        },
        Token::Dictionary(ps) => {
            lemma_pairs_code(st, ps@);
            match c_pairs(st, ps@) {
                Some(s1) => {
                    lemma_emit_plain(s1, InstructionView::CreateCollectionAsDictionary(ps@.len()));
                    lemma_quiet_chain(st.code, s1.code, c_expr(st, t)->Some_0.code);
                },
                None => {},
            }
        },
        Token::CollectionIndex(target, index) => {
            match *target {
                Token::Identifier(n) => match crate::lowering::position(st.vars, n@) {
                    Some(slot) => {
                        let s0 = emit(st, InstructionView::LoadLocalVariable(slot));
                        lemma_emit_plain(st, InstructionView::LoadLocalVariable(slot));
                        lemma_expr_code(s0, *index);
                        match c_expr(s0, *index) {
                            Some(s1) => {
                                lemma_emit_plain(s1, InstructionView::GetCollectionItem);
                                lemma_quiet_chain(st.code, s0.code, s1.code);
                                lemma_quiet_chain(st.code, s1.code, c_expr(st, t)->Some_0.code);
                            },
                            None => {},
                        }
                    },
                    None => {},
                },
                _ => {},
            }
        },
        Token::Call(name, args) => {
            let f = crate::token::text(*name);
            let s0 = match crate::lowering::position(st.vars, f) {
                Some(slot) => emit(st, InstructionView::LoadLocalVariable(slot)),
                None => emit(st, InstructionView::PushFunctionRef(f)),
            };
            lemma_exprs_code(s0, args@);
            match c_exprs(s0, args@) {
                Some(s1) => {
                    lemma_emit_plain(s1, InstructionView::Call(args@.len()));
                    lemma_quiet_chain(st.code, s0.code, s1.code);
                    lemma_quiet_chain(st.code, s1.code, c_expr(st, t)->Some_0.code);
                },
                None => {},
            }
        },
        Token::DotChain(head, chain) => {
            if chain@.len() == 1 {
                match chain@[0] {
                    Token::Call(method, args) => {
                        lemma_expr_code(st, *head);
                        match c_expr(st, *head) {
                            Some(s1) => {
                                let s2 = emit(s1, InstructionView::LoadMethod(crate::token::text(*method)));
                                lemma_exprs_code(s2, args@);
                                match c_exprs(s2, args@) {
                                    Some(s3) => {
                                        if args@.len() < usize::MAX {
                                            lemma_emit_plain(s3, InstructionView::Call(args@.len() + 1));
                                            lemma_quiet_chain(st.code, s1.code, s2.code);
                                            lemma_quiet_chain(st.code, s2.code, s3.code);
                                            lemma_quiet_chain(st.code, s3.code, c_expr(st, t)->Some_0.code);
                                        }
                                    },
                                    None => {},
                                }
                            },
                            None => {},
                        }
                    },
                    _ => {},
                }
            }
        },
        Token::NewObject(class, args) => {
            lemma_exprs_code(st, args@);
            match c_exprs(st, args@) {
                Some(s1) => {
                    lemma_emit_plain(s1, InstructionView::CreateObject(class@, args@.len()));
                    lemma_quiet_chain(st.code, s1.code, c_expr(st, t)->Some_0.code);
                },
                None => {},
            }
        },
        Token::Eq(a, b) | Token::Ne(a, b) | Token::Lt(a, b) | Token::Le(a, b) | Token::Gt(a, b)
        | Token::Ge(a, b) | Token::Add(a, b) | Token::Sub(a, b) | Token::Mul(a, b) | Token::Div(a, b)
        | Token::Pow(a, b) => {
            lemma_expr_code(st, *a);
            match c_expr(st, *a) {
                Some(s1) => {
                    lemma_expr_code(s1, *b);
                    match c_expr(s1, *b) {
                        Some(s2) => {
                            lemma_quiet_chain(st.code, s1.code, s2.code);
                            match c_expr(st, t) {
                                Some(s3) => {
                                    assert(s3.code == s2.code.push(s3.code.last()));
                                    assert(jump_target(s3.code, s2.code.len() as int) is None);
                                    assert(adds_quiet(s2.code, s3.code));
                                    lemma_quiet_chain(st.code, s2.code, s3.code);
                                },
                                None => {},
                            }
                        },
                        None => {},
                    }
                },
                None => {},
            }
        },
        _ => {},
    }
}

proof fn lemma_exprs_code(st: CState, es: Seq<Token>)
    ensures
        c_exprs(st, es) matches Some(s2) ==> adds_quiet(st.code, s2.code),
    decreases es, 0nat,
{
    if es.len() > 0 {
        lemma_expr_code(st, es[0]);
        match c_expr(st, es[0]) {
            Some(s1) => {
                lemma_exprs_code(s1, es.drop_first());
                match c_exprs(s1, es.drop_first()) {
                    Some(s2) => lemma_quiet_chain(st.code, s1.code, s2.code),
                    None => {},
                }
            },
            None => {},
        }
    }
}

proof fn lemma_pairs_code(st: CState, ps: Seq<Token>)
    ensures
        c_pairs(st, ps) matches Some(s2) ==> adds_quiet(st.code, s2.code),
    decreases ps, 0nat,
{
    if ps.len() > 0 {
        match ps[0] {
            Token::KeyValuePair(k, v) => {
                let s0 = emit(st, InstructionView::PushString(k@));
                lemma_expr_code(s0, *v);
                match c_expr(s0, *v) {
                    Some(s1) => {
                        lemma_quiet_chain(st.code, s0.code, s1.code);
                        lemma_pairs_code(s1, ps.drop_first());
                        match c_pairs(s1, ps.drop_first()) {
                            Some(s2) => lemma_quiet_chain(st.code, s1.code, s2.code),
                            None => {},
                        }
                    },
                    None => {},
                }
            },
            _ => {},
        }
    }
}

/// The jumps of a statement's code land inside that code or just past its
/// end, and each conditional jump moves forward within the statement.
pub proof fn lemma_statement_jumps(st: CState, t: Token)
    ensures
        c_stmt(st, t) matches Some(s2) ==> adds_contained(st.code, s2.code),
    decreases t, 1nat,
{
    let lo = st.code.len() as int;
    match t {
        Token::Variable(name, e) => match declare(st, crate::token::text(*name)) {
            Some((s1, slot)) => {
                lemma_expr_code(s1, *e);
                match c_expr(s1, *e) {
                    Some(s2) => {
                        lemma_emit_plain(s2, InstructionView::MoveToLocalVariable(slot));
                        lemma_quiet_chain(st.code, s2.code, c_stmt(st, t)->Some_0.code);
                        lemma_quiet_contained(st.code, c_stmt(st, t)->Some_0.code);
                    },
                    None => {},
                }
            },
            None => {},
        },
        Token::Assign(left, right) => match *left {
            Token::Identifier(n) => match crate::lowering::position(st.vars, n@) {
                Some(slot) => {
                    lemma_expr_code(st, *right);
                    match c_expr(st, *right) {
                        Some(s2) => {
                            lemma_emit_plain(s2, InstructionView::MoveToLocalVariable(slot));
                            lemma_quiet_chain(st.code, s2.code, c_stmt(st, t)->Some_0.code);
                            lemma_quiet_contained(st.code, c_stmt(st, t)->Some_0.code);
                        },
                        None => {},
                    }
                },
                None => {},
            },
            Token::CollectionIndex(target, index) => match *target {
                Token::Identifier(n) => match crate::lowering::position(st.vars, n@) {
                    Some(slot) => {
                        let s0 = emit(st, InstructionView::LoadLocalVariable(slot));
                        lemma_emit_plain(st, InstructionView::LoadLocalVariable(slot));
                        lemma_expr_code(s0, *right);
                        match c_expr(s0, *right) {
                            Some(s2) => {
                                lemma_expr_code(s2, *index);
                                match c_expr(s2, *index) {
                                    Some(s3) => {
                                        let s4 = emit(s3, InstructionView::SetCollectionItem);
                                        lemma_emit_plain(s3, InstructionView::SetCollectionItem);
                                        lemma_emit_plain(s4, InstructionView::MoveToLocalVariable(slot));
                                        lemma_quiet_chain(st.code, s0.code, s2.code);
                                        lemma_quiet_chain(st.code, s2.code, s3.code);
                                        lemma_quiet_chain(st.code, s3.code, s4.code);
                                        lemma_quiet_chain(st.code, s4.code, c_stmt(st, t)->Some_0.code);
                                        lemma_quiet_contained(st.code, c_stmt(st, t)->Some_0.code);
                                    },
                                    None => {},
                                }
                            },
                            None => {},
                        }
                    },
                    None => {},
                },
                _ => {},
            },
            _ => {},
        },
        Token::Call(_, _) | Token::DotChain(_, _) => {
            lemma_expr_code(st, t);
            match c_expr(st, t) {
                Some(s2) => lemma_quiet_contained(st.code, s2.code),
                None => {},
            }
        },
        Token::Return(e) => {
            lemma_expr_code(st, *e);
            match c_expr(st, *e) {
                Some(s2) => {
                    lemma_emit_plain(s2, InstructionView::Return(true));
                    lemma_quiet_chain(st.code, s2.code, c_stmt(st, t)->Some_0.code);
                    lemma_quiet_contained(st.code, c_stmt(st, t)->Some_0.code);
                },
                None => {},
            }
        },
        Token::WhileLoop(cond, body) => {
            lemma_expr_code(st, *cond);
            match c_expr(st, *cond) {
                Some(s1) => {
                    let p = s1.code.len() as int;
                    let s1b = emit(s1, placeholder());
                    lemma_statements_jumps(s1b, body@);
                    match c_stmts(s1b, body@) {
                        Some(s2) => {
                            let s3 = emit(s2, InstructionView::JumpBackward((s2.code.len() - lo) as nat));
                            let e = s3.code.len() as int;
                            let f = s3.code.update(p, InstructionView::JumpIfFalse((e - p) as nat));
                            assert(c_stmt(st, t)->Some_0.code == f);
                            // the condition
                            lemma_quiet_frame(s1.code, s3.code, lo, p);
                            lemma_quiet_update(s3.code, p, InstructionView::JumpIfFalse((e - p) as nat), lo, p);
                            lemma_quiet_lands(f, lo, p, lo, e);
                            // the conditional jump
                            lemma_single(f, p, lo, e);
                            // the body
                            lemma_lands_frame(s2.code, s3.code, p + 1, s2.code.len() as int, p + 1, s2.code.len() as int);
                            lemma_lands_update(s3.code, p, InstructionView::JumpIfFalse((e - p) as nat), p + 1, s2.code.len() as int, p + 1, s2.code.len() as int);
                            lemma_lands_widen(f, p + 1, s2.code.len() as int, p + 1, s2.code.len() as int, lo, e);
                            // the jump back
                            lemma_single(f, s2.code.len() as int, lo, e);
                            lemma_lands_join(f, lo, p, p + 1, lo, e);
                            lemma_lands_join(f, lo, p + 1, s2.code.len() as int, lo, e);
                            lemma_lands_join(f, lo, s2.code.len() as int, e, lo, e);
                        },
                        None => {},
                    }
                },
                None => {},
            }
        },
        Token::ForI(var, start, step, end, body) => match declare(st, crate::token::text(*var)) {
            Some((s0, slot)) => {
                lemma_expr_code(s0, *end);
                match c_expr(s0, *end) {
                    Some(s1) => {
                        lemma_expr_code(s1, *step);
                        match c_expr(s1, *step) {
                            Some(s2) => {
                                lemma_expr_code(s2, *start);
                                match c_expr(s2, *start) {
                                    Some(s3) => {
                                        lemma_loop_jumps(s3, slot, body@);
                                        lemma_quiet_chain(st.code, s1.code, s2.code);
                                        lemma_quiet_chain(st.code, s2.code, s3.code);
                                        lemma_quiet_contained(st.code, s3.code);
                                        match c_loop(s3, slot, body@) {
                                            Some(s4) => lemma_contained_chain(st.code, s3.code, s4.code),
                                            None => {},
                                        }
                                    },
                                    None => {},
                                }
                            },
                            None => {},
                        }
                    },
                    None => {},
                }
            },
            None => {},
        },
        Token::ForEach(var, collection, body) => match declare(st, crate::token::text(*var)) {
            Some((s0, slot)) => {
                lemma_expr_code(s0, *collection);
                match c_expr(s0, *collection) {
                    Some(s1) => {
                        let s2 = emit(s1, InstructionView::PushInteger(1));
                        let s3 = emit(s2, InstructionView::PushInteger(0));
                        lemma_emit_plain(s1, InstructionView::PushInteger(1));
                        lemma_emit_plain(s2, InstructionView::PushInteger(0));
                        lemma_quiet_chain(st.code, s1.code, s2.code);
                        lemma_quiet_chain(st.code, s2.code, s3.code);
                        lemma_quiet_contained(st.code, s3.code);
                        lemma_loop_jumps(s3, slot, body@);
                        match c_loop(s3, slot, body@) {
                            Some(s4) => lemma_contained_chain(st.code, s3.code, s4.code),
                            None => {},
                        }
                    },
                    None => {},
                }
            },
            None => {},
        },
        Token::IfElse(cond, then_body, else_body) => {
            lemma_expr_code(st, *cond);
            match c_expr(st, *cond) {
                Some(s1) => {
                    let at_else = s1.code.len() as int;
                    let s1b = emit(s1, placeholder());
                    lemma_statements_jumps(s1b, then_body@);
                    match c_stmts(s1b, then_body@) {
                        Some(s2) => {
                            let at_end = s2.code.len() as int;
                            let s3 = emit(s2, placeholder());
                            let s4o = match else_body {
                                Some(e) => c_stmts(s3, e@),
                                None => Some(s3),
                            };
                            match else_body {
                                Some(e) => lemma_statements_jumps(s3, e@),
                                None => {},
                            }
                            match s4o {
                                Some(s4) => {
                                    let e = s4.code.len() as int;
                                    let j1 = InstructionView::JumpIfFalse((at_end + 1 - at_else) as nat);
                                    let j2 = InstructionView::JumpForward((e - at_end) as nat);
                                    let g = s4.code.update(at_else, j1);
                                    let f = g.update(at_end, j2);
                                    assert(c_stmt(st, t)->Some_0.code == f);
                                    // the condition
                                    lemma_quiet_frame(s1.code, s3.code, lo, at_else);
                                    lemma_quiet_frame(s3.code, s4.code, lo, at_else);
                                    lemma_quiet_update(s4.code, at_else, j1, lo, at_else);
                                    lemma_quiet_update(g, at_end, j2, lo, at_else);
                                    lemma_quiet_lands(f, lo, at_else, lo, e);
                                    lemma_single(f, at_else, lo, e);
                                    // the then branch
                                    lemma_lands_frame(s2.code, s3.code, at_else + 1, at_end, at_else + 1, at_end);
                                    lemma_lands_frame(s3.code, s4.code, at_else + 1, at_end, at_else + 1, at_end);
                                    lemma_lands_update(s4.code, at_else, j1, at_else + 1, at_end, at_else + 1, at_end);
                                    lemma_lands_update(g, at_end, j2, at_else + 1, at_end, at_else + 1, at_end);
                                    lemma_lands_widen(f, at_else + 1, at_end, at_else + 1, at_end, lo, e);
                                    lemma_single(f, at_end, lo, e);
                                    // the else branch
                                    lemma_lands_update(s4.code, at_else, j1, at_end + 1, e, at_end + 1, e);
                                    lemma_lands_update(g, at_end, j2, at_end + 1, e, at_end + 1, e);
                                    lemma_lands_widen(f, at_end + 1, e, at_end + 1, e, lo, e);
                                    lemma_lands_join(f, lo, at_else, at_else + 1, lo, e);
                                    lemma_lands_join(f, lo, at_else + 1, at_end, lo, e);
                                    lemma_lands_join(f, lo, at_end, at_end + 1, lo, e);
                                    lemma_lands_join(f, lo, at_end + 1, e, lo, e);
                                },
                                None => {},
                            }
                        },
                        None => {},
                    }
                },
                None => {},
            }
        },
        _ => {},
    }
}

proof fn lemma_statements_jumps(st: CState, ts: Seq<Token>)
    ensures
        c_stmts(st, ts) matches Some(s2) ==> adds_contained(st.code, s2.code),
    decreases ts, 1nat,
{
    if ts.len() == 0 {
        lemma_quiet_contained(st.code, st.code);
    } else {
        lemma_statement_jumps(st, ts[0]);
        match c_stmt(st, ts[0]) {
            Some(s1) => {
                lemma_statements_jumps(s1, ts.drop_first());
                match c_stmts(s1, ts.drop_first()) {
                    Some(s2) => lemma_contained_chain(st.code, s1.code, s2.code),
                    None => {},
                }
            },
            None => {},
        }
    }
}

proof fn lemma_loop_jumps(st: CState, slot: nat, body: Seq<Token>)
    ensures
        c_loop(st, slot, body) matches Some(s2) ==> adds_contained(st.code, s2.code),
    decreases body, 2nat,
{
    let lo = st.code.len() as int;
    let s1 = emit(st, InstructionView::IteratorStart);
    let p = s1.code.len() as int;
    let s1b = emit(s1, placeholder());
    lemma_statements_jumps(s1b, body);
    match c_stmts(s1b, body) {
        Some(s2) => {
            let s3 = emit(s2, InstructionView::JumpBackward((s2.code.len() - p) as nat));
            let e = s3.code.len() as int;
            let j = InstructionView::IteratorNext(slot, (e - p) as nat);
            let f = s3.code.update(p, j);
            assert(c_loop(st, slot, body)->Some_0.code == f);
            lemma_single(f, lo, lo, e);
            lemma_single(f, p, lo, e);
            lemma_lands_frame(s2.code, s3.code, p + 1, s2.code.len() as int, p + 1, s2.code.len() as int);
            lemma_lands_update(s3.code, p, j, p + 1, s2.code.len() as int, p + 1, s2.code.len() as int);
            lemma_lands_widen(f, p + 1, s2.code.len() as int, p + 1, s2.code.len() as int, lo, e);
            lemma_single(f, s2.code.len() as int, lo, e);
            lemma_lands_join(f, lo, p, p + 1, lo, e);
            lemma_lands_join(f, lo, p + 1, s2.code.len() as int, lo, e);
            lemma_lands_join(f, lo, s2.code.len() as int, e, lo, e);
        },
        None => {},
    }
}

/// A compiled function ends in a return, and each of its jumps lands on
/// one of its own instructions: run from its start, it leaves only by a
/// return.
pub proof fn lemma_function_ends_in_return(owner: Seq<char>, params: Seq<Seq<char>>, body: Seq<Token>)
    ensures
        c_function(owner, params, body) matches Some((code, _)) ==> {
            &&& code.len() > 0
            &&& code.last() is Return
            &&& lands_in(code, 0, code.len() as int, 0, code.len() - 1)
        },
{
    let st = CState {
        code: Seq::empty(),
        vars: Seq::empty(),
        lambdas: Seq::empty(),
        owner,
        count: 0,
    };
    lemma_declare_all_code(st, params);
    match declare_all(st, params) {
        Some(s1) => {
            lemma_statements_jumps(s1, body);
            match c_stmts(s1, body) {
                Some(s2) => {
                    let n = s2.code.len() as int;
                    let code = finish(s2.code);
                    if needs_return(s2.code) {
                        lemma_lands_frame(s2.code, code, 0, n, 0, n);
                        lemma_single(code, n, 0, n);
                        lemma_lands_join(code, 0, n, n + 1, 0, n);
                    } else {
                        assert forall|i: int| 0 <= i < n implies (#[trigger] jump_target(code, i) matches Some(
                            t,
                        ) ==> 0 <= t <= n - 1) && (code[i] is JumpIfFalse ==> i < i + code[i]->JumpIfFalse_0
                            <= n - 1) by {
                            assert(jump_target(code, i) != Some(n));
                        }
                    }
                },
                None => {},
            }
        },
        None => {},
    }
}

} // verus!
