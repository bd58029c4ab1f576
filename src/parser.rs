use vstd::prelude::*;

use crate::lexer::{lex_from, lex_view, lex_views, tokenize, LexKind, LexView, Lexeme, Symbol};
use crate::token::Token;

verus! {

/// The forms that may stand at the top of a script.
pub open spec fn top_level(t: Token) -> bool {
    t is Comment || t is Constant || t is Class || t is Function
}

/// The lexemes without their glued flags.
pub open spec fn unglued(lv: Seq<(LexView, bool)>) -> Seq<LexView> {
    lv.map_values(|p: (LexView, bool)| p.0)
}

/// What each lexeme is, without its glued flag.
pub open spec fn kinds(ls: Seq<Lexeme>) -> Seq<LexView> {
    unglued(lex_views(ls))
}

pub open spec fn at(s: Seq<LexView>, i: int, k: LexView) -> bool {
    0 <= i < s.len() && s[i] == k
}

/// The position after lexeme `k` at `i`, if it is there.
pub open spec fn expect(s: Seq<LexView>, i: int, k: LexView) -> Option<int> {
    if at(s, i, k) {
        Some(i + 1)
    } else {
        None
    }
}

pub open spec fn keyword(w: Seq<char>) -> LexView {
    LexView::Word(w)
}

pub open spec fn close_after(o: Option<int>, s: Seq<LexView>, x: Symbol) -> Option<int> {
    match o {
        Some(j) => expect(s, j, LexView::Sym(x)),
        None => None,
    }
}

/// Where the written form of `t` ends, when the lexemes `s` from `i` on
/// spell it: each node of the tree stands for the lexemes it was read from,
/// in order, and no other. A `var` without a value and a counted loop
/// without `step` stand for their short forms, with a null value and a step
/// of 1.
pub open spec fn span(t: Token, s: Seq<LexView>, i: int) -> Option<int>
    decreases t, 2nat,
{
    match t {
        Token::Null => expect(s, i, keyword("null"@)),
        Token::Bool(b) => expect(s, i, keyword(if b { "true"@ } else { "false"@ })),
        Token::Integer(v) => if at(s, i, LexView::Sym(Symbol::Minus)) {
            if v <= 0 && at(s, i + 1, LexView::Number(-v)) {
                Some(i + 2)
            } else {
                None
            }
        } else if v >= 0 {
            expect(s, i, LexView::Number(v as int))
        } else {
            None
        },
        Token::Float(f) => if at(s, i, LexView::Sym(Symbol::Minus)) {
            if f@.len() > 0 && f@[0] == '-' && at(s, i + 1, LexView::Decimal(f@.drop_first())) {
                Some(i + 2)
            } else {
                None
            }
        } else {
            expect(s, i, LexView::Decimal(f@))
        },
        Token::String(x) => expect(s, i, LexView::Text(x@)),
        Token::Identifier(n) => expect(s, i, keyword(n@)),
        Token::Comment(r) => expect(s, i, LexView::Remark(r@)),
        Token::Array(es) => match expect(s, i, LexView::Sym(Symbol::LBracket)) {
            Some(j) => close_after(span_sep(es@, s, j), s, Symbol::RBracket),
            None => None,
        },
        Token::Dictionary(ps) => match expect(s, i, LexView::Sym(Symbol::LBrace)) {
            Some(j) => close_after(span_sep(ps@, s, j), s, Symbol::RBrace),
            None => None,
        },
        Token::KeyValuePair(k, v) => if at(s, i, LexView::Text(k@)) && at(s, i + 1, LexView::Sym(Symbol::Colon)) {
            span(*v, s, i + 2)
        } else {
            None
        },
        Token::Call(name, args) => match span(*name, s, i) {
            Some(j) => match expect(s, j, LexView::Sym(Symbol::LParen)) {
                Some(k) => close_after(span_sep(args@, s, k), s, Symbol::RParen),
                None => None,
            },
            None => None,
        },
        Token::CollectionIndex(target, index) => match span(*target, s, i) {
            Some(j) => match expect(s, j, LexView::Sym(Symbol::LBracket)) {
                Some(k) => close_after(span(*index, s, k), s, Symbol::RBracket),
                None => None,
            },
            None => None,
        },
        Token::DotChain(head, items) => match span(*head, s, i) {
            Some(j) => span_chain(items@, s, j),
            None => None,
        },
        Token::NewObject(c, args) => if at(s, i, keyword("new"@)) && at(s, i + 1, keyword(c@)) && at(
            s,
            i + 2,
            LexView::Sym(Symbol::LParen),
        ) {
            close_after(span_sep(args@, s, i + 3), s, Symbol::RParen)
        } else {
            None
        },
        Token::AnonFunction(params, body) => if at(s, i, keyword("function"@)) && at(
            s,
            i + 1,
            LexView::Sym(Symbol::LParen),
        ) {
            match close_after(span_sep(params@, s, i + 2), s, Symbol::RParen) {
                Some(j) => match span_seq(body@, s, j) {
                    Some(k) => expect(s, k, keyword("end"@)),
                    None => None,
                },
                None => None,
            }
        } else {
            None
        },
        Token::Eq(a, b) => match span(*a, s, i) {
            Some(j) => if at(s, j, LexView::Sym(Symbol::Equal)) {
                span(*b, s, j + 1)
            } else {
                None
            },
            None => None,
        },
        Token::Ne(a, b) => match span(*a, s, i) {
            Some(j) => if at(s, j, LexView::Sym(Symbol::NotEqual)) {
                span(*b, s, j + 1)
            } else {
                None
            },
            None => None,
        },
        Token::Lt(a, b) => match span(*a, s, i) {
            Some(j) => if at(s, j, LexView::Sym(Symbol::Less)) {
                span(*b, s, j + 1)
            } else {
                None
            },
            None => None,
        },
        Token::Le(a, b) => match span(*a, s, i) {
            Some(j) => if at(s, j, LexView::Sym(Symbol::LessEqual)) {
                span(*b, s, j + 1)
            } else {
                None
            },
            None => None,
        },
        Token::Gt(a, b) => match span(*a, s, i) {
            Some(j) => if at(s, j, LexView::Sym(Symbol::Greater)) {
                span(*b, s, j + 1)
            } else {
                None
            },
            None => None,
        },
        Token::Ge(a, b) => match span(*a, s, i) {
            Some(j) => if at(s, j, LexView::Sym(Symbol::GreaterEqual)) {
                span(*b, s, j + 1)
            } else {
                None
            },
            None => None,
        },
        Token::Add(a, b) => match span(*a, s, i) {
            Some(j) => if at(s, j, LexView::Sym(Symbol::Plus)) {
                span(*b, s, j + 1)
            } else {
                None
            },
            None => None,
        },
        Token::Sub(a, b) => match span(*a, s, i) {
            Some(j) => if at(s, j, LexView::Sym(Symbol::Minus)) {
                span(*b, s, j + 1)
            } else {
                None
            },
            None => None,
        },
        Token::Mul(a, b) => match span(*a, s, i) {
            Some(j) => if at(s, j, LexView::Sym(Symbol::Star)) {
                span(*b, s, j + 1)
            } else {
                None
            },
            None => None,
        },
        Token::Div(a, b) => match span(*a, s, i) {
            Some(j) => if at(s, j, LexView::Sym(Symbol::Slash)) {
                span(*b, s, j + 1)
            } else {
                None
            },
            None => None,
        },
        Token::Pow(a, b) => match span(*a, s, i) {
            Some(j) => if at(s, j, LexView::Sym(Symbol::Caret)) {
                span(*b, s, j + 1)
            } else {
                None
            },
            None => None,
        },
        Token::Variable(n, e) => if at(s, i, keyword("var"@)) {
            match span(*n, s, i + 1) {
                Some(j) => if at(s, j, LexView::Sym(Symbol::Assign)) {
                    span(*e, s, j + 1)
                } else if *e is Null {
                    Some(j)
                } else {
                    None
                },
                None => None,
            }
        } else {
            None
        },
        Token::Assign(l, r) => match span(*l, s, i) {
            Some(j) => if at(s, j, LexView::Sym(Symbol::Assign)) {
                span(*r, s, j + 1)
            } else {
                None
            },
            None => None,
        },
        Token::Return(e) => if at(s, i, keyword("return"@)) {
            span(*e, s, i + 1)
        } else {
            None
        },
        Token::WhileLoop(c, body) => if at(s, i, keyword("while"@)) {
            match span(*c, s, i + 1) {
                Some(j) => block(body@, s, j),
                None => None,
            }
        } else {
            None
        },
        Token::ForEach(v, c, body) => if at(s, i, keyword("for"@)) {
            match span(*v, s, i + 1) {
                Some(j) => if at(s, j, keyword("in"@)) {
                    match span(*c, s, j + 1) {
                        Some(k) => block(body@, s, k),
                        None => None,
                    }
                } else {
                    None
                },
                None => None,
            }
        } else {
            None
        },
        Token::ForI(v, start, step, end, body) => if at(s, i, keyword("for"@)) {
            match span(*v, s, i + 1) {
                Some(j) => if at(s, j, LexView::Sym(Symbol::Assign)) {
                    match span(*start, s, j + 1) {
                        Some(k) => if at(s, k, keyword("to"@)) {
                            match span(*end, s, k + 1) {
                                Some(m) => {
                                    let stepped = if at(s, m, keyword("step"@)) {
                                        span(*step, s, m + 1)
                                    } else if *step matches Token::Integer(1) {
                                        Some(m)
                                    } else {
                                        None
                                    };
                                    match stepped {
                                        Some(m2) => block(body@, s, m2),
                                        None => None,
                                    }
                                },
                                None => None,
                            }
                        } else {
                            None
                        },
                        None => None,
                    }
                } else {
                    None
                },
                None => None,
            }
        } else {
            None
        },
        Token::IfElse(c, then_body, else_body) => if at(s, i, keyword("if"@)) {
            match span(*c, s, i + 1) {
                Some(j) => if at(s, j, keyword("then"@)) {
                    match span_seq(then_body@, s, j + 1) {
                        Some(k) => match else_body {
                            Some(e) => if at(s, k, keyword("else"@)) {
                                match span_seq(e@, s, k + 1) {
                                    Some(m) => expect(s, m, keyword("end"@)),
                                    None => None,
                                }
                            } else {
                                None
                            },
                            None => expect(s, k, keyword("end"@)),
                        },
                        None => None,
                    }
                } else {
                    None
                },
                None => None,
            }
        } else {
            None
        },
        Token::Function(class, name, params, body) => if at(s, i, keyword("function"@)) {
            let j = match class {
                Some(c) => if at(s, i + 1, keyword(c@)) && at(s, i + 2, LexView::Sym(Symbol::Colon)) && at(
                    s,
                    i + 3,
                    keyword(name@),
                ) {
                    Some(i + 4)
                } else {
                    None
                },
                None => expect(s, i + 1, keyword(name@)),
            };
            match j {
                Some(j) => if at(s, j, LexView::Sym(Symbol::LParen)) {
                    match close_after(span_sep(params@, s, j + 1), s, Symbol::RParen) {
                        Some(k) => match span_seq(body@, s, k) {
                            Some(m) => expect(s, m, keyword("end"@)),
                            None => None,
                        },
                        None => None,
                    }
                } else {
                    None
                },
                None => None,
            }
        } else {
            None
        },
        Token::Class(name, items) => if at(s, i, keyword("class"@)) && at(s, i + 1, keyword(name@)) {
            match span_seq(items@, s, i + 2) {
                Some(k) => expect(s, k, keyword("end"@)),
                None => None,
            }
        } else {
            None
        },
        Token::Constant(n, e) => if at(s, i, keyword("const"@)) {
            match span(*n, s, i + 1) {
                Some(j) => if at(s, j, LexView::Sym(Symbol::Assign)) {
                    span(*e, s, j + 1)
                } else {
                    None
                },
                None => None,
            }
        } else {
            None
        },
        _ => None,
    }
}

/// Where the written forms of `ts`, separated by commas, end.
pub open spec fn span_sep(ts: Seq<Token>, s: Seq<LexView>, i: int) -> Option<int>
    decreases ts, 0nat,
{
    if ts.len() == 0 {
        Some(i)
    } else {
        match span_sep(ts.drop_last(), s, i) {
            Some(j) => if ts.len() == 1 {
                span(ts.last(), s, j)
            } else if at(s, j, LexView::Sym(Symbol::Comma)) {
                span(ts.last(), s, j + 1)
            } else {
                None
            },
            None => None,
        }
    }
}

/// Where the written forms of `ts`, one after the other, end.
pub open spec fn span_seq(ts: Seq<Token>, s: Seq<LexView>, i: int) -> Option<int>
    decreases ts, 0nat,
{
    if ts.len() == 0 {
        Some(i)
    } else {
        match span_seq(ts.drop_last(), s, i) {
            Some(j) => span(ts.last(), s, j),
            None => None,
        }
    }
}

/// Where the links of a dot chain, each after a dot, end.
pub open spec fn span_chain(ts: Seq<Token>, s: Seq<LexView>, i: int) -> Option<int>
    decreases ts, 0nat,
{
    if ts.len() == 0 {
        Some(i)
    } else {
        match span_chain(ts.drop_last(), s, i) {
            Some(j) => if at(s, j, LexView::Sym(Symbol::Dot)) {
                span(ts.last(), s, j + 1)
            } else {
                None
            },
            None => None,
        }
    }
}

/// `do`, the statements of `body`, and `end`.
pub open spec fn block(body: Seq<Token>, s: Seq<LexView>, i: int) -> Option<int>
    decreases body, 1nat,
{
    if at(s, i, keyword("do"@)) {
        match span_seq(body, s, i + 1) {
            Some(k) => expect(s, k, keyword("end"@)),
            None => None,
        }
    } else {
        None
    }
}

/// The precedence level of a binary operator node: comparisons 0, `+ -`
/// 1, `* /` 2, `^` 3; any other node binds tightest, at 4.
pub open spec fn level_of(t: Token) -> int {
    match t {
        Token::Eq(_, _) => 0,
        Token::Ne(_, _) => 0,
        Token::Lt(_, _) => 0,
        Token::Le(_, _) => 0,
        Token::Gt(_, _) => 0,
        Token::Ge(_, _) => 0,
        Token::Add(_, _) => 1,
        Token::Sub(_, _) => 1,
        Token::Mul(_, _) => 2,
        Token::Div(_, _) => 2,
        Token::Pow(_, _) => 3,
        _ => 4,
    }
}

/// The level of an operator symbol.
pub open spec fn op_level(s: Symbol) -> int {
    if s == Symbol::Equal {
        0
    } else if s == Symbol::NotEqual {
        0
    } else if s == Symbol::Less {
        0
    } else if s == Symbol::LessEqual {
        0
    } else if s == Symbol::Greater {
        0
    } else if s == Symbol::GreaterEqual {
        0
    } else if s == Symbol::Plus {
        1
    } else if s == Symbol::Minus {
        1
    } else if s == Symbol::Star {
        2
    } else if s == Symbol::Slash {
        2
    } else if s == Symbol::Caret {
        3
    } else {
        4
    }
}

/// Binary operators are grouped by precedence and to the left: the left
/// operand of an operator binds at least as tightly, the right one more
/// tightly, down every chain of operators.
pub open spec fn grouped(t: Token) -> bool
    decreases t,
{
    match t {
        Token::Eq(a, b) => level_of(*a) >= 0 && level_of(*b) > 0 && grouped(*a) && grouped(*b),
        Token::Ne(a, b) => level_of(*a) >= 0 && level_of(*b) > 0 && grouped(*a) && grouped(*b),
        Token::Lt(a, b) => level_of(*a) >= 0 && level_of(*b) > 0 && grouped(*a) && grouped(*b),
        Token::Le(a, b) => level_of(*a) >= 0 && level_of(*b) > 0 && grouped(*a) && grouped(*b),
        Token::Gt(a, b) => level_of(*a) >= 0 && level_of(*b) > 0 && grouped(*a) && grouped(*b),
        Token::Ge(a, b) => level_of(*a) >= 0 && level_of(*b) > 0 && grouped(*a) && grouped(*b),
        Token::Add(a, b) => level_of(*a) >= 1 && level_of(*b) > 1 && grouped(*a) && grouped(*b),
        Token::Sub(a, b) => level_of(*a) >= 1 && level_of(*b) > 1 && grouped(*a) && grouped(*b),
        Token::Mul(a, b) => level_of(*a) >= 2 && level_of(*b) > 2 && grouped(*a) && grouped(*b),
        Token::Div(a, b) => level_of(*a) >= 2 && level_of(*b) > 2 && grouped(*a) && grouped(*b),
        Token::Pow(a, b) => level_of(*a) >= 3 && level_of(*b) > 3 && grouped(*a) && grouped(*b),
        _ => true,
    }
}

pub type Parsed = Result<(Token, usize), String>;

pub open spec fn is_word(s: Seq<LexView>, i: int) -> bool {
    0 <= i < s.len() && s[i] is Word
}

/// The operator of precedence `level` at `q`, if one stands there.
pub open spec fn op_at(lv: Seq<(LexView, bool)>, q: int, level: int) -> Option<Symbol> {
    let s = unglued(lv);
    if 0 <= q < s.len() && s[q] is Sym && is_operator(s[q]->Sym_0) && op_level(s[q]->Sym_0) == level {
        Some(s[q]->Sym_0)
    } else {
        None
    }
}

/// Whether the parser accepts an expression at `pos`, and where it ends.
/// The recognizers below decide, lexeme by lexeme, as the parser does; the
/// parser succeeds exactly where they do.
pub open spec fn r_expr(lv: Seq<(LexView, bool)>, pos: int) -> Option<int>
    decreases lv.len() - pos, 8nat,
{
    r_level(lv, pos, 0)
}

pub open spec fn r_level(lv: Seq<(LexView, bool)>, pos: int, level: int) -> Option<int>
    decreases lv.len() - pos, (if 0 <= level <= 3 { 7 - level } else { 0 }),
{
    if level < 0 || level > 3 || pos < 0 || pos > lv.len() {
        None
    } else {
        let first = if level == 3 {
            r_atom(lv, pos)
        } else {
            r_level(lv, pos, level + 1)
        };
        match first {
            Some(q) => if pos < q <= lv.len() {
                r_level_tail(lv, q, level)
            } else {
                None
            },
            None => None,
        }
    }
}

pub open spec fn r_level_tail(lv: Seq<(LexView, bool)>, q: int, level: int) -> Option<int>
    decreases lv.len() - q, 0nat,
{
    if level < 0 || level > 3 || q < 0 || q > lv.len() {
        None
    } else {
        match op_at(lv, q, level) {
            Some(_) => {
                let next = if level == 3 {
                    r_atom(lv, q + 1)
                } else {
                    r_level(lv, q + 1, level + 1)
                };
                match next {
                    Some(q2) => if q + 1 < q2 <= lv.len() {
                        r_level_tail(lv, q2, level)
                    } else {
                        None
                    },
                    None => None,
                }
            },
            None => Some(q),
        }
    }
}

pub open spec fn r_args(lv: Seq<(LexView, bool)>, pos: int, close: Symbol) -> Option<int>
    decreases lv.len() - pos, 9nat,
{
    if pos < 0 || pos > lv.len() {
        None
    } else if at(unglued(lv), pos, LexView::Sym(close)) {
        Some(pos + 1)
    } else {
        match r_expr(lv, pos) {
            Some(q) => if pos < q <= lv.len() {
                r_args_more(lv, q, close)
            } else {
                None
            },
            None => None,
        }
    }
}

pub open spec fn r_args_more(lv: Seq<(LexView, bool)>, end: int, close: Symbol) -> Option<int>
    decreases lv.len() - end, 0nat,
{
    if end < 0 || end > lv.len() {
        None
    } else if at(unglued(lv), end, LexView::Sym(Symbol::Comma)) {
        match r_expr(lv, end + 1) {
            Some(q) => if end + 1 < q <= lv.len() {
                r_args_more(lv, q, close)
            } else {
                None
            },
            None => None,
        }
    } else if at(unglued(lv), end, LexView::Sym(close)) {
        Some(end + 1)
    } else {
        None
    }
}

pub open spec fn r_params(lv: Seq<(LexView, bool)>, pos: int) -> Option<int> {
    if at(unglued(lv), pos, LexView::Sym(Symbol::RParen)) {
        Some(pos + 1)
    } else if is_word(unglued(lv), pos) {
        r_params_more(lv, pos + 1)
    } else {
        None
    }
}

pub open spec fn r_params_more(lv: Seq<(LexView, bool)>, end: int) -> Option<int>
    decreases lv.len() - end,
{
    if end < 0 || end > lv.len() {
        None
    } else if at(unglued(lv), end, LexView::Sym(Symbol::Comma)) {
        if is_word(unglued(lv), end + 1) {
            r_params_more(lv, end + 2)
        } else {
            None
        }
    } else if at(unglued(lv), end, LexView::Sym(Symbol::RParen)) {
        Some(end + 1)
    } else {
        None
    }
}

pub open spec fn r_chain_item(lv: Seq<(LexView, bool)>, pos: int) -> Option<int>
    decreases lv.len() - pos, 0nat,
{
    let s = unglued(lv);
    if !is_word(s, pos) {
        None
    } else if at(s, pos + 1, LexView::Sym(Symbol::LParen)) {
        r_args(lv, pos + 2, Symbol::RParen)
    } else if at(s, pos + 1, LexView::Sym(Symbol::LBracket)) {
        match r_expr(lv, pos + 2) {
            Some(q) => if at(s, q, LexView::Sym(Symbol::RBracket)) {
                Some(q + 1)
            } else {
                None
            },
            None => None,
        }
    } else {
        Some(pos + 1)
    }
}

pub open spec fn r_chain(lv: Seq<(LexView, bool)>, pos: int) -> Option<int>
    decreases lv.len() - pos, 1nat,
{
    match r_chain_item(lv, pos) {
        Some(q1) => if pos < q1 <= lv.len() {
            r_chain_more(lv, q1)
        } else {
            None
        },
        None => None,
    }
}

pub open spec fn r_chain_more(lv: Seq<(LexView, bool)>, q: int) -> Option<int>
    decreases lv.len() - q, 0nat,
{
    if q < 0 || q > lv.len() {
        None
    } else if at(unglued(lv), q, LexView::Sym(Symbol::Dot)) {
        match r_chain_item(lv, q + 1) {
            Some(q2) => if q + 1 < q2 <= lv.len() {
                r_chain_more(lv, q2)
            } else {
                None
            },
            None => None,
        }
    } else {
        Some(q)
    }
}

pub open spec fn r_negative(lv: Seq<(LexView, bool)>, pos: int) -> Option<int> {
    if 0 <= pos && pos + 1 < lv.len() && lv[pos + 1].1 && (match lv[pos + 1].0 {
        LexView::Number(n) => 0 <= n <= 2147483648,
        LexView::Decimal(_) => true,
        _ => false,
    }) {
        Some(pos + 2)
    } else {
        None
    }
}

pub open spec fn r_atom(lv: Seq<(LexView, bool)>, pos: int) -> Option<int>
    decreases lv.len() - pos, 3nat,
{
    let s = unglued(lv);
    if pos < 0 || pos >= s.len() {
        None
    } else {
        match s[pos] {
            LexView::Number(n) => if 0 <= n <= 2147483647 {
                Some(pos + 1)
            } else {
                None
            },
            LexView::Decimal(_) => Some(pos + 1),
            LexView::Text(_) => Some(pos + 1),
            LexView::Sym(Symbol::Minus) => if pos + 1 < s.len() {
                r_negative(lv, pos)
            } else {
                None
            },
            LexView::Sym(Symbol::LBracket) => r_args(lv, pos + 1, Symbol::RBracket),
            LexView::Sym(Symbol::LBrace) => r_dict(lv, pos + 1),
            LexView::Word(w) => r_word(lv, pos, w),
            _ => None,
        }
    }
}

pub open spec fn r_word(lv: Seq<(LexView, bool)>, pos: int, w: Seq<char>) -> Option<int>
    decreases lv.len() - pos, 2nat,
{
    let s = unglued(lv);
    if w == "null"@ || w == "true"@ || w == "false"@ {
        Some(pos + 1)
    } else if w == "function"@ && at(s, pos + 1, LexView::Sym(Symbol::LParen)) {
        match r_params(lv, pos + 2) {
            Some(q) => if pos + 2 < q <= lv.len() {
                match r_body(lv, q) {
                    Some(q2) => expect(s, q2, keyword("end"@)),
                    None => None,
                }
            } else {
                None
            },
            None => None,
        }
    } else if w == "new"@ && pos + 1 < s.len() {
        if is_word(s, pos + 1) && at(s, pos + 2, LexView::Sym(Symbol::LParen)) {
            r_args(lv, pos + 3, Symbol::RParen)
        } else {
            None
        }
    } else {
        r_chain(lv, pos)
    }
}

pub open spec fn r_pair(lv: Seq<(LexView, bool)>, start: int) -> Option<int>
    decreases lv.len() - start, 0nat,
{
    let s = unglued(lv);
    if 0 <= start < s.len() && s[start] is Text && at(s, start + 1, LexView::Sym(Symbol::Colon)) {
        r_expr(lv, start + 2)
    } else {
        None
    }
}

pub open spec fn r_dict(lv: Seq<(LexView, bool)>, pos: int) -> Option<int>
    decreases lv.len() - pos, 10nat,
{
    if pos < 0 || pos > lv.len() {
        None
    } else if at(unglued(lv), pos, LexView::Sym(Symbol::RBrace)) {
        Some(pos + 1)
    } else {
        match r_pair(lv, pos) {
            Some(q) => if pos < q <= lv.len() {
                r_dict_more(lv, q)
            } else {
                None
            },
            None => None,
        }
    }
}

pub open spec fn r_dict_more(lv: Seq<(LexView, bool)>, end: int) -> Option<int>
    decreases lv.len() - end, 1nat,
{
    if end < 0 || end > lv.len() {
        None
    } else if at(unglued(lv), end, LexView::Sym(Symbol::Comma)) {
        match r_pair(lv, end + 1) {
            Some(q) => if end + 1 < q <= lv.len() {
                r_dict_more(lv, q)
            } else {
                None
            },
            None => None,
        }
    } else if at(unglued(lv), end, LexView::Sym(Symbol::RBrace)) {
        Some(end + 1)
    } else {
        None
    }
}

pub open spec fn r_body(lv: Seq<(LexView, bool)>, pos: int) -> Option<int>
    decreases lv.len() - pos, 12nat,
{
    let s = unglued(lv);
    if pos < 0 || pos >= s.len() {
        None
    } else if at(s, pos, keyword("end"@)) || at(s, pos, keyword("else"@)) {
        Some(pos)
    } else {
        match r_stmt(lv, pos) {
            Some(q) => if pos < q <= lv.len() {
                r_body(lv, q)
            } else {
                None
            },
            None => None,
        }
    }
}

pub open spec fn r_block(lv: Seq<(LexView, bool)>, pos: int) -> Option<int>
    decreases lv.len() - pos, 13nat,
{
    let s = unglued(lv);
    if 0 <= pos && at(s, pos, keyword("do"@)) {
        match r_body(lv, pos + 1) {
            Some(q) => expect(s, q, keyword("end"@)),
            None => None,
        }
    } else {
        None
    }
}

pub open spec fn r_for(lv: Seq<(LexView, bool)>, pos: int) -> Option<int>
    decreases lv.len() - pos, 14nat,
{
    let s = unglued(lv);
    if pos < 0 || !is_word(s, pos) {
        None
    } else if at(s, pos + 1, keyword("in"@)) {
        match r_expr(lv, pos + 2) {
            Some(q) => if pos + 2 < q <= lv.len() {
                r_block(lv, q)
            } else {
                None
            },
            None => None,
        }
    } else if at(s, pos + 1, LexView::Sym(Symbol::Assign)) {
        match r_expr(lv, pos + 2) {
            Some(q1) => if pos + 2 < q1 <= lv.len() && at(s, q1, keyword("to"@)) {
                match r_expr(lv, q1 + 1) {
                    Some(q3) => if q1 + 1 < q3 <= lv.len() {
                        let q4 = if at(s, q3, keyword("step"@)) {
                            r_expr(lv, q3 + 1)
                        } else {
                            Some(q3)
                        };
                        match q4 {
                            Some(q4) => if q3 <= q4 <= lv.len() {
                                r_block(lv, q4)
                            } else {
                                None
                            },
                            None => None,
                        }
                    } else {
                        None
                    },
                    None => None,
                }
            } else {
                None
            },
            None => None,
        }
    } else {
        None
    }
}

pub open spec fn r_if(lv: Seq<(LexView, bool)>, pos: int) -> Option<int>
    decreases lv.len() - pos, 14nat,
{
    let s = unglued(lv);
    match r_expr(lv, pos) {
        Some(q) => if pos < q <= lv.len() && at(s, q, keyword("then"@)) {
            match r_body(lv, q + 1) {
                Some(q2) => {
                    let q3 = if q + 1 <= q2 < lv.len() && at(s, q2, keyword("else"@)) {
                        r_body(lv, q2 + 1)
                    } else {
                        Some(q2)
                    };
                    match q3 {
                        Some(q3) => expect(s, q3, keyword("end"@)),
                        None => None,
                    }
                },
                None => None,
            }
        } else {
            None
        },
        None => None,
    }
}

pub open spec fn r_var(lv: Seq<(LexView, bool)>, pos: int) -> Option<int>
    decreases lv.len() - pos, 14nat,
{
    let s = unglued(lv);
    if pos < 0 || !is_word(s, pos) {
        None
    } else if at(s, pos + 1, LexView::Sym(Symbol::Assign)) {
        r_expr(lv, pos + 2)
    } else {
        Some(pos + 1)
    }
}

/// A chain read at `pos` is a call, or has dots: it can stand as a statement.
pub open spec fn chain_is_statement(lv: Seq<(LexView, bool)>, pos: int) -> bool
    decreases lv.len() - pos, 1nat,
{
    at(unglued(lv), pos + 1, LexView::Sym(Symbol::LParen)) || (r_chain_item(lv, pos) matches Some(q1)
        && at(unglued(lv), q1, LexView::Sym(Symbol::Dot)))
}

pub open spec fn r_stmt(lv: Seq<(LexView, bool)>, pos: int) -> Option<int>
    decreases lv.len() - pos, 11nat,
{
    let s = unglued(lv);
    if pos < 0 || pos >= s.len() {
        None
    } else if s[pos] is Remark {
        Some(pos + 1)
    } else if at(s, pos, keyword("var"@)) {
        r_var(lv, pos + 1)
    } else if at(s, pos, keyword("return"@)) {
        r_expr(lv, pos + 1)
    } else if at(s, pos, keyword("while"@)) {
        match r_expr(lv, pos + 1) {
            Some(q) => if pos + 1 < q <= lv.len() {
                r_block(lv, q)
            } else {
                None
            },
            None => None,
        }
    } else if at(s, pos, keyword("for"@)) {
        r_for(lv, pos + 1)
    } else if at(s, pos, keyword("if"@)) {
        r_if(lv, pos + 1)
    } else {
        match r_chain(lv, pos) {
            Some(q) => if pos < q <= lv.len() && at(s, q, LexView::Sym(Symbol::Assign)) {
                r_expr(lv, q + 1)
            } else if chain_is_statement(lv, pos) {
                Some(q)
            } else {
                None
            },
            None => None,
        }
    }
}

pub open spec fn r_function(lv: Seq<(LexView, bool)>, pos: int) -> Option<int> {
    let s = unglued(lv);
    if 0 <= pos && at(s, pos, keyword("function"@)) && is_word(s, pos + 1) {
        let q1 = if at(s, pos + 2, LexView::Sym(Symbol::Colon)) {
            if is_word(s, pos + 3) {
                Some(pos + 4)
            } else {
                None
            }
        } else {
            Some(pos + 2)
        };
        match q1 {
            Some(q1) => if at(s, q1, LexView::Sym(Symbol::LParen)) {
                match r_params(lv, q1 + 1) {
                    Some(q3) => if q1 + 1 < q3 <= lv.len() {
                        match r_body(lv, q3) {
                            Some(q4) => expect(s, q4, keyword("end"@)),
                            None => None,
                        }
                    } else {
                        None
                    },
                    None => None,
                }
            } else {
                None
            },
            None => None,
        }
    } else {
        None
    }
}

pub open spec fn r_class_items(lv: Seq<(LexView, bool)>, q: int) -> Option<int>
    decreases lv.len() - q,
{
    let s = unglued(lv);
    if q < 0 || q >= s.len() {
        None
    } else if at(s, q, keyword("end"@)) {
        Some(q + 1)
    } else {
        let item = if s[q] is Remark {
            Some(q + 1)
        } else if at(s, q, keyword("var"@)) {
            r_var(lv, q + 1)
        } else {
            r_function(lv, q)
        };
        match item {
            Some(q2) => if q < q2 <= lv.len() {
                r_class_items(lv, q2)
            } else {
                None
            },
            None => None,
        }
    }
}

pub open spec fn r_class(lv: Seq<(LexView, bool)>, pos: int) -> Option<int> {
    if 0 <= pos && is_word(unglued(lv), pos + 1) {
        r_class_items(lv, pos + 2)
    } else {
        None
    }
}

/// Where the top-level form at `q` ends, if the parser accepts one there.
pub open spec fn r_form(lv: Seq<(LexView, bool)>, q: int) -> Option<int> {
    let s = unglued(lv);
    if q < 0 || q >= s.len() {
        None
    } else {
    if s[q] is Remark {
        Some(q + 1)
    } else if at(s, q, keyword("const"@)) {
        if is_word(s, q + 1) && at(s, q + 2, LexView::Sym(Symbol::Assign)) {
            r_expr(lv, q + 3)
        } else {
            None
        }
    } else if at(s, q, keyword("class"@)) {
        r_class(lv, q)
    } else {
        r_function(lv, q)
    }
    }
}

/// Whether the parser accepts the forms from `q` to the end.
pub open spec fn r_forms(lv: Seq<(LexView, bool)>, q: int) -> bool
    decreases lv.len() - q,
{
    let s = unglued(lv);
    if q < 0 || q >= s.len() {
        q == s.len()
    } else {
        let form = r_form(lv, q);
        match form {
            Some(q2) => q < q2 <= lv.len() && r_forms(lv, q2),
            None => false,
        }
    }
}

/// Where a parse result and a recognizer agree: success at the same end,
/// or failure on both sides.
pub open spec fn agrees(r: Parsed, o: Option<int>) -> bool {
    match r {
        Ok((_, q)) => o == Some(q as int),
        Err(_) => o is None,
    }
}

pub open spec fn agrees_list(r: Result<(Vec<Token>, usize), String>, o: Option<int>) -> bool {
    match r {
        Ok((_, q)) => o == Some(q as int),
        Err(_) => o is None,
    }
}

/// The parse advanced from `pos`, and the tree it built is spelled by the
/// lexemes it went over.
pub open spec fn spelled(ls: Seq<Lexeme>, r: Parsed, pos: int) -> bool {
    r matches Ok((t, q)) ==> pos < q <= ls.len() && span(t, kinds(ls), pos) == Some(q as int)
}

proof fn lemma_kind_at(ls: Seq<Lexeme>, i: int)
    requires
        0 <= i < ls.len(),
    ensures
        kinds(ls)[i] == lex_view(ls[i]).0,
        kinds(ls).len() == ls.len(),
{
}

fn same_text(a: &String, w: &str) -> (r: bool)
    ensures
        r == (a@ == w@),
{
    let s = a.as_str();
    let n = s.unicode_len();
    if n != w.unicode_len() {
        return false;
    }
    let mut i: usize = 0;
    while i < n
        invariant
            n == s@.len(),
            n == w@.len(),
            s@ == a@,
            i <= n,
            forall|k: int| 0 <= k < i ==> s@[k] == w@[k],
        decreases n - i,
    {
        if s.get_char(i) != w.get_char(i) {
            return false;
        }
        i = i + 1;
    }
    assert(s@ =~= w@);
    true
}

fn sym_at(ls: &Vec<Lexeme>, pos: usize, s: Symbol) -> (r: bool)
    ensures
        r == at(kinds(ls@), pos as int, LexView::Sym(s)),
{
    if pos < ls.len() {
        proof {
            lemma_kind_at(ls@, pos as int);
        }
        match &ls[pos].kind {
            LexKind::Sym(t) => *t == s,
            _ => false,
        }
    } else {
        false
    }
}

fn keyword_at(ls: &Vec<Lexeme>, pos: usize, w: &str) -> (r: bool)
    ensures
        r == at(kinds(ls@), pos as int, keyword(w@)),
{
    if pos < ls.len() {
        proof {
            lemma_kind_at(ls@, pos as int);
        }
        match &ls[pos].kind {
            LexKind::Word(t) => same_text(t, w),
            _ => false,
        }
    } else {
        false
    }
}

fn word_at(ls: &Vec<Lexeme>, pos: usize) -> (r: Option<String>)
    ensures
        r is None ==> !is_word(kinds(ls@), pos as int),
        r matches Some(w) ==> at(kinds(ls@), pos as int, keyword(w@)),
{
    if pos < ls.len() {
        proof {
            lemma_kind_at(ls@, pos as int);
        }
        match &ls[pos].kind {
            LexKind::Word(t) => Some(t.clone()),
            _ => None,
        }
    } else {
        None
    }
}

fn expect_keyword(ls: &Vec<Lexeme>, pos: usize, w: &str) -> (r: Result<usize, String>)
    requires
        ls@.len() <= usize::MAX,
    ensures
        r is Err ==> !at(kinds(ls@), pos as int, keyword(w@)),
        r matches Ok(q) ==> q == pos + 1 && at(kinds(ls@), pos as int, keyword(w@)),
{
    if keyword_at(ls, pos, w) {
        Ok(pos + 1)
    } else {
        Err("expected a keyword".to_owned())
    }
}

fn expect_sym(ls: &Vec<Lexeme>, pos: usize, s: Symbol) -> (r: Result<usize, String>)
    requires
        ls@.len() <= usize::MAX,
    ensures
        r is Err ==> !at(kinds(ls@), pos as int, LexView::Sym(s)),
        r matches Ok(q) ==> q == pos + 1 && at(kinds(ls@), pos as int, LexView::Sym(s)),
{
    if sym_at(ls, pos, s) {
        Ok(pos + 1)
    } else {
        Err("expected a symbol".to_owned())
    }
}

pub open spec fn is_operator(s: Symbol) -> bool {
    s == Symbol::Equal || s == Symbol::NotEqual || s == Symbol::Less || s == Symbol::LessEqual || s == Symbol::Greater || s == Symbol::GreaterEqual || s == Symbol::Plus || s == Symbol::Minus || s == Symbol::Star || s == Symbol::Slash || s == Symbol::Caret
}

/// The operator of precedence `level` at `pos`, if any: comparisons at 0,
/// `+ -` at 1, `* /` at 2 and `^` at 3.
fn operator_at(ls: &Vec<Lexeme>, pos: usize, level: usize) -> (r: Option<Symbol>)
    requires
        level <= 3,
    ensures
        r == op_at(lex_views(ls@), pos as int, level as int),
        r matches Some(s) ==> is_operator(s) && op_level(s) == level && at(
            kinds(ls@),
            pos as int,
            LexView::Sym(s),
        ),
{
    if pos >= ls.len() {
        return None;
    }
    proof {
        lemma_kind_at(ls@, pos as int);
    }
    match &ls[pos].kind {
        LexKind::Sym(s) => {
            let s = *s;
            let fits = if level == 0 {
                s == Symbol::Equal || s == Symbol::NotEqual || s == Symbol::Less || s
                    == Symbol::LessEqual || s == Symbol::Greater || s == Symbol::GreaterEqual
            } else if level == 1 {
                s == Symbol::Plus || s == Symbol::Minus
            } else if level == 2 {
                s == Symbol::Star || s == Symbol::Slash
            } else {
                s == Symbol::Caret
            };
            if fits {
                Some(s)
            } else {
                None
            }
        },
        _ => None,
    }
}

fn combine(s: Symbol, a: Token, b: Token) -> (r: Token)
    requires
        is_operator(s),
    ensures
        level_of(r) == op_level(s),
        grouped(r) == (level_of(a) >= op_level(s) && level_of(b) > op_level(s) && grouped(a) && grouped(b)),
        s == Symbol::Equal ==> r == Token::Eq(Box::new(a), Box::new(b)),
        s == Symbol::NotEqual ==> r == Token::Ne(Box::new(a), Box::new(b)),
        s == Symbol::Less ==> r == Token::Lt(Box::new(a), Box::new(b)),
        s == Symbol::LessEqual ==> r == Token::Le(Box::new(a), Box::new(b)),
        s == Symbol::Greater ==> r == Token::Gt(Box::new(a), Box::new(b)),
        s == Symbol::GreaterEqual ==> r == Token::Ge(Box::new(a), Box::new(b)),
        s == Symbol::Plus ==> r == Token::Add(Box::new(a), Box::new(b)),
        s == Symbol::Minus ==> r == Token::Sub(Box::new(a), Box::new(b)),
        s == Symbol::Star ==> r == Token::Mul(Box::new(a), Box::new(b)),
        s == Symbol::Slash ==> r == Token::Div(Box::new(a), Box::new(b)),
        s == Symbol::Caret ==> r == Token::Pow(Box::new(a), Box::new(b)),
{
    let a = Box::new(a);
    let b = Box::new(b);
    match s {
        Symbol::Equal => Token::Eq(a, b),
        Symbol::NotEqual => Token::Ne(a, b),
        Symbol::Less => Token::Lt(a, b),
        Symbol::LessEqual => Token::Le(a, b),
        Symbol::Greater => Token::Gt(a, b),
        Symbol::GreaterEqual => Token::Ge(a, b),
        Symbol::Plus => Token::Add(a, b),
        Symbol::Minus => Token::Sub(a, b),
        Symbol::Star => Token::Mul(a, b),
        Symbol::Slash => Token::Div(a, b),
        _ => Token::Pow(a, b),
    }
}

/// An expression.
fn parse_expr(ls: &Vec<Lexeme>, pos: usize) -> (r: Parsed)
    requires
        ls@.len() <= usize::MAX,
        pos <= ls@.len(),
    ensures
        agrees(r, r_expr(lex_views(ls@), pos as int)),
        spelled(ls@, r, pos as int),
        r matches Ok((t, _)) ==> grouped(t),
    decreases ls@.len() - pos, 8nat,
{
    parse_level(ls, pos, 0)
}

/// Operands joined, left to right, by the operators of one precedence level.
fn parse_level(ls: &Vec<Lexeme>, pos: usize, level: usize) -> (r: Parsed)
    requires
        ls@.len() <= usize::MAX,
        pos <= ls@.len(),
        level <= 3,
    ensures
        agrees(r, r_level(lex_views(ls@), pos as int, level as int)),
        spelled(ls@, r, pos as int),
        r matches Ok((t, _)) ==> grouped(t) && level_of(t) >= level,
    decreases ls@.len() - pos, 7 - level,
{
    let first = if level == 3 {
        parse_atom(ls, pos)
    } else {
        parse_level(ls, pos, level + 1)
    };
    let (mut left, mut q) = match first {
        Ok(x) => x,
        Err(e) => {
            return Err(e);
        },
    };
    loop
        invariant
            ls@.len() <= usize::MAX,
            pos < q <= ls@.len(),
            level <= 3,
            span(left, kinds(ls@), pos as int) == Some(q as int),
            r_level(lex_views(ls@), pos as int, level as int) == r_level_tail(lex_views(ls@), q as int, level as int),
            grouped(left),
            level_of(left) >= level,
        decreases ls@.len() - q,
    {
        match operator_at(ls, q, level) {
            Some(s) => {
                let next = if level == 3 {
                    parse_atom(ls, q + 1)
                } else {
                    parse_level(ls, q + 1, level + 1)
                };
                match next {
                    Ok((right, q2)) => {
                        let ghost before = left;
                        left = combine(s, left, right);
                        assert(span(left, kinds(ls@), pos as int) == Some(q2 as int));
                        q = q2;
                    },
                    Err(e) => {
                        return Err(e);
                    },
                }
            },
            None => {
                return Ok((left, q));
            },
        }
    }
}

/// Expressions separated by commas up to the closing symbol; the position
/// after it.
fn parse_args(ls: &Vec<Lexeme>, pos: usize, close: Symbol) -> (r: Result<(Vec<Token>, usize), String>)
    requires
        ls@.len() <= usize::MAX,
        pos <= ls@.len(),
    ensures
        agrees_list(r, r_args(lex_views(ls@), pos as int, close)),
        r matches Ok((items, q)) ==> pos < q <= ls@.len() && close_after(
            span_sep(items@, kinds(ls@), pos as int),
            kinds(ls@),
            close,
        ) == Some(q as int),
    decreases ls@.len() - pos, 9nat,
{
    let mut items: Vec<Token> = Vec::new();
    if sym_at(ls, pos, close) {
        return Ok((items, pos + 1));
    }
    let mut end = pos;
    loop
        invariant
            ls@.len() <= usize::MAX,
            pos <= end <= ls@.len(),
            span_sep(items@, kinds(ls@), pos as int) == Some(end as int),
            items@.len() == 0 ==> end == pos,
            items@.len() == 0 ==> !at(kinds(ls@), pos as int, LexView::Sym(close)),
            items@.len() > 0 ==> r_args(lex_views(ls@), pos as int, close) == r_args_more(lex_views(ls@), end as int, close),
        decreases ls@.len() - end, (if items@.len() == 0 { 1int } else { 0int }),
    {
        let start = if items.len() == 0 {
            end
        } else if sym_at(ls, end, Symbol::Comma) {
            end + 1
        } else if sym_at(ls, end, close) {
            return Ok((items, end + 1));
        } else {
            return Err("expected a comma or a closing bracket".to_owned());
        };
        match parse_expr(ls, start) {
            Ok((e, q)) => {
                let ghost old_items = items@;
                items.push(e);
                assert(items@.drop_last() =~= old_items);
                end = q;
            },
            Err(e) => {
                return Err(e);
            },
        }
    }
}

/// Identifiers separated by commas up to `)`; the position after it.
fn parse_params(ls: &Vec<Lexeme>, pos: usize) -> (r: Result<(Vec<Token>, usize), String>)
    requires
        ls@.len() <= usize::MAX,
        pos <= ls@.len(),
    ensures
        agrees_list(r, r_params(lex_views(ls@), pos as int)),
        r matches Ok((params, q)) ==> pos < q <= ls@.len() && close_after(
            span_sep(params@, kinds(ls@), pos as int),
            kinds(ls@),
            Symbol::RParen,
        ) == Some(q as int),
{
    let mut params: Vec<Token> = Vec::new();
    if sym_at(ls, pos, Symbol::RParen) {
        return Ok((params, pos + 1));
    }
    let mut end = pos;
    loop
        invariant
            ls@.len() <= usize::MAX,
            pos <= end <= ls@.len(),
            span_sep(params@, kinds(ls@), pos as int) == Some(end as int),
            params@.len() == 0 ==> end == pos,
            params@.len() == 0 ==> !at(kinds(ls@), pos as int, LexView::Sym(Symbol::RParen)),
            params@.len() > 0 ==> r_params(lex_views(ls@), pos as int) == r_params_more(lex_views(ls@), end as int),
        decreases ls@.len() - end, (if params@.len() == 0 { 1int } else { 0int }),
    {
        let start = if params.len() == 0 {
            end
        } else if sym_at(ls, end, Symbol::Comma) {
            end + 1
        } else if sym_at(ls, end, Symbol::RParen) {
            return Ok((params, end + 1));
        } else {
            return Err("expected a comma or `)`".to_owned());
        };
        match word_at(ls, start) {
            Some(w) => {
                let ghost old_params = params@;
                assert(span(Token::Identifier(w), kinds(ls@), start as int) == Some(start + 1));
                params.push(Token::Identifier(w));
                assert(params@.drop_last() =~= old_params);
                end = start + 1;
            },
            None => {
                return Err("expected a parameter name".to_owned());
            },
        }
    }
}

/// One link of a dot chain: a call, an indexed variable, or an identifier.
fn parse_chain_item(ls: &Vec<Lexeme>, pos: usize) -> (r: Parsed)
    requires
        ls@.len() <= usize::MAX,
        pos <= ls@.len(),
    ensures
        r matches Ok((t, _)) ==> (t is Call <==> at(kinds(ls@), pos + 1, LexView::Sym(Symbol::LParen))) && !(t is DotChain),
        agrees(r, r_chain_item(lex_views(ls@), pos as int)),
        spelled(ls@, r, pos as int),
        r matches Ok((t, _)) ==> grouped(t) && level_of(t) == 4,
    decreases ls@.len() - pos, 0nat,
{
    let name = match word_at(ls, pos) {
        Some(w) => w,
        None => {
            return Err("expected an identifier".to_owned());
        },
    };
    assert(span(Token::Identifier(name), kinds(ls@), pos as int) == Some(pos + 1));
    if sym_at(ls, pos + 1, Symbol::LParen) {
        match parse_args(ls, pos + 2, Symbol::RParen) {
            Ok((args, q)) => Ok((Token::Call(Box::new(Token::Identifier(name)), args), q)),
            Err(e) => Err(e),
        }
    } else if sym_at(ls, pos + 1, Symbol::LBracket) {
        match parse_expr(ls, pos + 2) {
            Ok((index, q)) => {
                if sym_at(ls, q, Symbol::RBracket) {
                    Ok((
                        Token::CollectionIndex(Box::new(Token::Identifier(name)), Box::new(index)),
                        q + 1,
                    ))
                } else {
                    Err("expected `]`".to_owned())
                }
            },
            Err(e) => Err(e),
        }
    } else {
        Ok((Token::Identifier(name), pos + 1))
    }
}

/// A chain item, followed by more joined with dots.
fn parse_chain(ls: &Vec<Lexeme>, pos: usize) -> (r: Parsed)
    requires
        ls@.len() <= usize::MAX,
        pos <= ls@.len(),
    ensures
        r matches Ok((t, _)) ==> ((t is Call || t is DotChain) <==> chain_is_statement(lex_views(ls@), pos as int)),
        agrees(r, r_chain(lex_views(ls@), pos as int)),
        spelled(ls@, r, pos as int),
        r matches Ok((t, _)) ==> grouped(t) && level_of(t) == 4,
    decreases ls@.len() - pos, 1nat,
{
    let (first, q1) = match parse_chain_item(ls, pos) {
        Ok(x) => x,
        Err(e) => {
            return Err(e);
        },
    };
    if !sym_at(ls, q1, Symbol::Dot) {
        return Ok((first, q1));
    }
    let mut rest: Vec<Token> = Vec::new();
    let mut q = q1;
    while sym_at(ls, q, Symbol::Dot)
        invariant
            ls@.len() <= usize::MAX,
            pos < q1 <= q <= ls@.len(),
            span(first, kinds(ls@), pos as int) == Some(q1 as int),
            span_chain(rest@, kinds(ls@), q1 as int) == Some(q as int),
            r_chain(lex_views(ls@), pos as int) == r_chain_more(lex_views(ls@), q as int),
            r_chain_item(lex_views(ls@), pos as int) == Some(q1 as int),
            at(kinds(ls@), q1 as int, LexView::Sym(Symbol::Dot)),
        decreases ls@.len() - q,
    {
        match parse_chain_item(ls, q + 1) {
            Ok((item, q2)) => {
                let ghost old_rest = rest@;
                rest.push(item);
                assert(rest@.drop_last() =~= old_rest);
                q = q2;
            },
            Err(e) => {
                return Err(e);
            },
        }
    }
    Ok((Token::DotChain(Box::new(first), rest), q))
}

/// A negative literal: `-` directly followed by a number.
fn parse_negative(ls: &Vec<Lexeme>, pos: usize) -> (r: Option<Token>)
    requires
        ls@.len() <= usize::MAX,
        pos + 1 < ls@.len(),
        at(kinds(ls@), pos as int, LexView::Sym(Symbol::Minus)),
    ensures
        r is Some <==> r_negative(lex_views(ls@), pos as int) is Some,
        r matches Some(t) ==> span(t, kinds(ls@), pos as int) == Some(pos + 2) && grouped(t) && level_of(t)
            == 4,
{
    if !ls[pos + 1].glued {
        return None;
    }
    proof {
        lemma_kind_at(ls@, pos + 1);
    }
    match &ls[pos + 1].kind {
        LexKind::Number(n) => {
            if 0 <= *n && *n <= 2147483648 {
                Some(Token::Integer((-*n) as i32))
            } else {
                None
            }
        },
        LexKind::Decimal(t) => {
            let mut s = "-".to_owned();
            s.append(t.as_str());
            proof {
                reveal_strlit("-");
            }
            assert(s@.drop_first() =~= t@);
            Some(Token::Float(s))
        },
        _ => None,
    }
}

/// An operand that starts with a word: `null`, `true`, `false`, a lambda,
/// an object construction, or a chain.
fn parse_word(ls: &Vec<Lexeme>, pos: usize, w: &String) -> (r: Parsed)
    requires
        ls@.len() <= usize::MAX,
        pos < ls@.len(),
        kinds(ls@)[pos as int] == keyword(w@),
    ensures
        agrees(r, r_word(lex_views(ls@), pos as int, w@)),
        spelled(ls@, r, pos as int),
        r matches Ok((t, _)) ==> grouped(t) && level_of(t) == 4,
    decreases ls@.len() - pos, 2nat,
{
    if same_text(w, "null") {
        Ok((Token::Null, pos + 1))
    } else if same_text(w, "true") {
        Ok((Token::Bool(true), pos + 1))
    } else if same_text(w, "false") {
        Ok((Token::Bool(false), pos + 1))
    } else if same_text(w, "function") && sym_at(ls, pos + 1, Symbol::LParen) {
        let (params, q) = match parse_params(ls, pos + 2) {
            Ok(x) => x,
            Err(e) => {
                return Err(e);
            },
        };
        let (body, q2) = match parse_body(ls, q) {
            Ok(x) => x,
            Err(e) => {
                return Err(e);
            },
        };
        match expect_keyword(ls, q2, "end") {
            Ok(q3) => Ok((Token::AnonFunction(params, body), q3)),
            Err(e) => Err(e),
        }
    } else if same_text(w, "new") && pos + 1 < ls.len() {
        let class = match word_at(ls, pos + 1) {
            Some(c) => c,
            None => {
                return Err("expected a class name".to_owned());
            },
        };
        let q = match expect_sym(ls, pos + 2, Symbol::LParen) {
            Ok(q) => q,
            Err(e) => {
                return Err(e);
            },
        };
        match parse_args(ls, q, Symbol::RParen) {
            Ok((args, q2)) => Ok((Token::NewObject(class, args), q2)),
            Err(e) => Err(e),
        }
    } else {
        parse_chain(ls, pos)
    }
}

/// An operand: a literal, a collection, a lambda, an object construction,
/// or a chain of calls, indexings and identifiers.
fn parse_atom(ls: &Vec<Lexeme>, pos: usize) -> (r: Parsed)
    requires
        ls@.len() <= usize::MAX,
        pos <= ls@.len(),
    ensures
        agrees(r, r_atom(lex_views(ls@), pos as int)),
        spelled(ls@, r, pos as int),
        r matches Ok((t, _)) ==> grouped(t) && level_of(t) == 4,
    decreases ls@.len() - pos, 3nat,
{
    if pos >= ls.len() {
        return Err("unexpected end of input".to_owned());
    }
    proof {
        lemma_kind_at(ls@, pos as int);
    }
    match &ls[pos].kind {
        LexKind::Number(n) => {
            if 0 <= *n && *n <= 2147483647 {
                Ok((Token::Integer(*n as i32), pos + 1))
            } else {
                Err("integer literal out of range".to_owned())
            }
        },
        LexKind::Decimal(t) => Ok((Token::Float(t.clone()), pos + 1)),
        LexKind::Text(s) => Ok((Token::String(s.clone()), pos + 1)),
        LexKind::Sym(Symbol::Minus) => {
            if pos + 1 < ls.len() {
                match parse_negative(ls, pos) {
                    Some(t) => Ok((t, pos + 2)),
                    None => Err("unexpected `-`".to_owned()),
                }
            } else {
                Err("unexpected `-`".to_owned())
            }
        },
        LexKind::Sym(Symbol::LBracket) => match parse_args(ls, pos + 1, Symbol::RBracket) {
            Ok((items, q)) => Ok((Token::Array(items), q)),
            Err(e) => Err(e),
        },
        LexKind::Sym(Symbol::LBrace) => parse_dictionary(ls, pos + 1),
        LexKind::Word(w) => parse_word(ls, pos, w),
        _ => Err("expected an expression".to_owned()),
    }
}

/// The entries of a dictionary literal, each a string key, `:` and a value,
/// up to `}`; `pos` is after `{`.
fn parse_dictionary(ls: &Vec<Lexeme>, pos: usize) -> (r: Parsed)
    requires
        ls@.len() <= usize::MAX,
        0 < pos <= ls@.len(),
        at(kinds(ls@), pos - 1, LexView::Sym(Symbol::LBrace)),
    ensures
        agrees(r, r_dict(lex_views(ls@), pos as int)),
        spelled(ls@, r, pos - 1),
        r matches Ok((t, _)) ==> grouped(t) && level_of(t) == 4,
    decreases ls@.len() - pos, 10nat,
{
    let mut pairs: Vec<Token> = Vec::new();
    if sym_at(ls, pos, Symbol::RBrace) {
        return Ok((Token::Dictionary(pairs), pos + 1));
    }
    let mut end = pos;
    loop
        invariant
            ls@.len() <= usize::MAX,
            0 < pos <= end <= ls@.len(),
            at(kinds(ls@), pos - 1, LexView::Sym(Symbol::LBrace)),
            span_sep(pairs@, kinds(ls@), pos as int) == Some(end as int),
            pairs@.len() == 0 ==> end == pos,
            pairs@.len() == 0 ==> !at(kinds(ls@), pos as int, LexView::Sym(Symbol::RBrace)),
            pairs@.len() > 0 ==> r_dict(lex_views(ls@), pos as int) == r_dict_more(lex_views(ls@), end as int),
        decreases ls@.len() - end, (if pairs@.len() == 0 { 1int } else { 0int }),
    {
        let start = if pairs.len() == 0 {
            end
        } else if sym_at(ls, end, Symbol::Comma) {
            end + 1
        } else if sym_at(ls, end, Symbol::RBrace) {
            return Ok((Token::Dictionary(pairs), end + 1));
        } else {
            return Err("expected a comma or `}`".to_owned());
        };
        let ghost target = if pairs@.len() == 0 {
            r_dict(lex_views(ls@), pos as int)
        } else {
            r_dict_more(lex_views(ls@), end as int)
        };
        assert(target == match r_pair(lex_views(ls@), start as int) {
            Some(q) => if start < q <= ls@.len() {
                r_dict_more(lex_views(ls@), q)
            } else {
                None
            },
            None => None,
        });
        if start >= ls.len() {
            return Err("unexpected end of input".to_owned());
        }
        proof {
            lemma_kind_at(ls@, start as int);
        }
        let key = match &ls[start].kind {
            LexKind::Text(k) => k.clone(),
            _ => {
                return Err("expected a string key".to_owned());
            },
        };
        let q1 = match expect_sym(ls, start + 1, Symbol::Colon) {
            Ok(q1) => q1,
            Err(e) => {
                return Err(e);
            },
        };
        match parse_expr(ls, q1) {
            Ok((v, q2)) => {
                let ghost old_pairs = pairs@;
                let pair = Token::KeyValuePair(key, Box::new(v));
                assert(span(pair, kinds(ls@), start as int) == Some(q2 as int));
                pairs.push(pair);
                assert(pairs@.drop_last() =~= old_pairs);
                end = q2;
            },
            Err(e) => {
                return Err(e);
            },
        }
    }
}

/// Statements up to `end` or `else`, which is not consumed.
fn parse_body(ls: &Vec<Lexeme>, pos: usize) -> (r: Result<(Vec<Token>, usize), String>)
    requires
        ls@.len() <= usize::MAX,
        pos <= ls@.len(),
    ensures
        agrees_list(r, r_body(lex_views(ls@), pos as int)),
        r matches Ok((stmts, q)) ==> pos <= q < ls@.len() && span_seq(stmts@, kinds(ls@), pos as int)
            == Some(q as int),
    decreases ls@.len() - pos, 12nat,
{
    let mut stmts: Vec<Token> = Vec::new();
    let mut q = pos;
    loop
        invariant
            ls@.len() <= usize::MAX,
            pos <= q <= ls@.len(),
            span_seq(stmts@, kinds(ls@), pos as int) == Some(q as int),
            r_body(lex_views(ls@), pos as int) == r_body(lex_views(ls@), q as int),
        decreases ls@.len() - q,
    {
        if q >= ls.len() {
            return Err("expected `end`".to_owned());
        }
        if keyword_at(ls, q, "end") || keyword_at(ls, q, "else") {
            return Ok((stmts, q));
        }
        match parse_stmt(ls, q) {
            Ok((s, q2)) => {
                let ghost old_stmts = stmts@;
                stmts.push(s);
                assert(stmts@.drop_last() =~= old_stmts);
                q = q2;
            },
            Err(e) => {
                return Err(e);
            },
        }
    }
}

/// `do`, a body, and `end`.
fn parse_block(ls: &Vec<Lexeme>, pos: usize) -> (r: Result<(Vec<Token>, usize), String>)
    requires
        ls@.len() <= usize::MAX,
        pos <= ls@.len(),
    ensures
        agrees_list(r, r_block(lex_views(ls@), pos as int)),
        r matches Ok((body, q)) ==> pos < q <= ls@.len() && block(body@, kinds(ls@), pos as int) == Some(
            q as int,
        ),
    decreases ls@.len() - pos, 13nat,
{
    let q = match expect_keyword(ls, pos, "do") {
        Ok(q) => q,
        Err(e) => {
            return Err(e);
        },
    };
    let (body, q2) = match parse_body(ls, q) {
        Ok(x) => x,
        Err(e) => {
            return Err(e);
        },
    };
    match expect_keyword(ls, q2, "end") {
        Ok(q3) => Ok((body, q3)),
        Err(e) => Err(e),
    }
}

/// A `for` loop, counted or over a collection; `pos` is after `for`.
#[verifier::rlimit(60)]
fn parse_for(ls: &Vec<Lexeme>, pos: usize) -> (r: Parsed)
    requires
        ls@.len() <= usize::MAX,
        0 < pos <= ls@.len(),
        at(kinds(ls@), pos - 1, keyword("for"@)),
    ensures
        agrees(r, r_for(lex_views(ls@), pos as int)),
        spelled(ls@, r, pos - 1),
    decreases ls@.len() - pos, 14nat,
{
    let var = match word_at(ls, pos) {
        Some(v) => Token::Identifier(v),
        None => {
            return Err("expected a loop variable".to_owned());
        },
    };
    assert(span(var, kinds(ls@), pos as int) == Some(pos + 1));
    if keyword_at(ls, pos + 1, "in") {
        let (collection, q) = match parse_expr(ls, pos + 2) {
            Ok(x) => x,
            Err(e) => {
                return Err(e);
            },
        };
        return match parse_block(ls, q) {
            Ok((body, q2)) => Ok((Token::ForEach(Box::new(var), Box::new(collection), body), q2)),
            Err(e) => Err(e),
        };
    }
    let q = match expect_sym(ls, pos + 1, Symbol::Assign) {
        Ok(q) => q,
        Err(e) => {
            return Err(e);
        },
    };
    let (start, q1) = match parse_expr(ls, q) {
        Ok(x) => x,
        Err(e) => {
            return Err(e);
        },
    };
    let q2 = match expect_keyword(ls, q1, "to") {
        Ok(q2) => q2,
        Err(e) => {
            return Err(e);
        },
    };
    let (end, q3) = match parse_expr(ls, q2) {
        Ok(x) => x,
        Err(e) => {
            return Err(e);
        },
    };
    let (step, q4) = if keyword_at(ls, q3, "step") {
        match parse_expr(ls, q3 + 1) {
            Ok(x) => x,
            Err(e) => {
                return Err(e);
            },
        }
    } else {
        (Token::Integer(1), q3)
    };
    match parse_block(ls, q4) {
        Ok((body, q5)) => Ok((
            Token::ForI(Box::new(var), Box::new(start), Box::new(step), Box::new(end), body),
            q5,
        )),
        Err(e) => Err(e),
    }
}

/// An `if` statement; `pos` is after `if`.
fn parse_if(ls: &Vec<Lexeme>, pos: usize) -> (r: Parsed)
    requires
        ls@.len() <= usize::MAX,
        0 < pos <= ls@.len(),
        at(kinds(ls@), pos - 1, keyword("if"@)),
    ensures
        agrees(r, r_if(lex_views(ls@), pos as int)),
        spelled(ls@, r, pos - 1),
    decreases ls@.len() - pos, 14nat,
{
    let (cond, q) = match parse_expr(ls, pos) {
        Ok(x) => x,
        Err(e) => {
            return Err(e);
        },
    };
    let q1 = match expect_keyword(ls, q, "then") {
        Ok(q1) => q1,
        Err(e) => {
            return Err(e);
        },
    };
    let (then_body, q2) = match parse_body(ls, q1) {
        Ok(x) => x,
        Err(e) => {
            return Err(e);
        },
    };
    let (else_body, q3) = if keyword_at(ls, q2, "else") {
        match parse_body(ls, q2 + 1) {
            Ok((b, q3)) => (Some(b), q3),
            Err(e) => {
                return Err(e);
            },
        }
    } else {
        (None, q2)
    };
    match expect_keyword(ls, q3, "end") {
        Ok(q4) => Ok((Token::IfElse(Box::new(cond), then_body, else_body), q4)),
        Err(e) => Err(e),
    }
}

/// A `var` declaration; `pos` is after `var`.
fn parse_var(ls: &Vec<Lexeme>, pos: usize) -> (r: Parsed)
    requires
        ls@.len() <= usize::MAX,
        0 < pos <= ls@.len(),
        at(kinds(ls@), pos - 1, keyword("var"@)),
    ensures
        agrees(r, r_var(lex_views(ls@), pos as int)),
        spelled(ls@, r, pos - 1),
    decreases ls@.len() - pos, 14nat,
{
    let name = match word_at(ls, pos) {
        Some(v) => Token::Identifier(v),
        None => {
            return Err("expected a variable name".to_owned());
        },
    };
    assert(span(name, kinds(ls@), pos as int) == Some(pos + 1));
    if sym_at(ls, pos + 1, Symbol::Assign) {
        match parse_expr(ls, pos + 2) {
            Ok((e, q)) => Ok((Token::Variable(Box::new(name), Box::new(e)), q)),
            Err(e) => Err(e),
        }
    } else {
        let t = Token::Variable(Box::new(name), Box::new(Token::Null));
        assert(span(t, kinds(ls@), pos - 1) == Some(pos + 1));
        Ok((t, pos + 1))
    }
}

/// A statement.
fn parse_stmt(ls: &Vec<Lexeme>, pos: usize) -> (r: Parsed)
    requires
        ls@.len() <= usize::MAX,
        pos < ls@.len(),
    ensures
        agrees(r, r_stmt(lex_views(ls@), pos as int)),
        spelled(ls@, r, pos as int),
    decreases ls@.len() - pos, 11nat,
{
    proof {
        lemma_kind_at(ls@, pos as int);
    }
    match &ls[pos].kind {
        LexKind::Remark(s) => {
            let c = Token::Comment(s.clone());
            assert(span(c, kinds(ls@), pos as int) == Some(pos + 1));
            return Ok((c, pos + 1));
        },
        _ => {},
    }
    if keyword_at(ls, pos, "var") {
        parse_var(ls, pos + 1)
    } else if keyword_at(ls, pos, "return") {
        match parse_expr(ls, pos + 1) {
            Ok((e, q)) => Ok((Token::Return(Box::new(e)), q)),
            Err(e) => Err(e),
        }
    } else if keyword_at(ls, pos, "while") {
        let (cond, q) = match parse_expr(ls, pos + 1) {
            Ok(x) => x,
            Err(e) => {
                return Err(e);
            },
        };
        match parse_block(ls, q) {
            Ok((body, q2)) => Ok((Token::WhileLoop(Box::new(cond), body), q2)),
            Err(e) => Err(e),
        }
    } else if keyword_at(ls, pos, "for") {
        parse_for(ls, pos + 1)
    } else if keyword_at(ls, pos, "if") {
        parse_if(ls, pos + 1)
    } else {
        let (target, q) = match parse_chain(ls, pos) {
            Ok(x) => x,
            Err(e) => {
                return Err(e);
            },
        };
        if sym_at(ls, q, Symbol::Assign) {
            match parse_expr(ls, q + 1) {
                Ok((value, q2)) => Ok((Token::Assign(Box::new(target), Box::new(value)), q2)),
                Err(e) => Err(e),
            }
        } else {
            match target {
                Token::Call(_, _) | Token::DotChain(_, _) => Ok((target, q)),
                _ => Err("expected a statement".to_owned()),
            }
        }
    }
}

/// A function definition, `function [Class:]name(params) body end`.
fn parse_function(ls: &Vec<Lexeme>, pos: usize) -> (r: Parsed)
    requires
        ls@.len() <= usize::MAX,
        pos <= ls@.len(),
    ensures
        agrees(r, r_function(lex_views(ls@), pos as int)),
        spelled(ls@, r, pos as int),
        r matches Ok((t, _)) ==> t is Function,
{
    let q = match expect_keyword(ls, pos, "function") {
        Ok(q) => q,
        Err(e) => {
            return Err(e);
        },
    };
    let first = match word_at(ls, q) {
        Some(w) => w,
        None => {
            return Err("expected a function name".to_owned());
        },
    };
    let (class, name, q1) = if sym_at(ls, q + 1, Symbol::Colon) {
        match word_at(ls, q + 2) {
            Some(w) => (Some(first), w, q + 3),
            None => {
                return Err("expected a method name".to_owned());
            },
        }
    } else {
        (None, first, q + 1)
    };
    let q2 = match expect_sym(ls, q1, Symbol::LParen) {
        Ok(q2) => q2,
        Err(e) => {
            return Err(e);
        },
    };
    let (params, q3) = match parse_params(ls, q2) {
        Ok(x) => x,
        Err(e) => {
            return Err(e);
        },
    };
    let (body, q4) = match parse_body(ls, q3) {
        Ok(x) => x,
        Err(e) => {
            return Err(e);
        },
    };
    match expect_keyword(ls, q4, "end") {
        Ok(q5) => Ok((Token::Function(class, name, params, body), q5)),
        Err(e) => Err(e),
    }
}

/// A class definition: variables, functions and comments up to `end`.
fn parse_class(ls: &Vec<Lexeme>, pos: usize) -> (r: Parsed)
    requires
        ls@.len() <= usize::MAX,
        pos < ls@.len(),
        at(kinds(ls@), pos as int, keyword("class"@)),
    ensures
        agrees(r, r_class(lex_views(ls@), pos as int)),
        spelled(ls@, r, pos as int),
        r matches Ok((t, _)) ==> t is Class,
{
    let name = match word_at(ls, pos + 1) {
        Some(w) => w,
        None => {
            return Err("expected a class name".to_owned());
        },
    };
    let mut items: Vec<Token> = Vec::new();
    let mut q = pos + 2;
    loop
        invariant
            ls@.len() <= usize::MAX,
            pos + 2 <= q <= ls@.len(),
            at(kinds(ls@), pos as int, keyword("class"@)),
            at(kinds(ls@), pos + 1, keyword(name@)),
            span_seq(items@, kinds(ls@), pos + 2) == Some(q as int),
            r_class(lex_views(ls@), pos as int) == r_class_items(lex_views(ls@), q as int),
        decreases ls@.len() - q,
    {
        if q >= ls.len() {
            return Err("expected `end`".to_owned());
        }
        if keyword_at(ls, q, "end") {
            return Ok((Token::Class(name, items), q + 1));
        }
        proof {
            lemma_kind_at(ls@, q as int);
        }
        let item = match &ls[q].kind {
            LexKind::Remark(s) => {
                let c = Token::Comment(s.clone());
                assert(span(c, kinds(ls@), q as int) == Some(q + 1));
                Ok((c, q + 1))
            },
            _ => if keyword_at(ls, q, "var") {
                parse_var(ls, q + 1)
            } else {
                parse_function(ls, q)
            },
        };
        match item {
            Ok((t, q2)) => {
                let ghost old_items = items@;
                items.push(t);
                assert(items@.drop_last() =~= old_items);
                q = q2;
            },
            Err(e) => {
                return Err(e);
            },
        }
    }
}

/// One top-level form: a comment, a constant, a class or a function.
fn parse_form(ls: &Vec<Lexeme>, q: usize) -> (r: Parsed)
    requires
        ls@.len() <= usize::MAX,
        q < ls@.len(),
    ensures
        spelled(ls@, r, q as int),
        agrees(r, r_form(lex_views(ls@), q as int)),
        r matches Ok((t, _)) ==> top_level(t),
{
    proof {
        lemma_kind_at(ls@, q as int);
    }
    match &ls[q].kind {
        LexKind::Remark(s) => {
            let c = Token::Comment(s.clone());
            assert(span(c, kinds(ls@), q as int) == Some(q + 1));
            Ok((c, q + 1))
        },
        _ => if keyword_at(ls, q, "const") {
            match word_at(ls, q + 1) {
                Some(name) => match expect_sym(ls, q + 2, Symbol::Assign) {
                    Ok(q1) => {
                        assert(span(Token::Identifier(name), kinds(ls@), q + 1) == Some(q + 2));
                        match parse_expr(ls, q1) {
                            Ok((e, q2)) => Ok((
                                Token::Constant(Box::new(Token::Identifier(name)), Box::new(e)),
                                q2,
                            )),
                            Err(e) => Err(e),
                        }
                    },
                    Err(e) => Err(e),
                },
                None => Err("expected a constant name".to_owned()),
            }
        } else if keyword_at(ls, q, "class") {
            parse_class(ls, q)
        } else {
            parse_function(ls, q)
        },
    }
}

/// Parses a script: constants, comments, classes and functions. On success
/// the forms, one after the other, spell exactly the lexemes of the source.
pub fn parse_script(src: &str) -> (r: Result<Vec<Token>, String>)
    ensures
        r is Ok <==> (lex_from(src@, 0, false) matches Some(lv) && r_forms(lv, 0)),
        r matches Ok(ts) ==> {
            &&& forall|i: int| 0 <= i < ts@.len() ==> top_level(#[trigger] ts@[i])
            &&& lex_from(src@, 0, false) matches Some(lv) && span_seq(ts@, unglued(lv), 0) == Some(
                lv.len() as int,
            )
        },
{
    let ls = match tokenize(src) {
        Ok(ls) => ls,
        Err(e) => {
            return Err(e);
        },
    };
    let mut forms: Vec<Token> = Vec::new();
    let mut q: usize = 0;
    assert(ls@.len() == ls.len());
    while q < ls.len()
        invariant
            q <= ls@.len(),
            ls@.len() <= usize::MAX,
            forall|i: int| 0 <= i < forms@.len() ==> top_level(#[trigger] forms@[i]),
            span_seq(forms@, kinds(ls@), 0) == Some(q as int),
            r_forms(lex_views(ls@), 0) == r_forms(lex_views(ls@), q as int),
            lex_from(src@, 0, false) == Some(lex_views(ls@)),
        decreases ls@.len() - q,
    {
        proof {
            lemma_kind_at(ls@, q as int);
        }
        let form = parse_form(&ls, q);
        match form {
            Ok((t, q2)) => {
                let ghost old_forms = forms@;
                forms.push(t);
                assert(forms@.drop_last() =~= old_forms);
                q = q2;
            },
            Err(e) => {
                assert(unglued(lex_views(ls@)).len() == ls@.len());
                assert(!r_forms(lex_views(ls@), q as int));
                return Err(e);
            },
        }
    }
    assert(kinds(ls@).len() == ls@.len());
    Ok(forms)
}

} // verus!
