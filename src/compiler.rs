use vstd::prelude::*;

use crate::function::{lambdas_view, parameter_names, Function};
use crate::instructions::Instruction;
use crate::lowering::{c_function, code_view, param_names, texts, value_view, InstructionView, ValueView};
use crate::program::{find, set_entry, store, Entries, Program};
use crate::parser::{parse_script, r_forms, span_seq, top_level, unglued};
use crate::token::{text, Token};
use crate::value::Value;

verus! {

/// A program with its strings seen as their text.
pub struct ProgramView {
    pub instructions: Seq<InstructionView>,
    pub globals: Seq<(Seq<char>, ValueView)>,
    pub classes: Seq<(Seq<char>, Seq<(Seq<char>, ValueView)>)>,
}

pub open spec fn entries_view(s: Seq<(String, Value)>) -> Seq<(Seq<char>, ValueView)> {
    s.map_values(|e: (String, Value)| (e.0@, value_view(e.1)))
}

pub open spec fn program_view(p: Program) -> ProgramView {
    ProgramView {
        instructions: code_view(p.instructions@),
        globals: entries_view(p.globals@),
        classes: p.classes@.map_values(|c: (String, Entries)| (c.0@, entries_view(c.1@))),
    }
}

/// The position of the first entry named `key`.
pub open spec fn find_key(s: Seq<(Seq<char>, ValueView)>, key: Seq<char>) -> Option<int>
    decreases s.len(),
{
    if s.len() == 0 {
        None
    } else if s[0].0 == key {
        Some(0)
    } else {
        match find_key(s.drop_first(), key) {
            Some(i) => Some(i + 1),
            None => None,
        }
    }
}

/// The entries after setting `key` to `v`.
pub open spec fn store_key(s: Seq<(Seq<char>, ValueView)>, key: Seq<char>, v: ValueView) -> Seq<(Seq<char>, ValueView)> {
    match find_key(s, key) {
        Some(i) => s.update(i, (key, v)),
        None => s.push((key, v)),
    }
}

proof fn lemma_find_view(s: Seq<(String, Value)>, key: Seq<char>)
    ensures
        find(s, key) == find_key(entries_view(s), key),
    decreases s.len(),
{
    if s.len() > 0 {
        assert(entries_view(s).drop_first() =~= entries_view(s.drop_first()));
        lemma_find_view(s.drop_first(), key);
    }
}

proof fn lemma_store_view(s: Seq<(String, Value)>, key: String, v: Value)
    ensures
        entries_view(store(s, key, v)) == store_key(entries_view(s), key@, value_view(v)),
{
    lemma_find_view(s, key@);
    crate::program::lemma_find_in_bounds(s, key@);
    assert(entries_view(store(s, key, v)) =~= store_key(entries_view(s), key@, value_view(v)));
}

/// Sets an entry, with what that does to the entries' view.
fn put(entries: &mut Entries, key: String, v: Value)
    ensures
        entries_view(final(entries)@) == store_key(entries_view(old(entries)@), key@, value_view(v)),
{
    proof {
        lemma_store_view(old(entries)@, key, v);
    }
    set_entry(entries, key, v);
}

/// `class.method`.
pub open spec fn member_name(class: Seq<char>, method: Seq<char>) -> Seq<char> {
    class + "."@ + method
}

/// The global name of a function: `Class.name` for one qualified by a class.
pub open spec fn qualified(class: Option<String>, name: String) -> Seq<char> {
    match class {
        Some(c) => member_name(c@, name@),
        None => name@,
    }
}

/// The template of a class from its body: its variables, initially null,
/// and its methods, as references to their qualified names; none if the
/// body holds anything else but comments.
pub open spec fn members(class: Seq<char>, body: Seq<Token>, acc: Seq<(Seq<char>, ValueView)>) -> Option<Seq<(Seq<char>, ValueView)>>
    decreases body.len(),
{
    if body.len() == 0 {
        Some(acc)
    } else {
        match body[0] {
            Token::Function(_, m, _, _) => members(
                class,
                body.drop_first(),
                store_key(acc, m@, ValueView::FunctionRef(member_name(class, m@))),
            ),
            Token::Variable(v, _) => members(class, body.drop_first(), store_key(acc, text(*v), ValueView::Null)),
            Token::Comment(_) => members(class, body.drop_first(), acc),
            _ => None,
        }
    }
}

/// Adds to a class template the functions written `function Class:name`.
pub open spec fn qualified_methods(class: Seq<char>, forms: Seq<Token>, acc: Seq<(Seq<char>, ValueView)>) -> Seq<(Seq<char>, ValueView)>
    decreases forms.len(),
{
    if forms.len() == 0 {
        acc
    } else {
        let next = match forms[0] {
            Token::Function(Some(c), m, _, _) => if c@ == class {
                store_key(acc, m@, ValueView::FunctionRef(member_name(class, m@)))
            } else {
                acc
            },
            _ => acc,
        };
        qualified_methods(class, forms.drop_first(), next)
    }
}

pub type GlobalsView = Seq<(Seq<char>, ValueView)>;

pub type ClassesView = Seq<(Seq<char>, Seq<(Seq<char>, ValueView)>)>;

/// The first pass: constants, class templates, and a reserved entry for
/// each function.
pub open spec fn reserve(forms: Seq<Token>, all: Seq<Token>, g: GlobalsView, cs: ClassesView) -> Option<(GlobalsView, ClassesView)>
    decreases forms.len(),
{
    if forms.len() == 0 {
        Some((g, cs))
    } else {
        let rest = forms.drop_first();
        match forms[0] {
            Token::Constant(name, value) => {
                let g2 = match *value {
                    Token::Integer(i) => store_key(g, text(*name), ValueView::Integer(i)),
                    Token::Float(f) => store_key(g, text(*name), ValueView::Float(f@)),
                    Token::String(s) => store_key(g, text(*name), ValueView::String(s@)),
                    Token::Bool(b) => store_key(g, text(*name), ValueView::Bool(b)),
                    _ => g,
                };
                reserve(rest, all, g2, cs)
            },
            Token::Class(name, body) => match members(name@, body@, Seq::empty()) {
                Some(m) => reserve(
                    rest,
                    all,
                    store_key(g, name@, ValueView::Class(name@)),
                    cs.push((name@, qualified_methods(name@, all, m))),
                ),
                None => None,
            },
            Token::Function(class, name, _, _) => reserve(
                rest,
                all,
                store_key(g, qualified(class, name), ValueView::FunctionPointer(0)),
                cs,
            ),
            _ => reserve(rest, all, g, cs),
        }
    }
}

/// Appends anonymous functions, each registered under its name.
pub open spec fn place_lambdas(p: ProgramView, ls: Seq<(Seq<char>, Seq<InstructionView>)>) -> ProgramView
    decreases ls.len(),
{
    if ls.len() == 0 {
        p
    } else {
        place_lambdas(
            ProgramView {
                instructions: p.instructions + ls[0].1,
                globals: store_key(
                    p.globals,
                    ls[0].0,
                    ValueView::FunctionPointer(p.instructions.len() as usize),
                ),
                ..p
            },
            ls.drop_first(),
        )
    }
}

/// Appends a compiled function, registered under `name`, then its
/// anonymous functions.
pub open spec fn place(p: ProgramView, name: Seq<char>, code: Seq<InstructionView>, ls: Seq<(Seq<char>, Seq<InstructionView>)>) -> ProgramView {
    place_lambdas(
        ProgramView {
            instructions: p.instructions + code,
            globals: store_key(p.globals, name, ValueView::FunctionPointer(p.instructions.len() as usize)),
            ..p
        },
        ls,
    )
}

pub open spec fn method_params(params: Seq<Token>) -> Seq<Seq<char>> {
    seq!["self"@] + param_names(params)
}

/// Compiles the methods of a class body.
pub open spec fn emit_methods(p: ProgramView, class: Seq<char>, body: Seq<Token>) -> Option<ProgramView>
    decreases body.len(),
{
    if body.len() == 0 {
        Some(p)
    } else {
        match body[0] {
            Token::Function(_, m, params, fbody) => {
                let q = member_name(class, m@);
                match c_function(q, method_params(params@), fbody@) {
                    Some((code, ls)) => emit_methods(place(p, q, code, ls), class, body.drop_first()),
                    None => None,
                }
            },
            _ => emit_methods(p, class, body.drop_first()),
        }
    }
}

/// The second pass: every function and method compiled and placed.
pub open spec fn emit_forms(forms: Seq<Token>, p: ProgramView) -> Option<ProgramView>
    decreases forms.len(),
{
    if forms.len() == 0 {
        Some(p)
    } else {
        let rest = forms.drop_first();
        match forms[0] {
            Token::Class(name, body) => match emit_methods(p, name@, body@) {
                Some(at_end) => emit_forms(rest, at_end),
                None => None,
            },
            Token::Function(class, name, params, body) => {
                let names = match class {
                    Some(_) => method_params(params@),
                    None => param_names(params@),
                };
                match c_function(qualified(class, name), names, body@) {
                    Some((code, ls)) => emit_forms(rest, place(p, qualified(class, name), code, ls)),
                    None => None,
                }
            },
            _ => emit_forms(rest, p),
        }
    }
}

/// The program compiled from the top-level forms of a script.
pub open spec fn compile_forms(forms: Seq<Token>) -> Option<ProgramView> {
    match reserve(forms, forms, Seq::empty(), Seq::empty()) {
        Some((g, cs)) => emit_forms(
            forms,
            ProgramView { instructions: Seq::empty(), globals: g, classes: cs },
        ),
        None => None,
    }
}

fn member_text(class: &String, method: &String) -> (r: String)
    ensures
        r@ == member_name(class@, method@),
{
    let mut r = class.clone();
    r.append(".");
    r.append(method.as_str());
    r
}

fn qualified_text(class: &Option<String>, name: &String) -> (r: String)
    ensures
        r@ == qualified(*class, *name),
{
    match class {
        Some(c) => member_text(c, name),
        None => name.clone(),
    }
}

/// The template of a class from its body (see `members`).
fn class_members(class: &String, body: &Vec<Token>) -> (r: Result<Entries, String>)
    ensures
        match r {
            Ok(e) => members(class@, body@, Seq::empty()) == Some(entries_view(e@)),
            Err(_) => members(class@, body@, Seq::empty()) is None,
        },
{
    let mut acc: Entries = Vec::new();
    let mut i: usize = 0;
    assert(body@.subrange(0, body@.len() as int) =~= body@);
    assert(entries_view(acc@) =~= Seq::<(Seq<char>, ValueView)>::empty());
    while i < body.len()
        invariant
            i <= body@.len(),
            members(class@, body@, Seq::empty()) == members(
                class@,
                body@.subrange(i as int, body@.len() as int),
                entries_view(acc@),
            ),
        decreases body.len() - i,
    {
        let ghost sub = body@.subrange(i as int, body@.len() as int);
        assert(sub[0] == body@[i as int]);
        assert(sub.drop_first() =~= body@.subrange(i + 1, body@.len() as int));
        match &body[i] {
            Token::Function(_, m, _, _) => put(&mut acc, m.clone(), Value::FunctionRef(member_text(class, m))),
            Token::Variable(v, _) => put(&mut acc, v.to_string(), Value::Null),
            Token::Comment(_) => {},
            _ => {
                return Err("a class body holds only variables and functions".to_owned());
            },
        }
        i = i + 1;
    }
    Ok(acc)
}

/// Adds the functions written `function Class:name` to a class template.
fn add_qualified_methods(class: &String, forms: &Vec<Token>, acc: &mut Entries)
    ensures
        entries_view(final(acc)@) == qualified_methods(class@, forms@, entries_view(old(acc)@)),
{
    let mut i: usize = 0;
    assert(forms@.subrange(0, forms@.len() as int) =~= forms@);
    while i < forms.len()
        invariant
            i <= forms@.len(),
            qualified_methods(class@, forms@, entries_view(old(acc)@)) == qualified_methods(
                class@,
                forms@.subrange(i as int, forms@.len() as int),
                entries_view(acc@),
            ),
        decreases forms.len() - i,
    {
        let ghost sub = forms@.subrange(i as int, forms@.len() as int);
        assert(sub[0] == forms@[i as int]);
        assert(sub.drop_first() =~= forms@.subrange(i + 1, forms@.len() as int));
        match &forms[i] {
            Token::Function(Some(c), m, _, _) => {
                if *c == *class {
                    put(acc, m.clone(), Value::FunctionRef(member_text(class, m)));
                }
            },
            _ => {},
        }
        i = i + 1;
    }
}

/// Appends a compiled function under `name`, then its anonymous functions.
fn place_function(p: &mut Program, name: String, f: Function)
    ensures
        program_view(*final(p)) == place(
            program_view(*old(p)),
            name@,
            code_view(f.instructions@),
            lambdas_view(f.anon_functions@),
        ),
{
    let ghost ls = lambdas_view(f.anon_functions@);
    let ghost first = ProgramView {
        instructions: program_view(*old(p)).instructions + code_view(f.instructions@),
        globals: store_key(
            program_view(*old(p)).globals,
            name@,
            ValueView::FunctionPointer(old(p).instructions@.len() as usize),
        ),
        ..program_view(*old(p))
    };
    let start = p.instructions.len();
    put(&mut p.globals, name, Value::FunctionPointer(start));
    let mut code = f.instructions;
    p.instructions.append(&mut code);
    assert(program_view(*p).instructions =~= first.instructions);
    assert(program_view(*p) == first);
    let lambdas = f.anon_functions;
    let mut i: usize = 0;
    assert(ls.subrange(0, ls.len() as int) =~= ls);
    while i < lambdas.len()
        invariant
            i <= lambdas@.len(),
            ls == lambdas_view(lambdas@),
            place_lambdas(first, ls) == place_lambdas(
                program_view(*p),
                ls.subrange(i as int, ls.len() as int),
            ),
        decreases lambdas.len() - i,
    {
        let ghost sub = ls.subrange(i as int, ls.len() as int);
        assert(sub[0] == (lambdas@[i as int].0@, code_view(lambdas@[i as int].1@)));
        assert(sub.drop_first() =~= ls.subrange(i + 1, ls.len() as int));
        let ghost before = program_view(*p);
        let at = p.instructions.len();
        put(&mut p.globals, lambdas[i].0.clone(), Value::FunctionPointer(at));
        let mut body = duplicate_code(&lambdas[i].1);
        p.instructions.append(&mut body);
        assert(program_view(*p).instructions =~= before.instructions + sub[0].1);
        i = i + 1;
    }
}

fn duplicate_code(code: &Vec<Instruction>) -> (r: Vec<Instruction>)
    ensures
        r@ == code@,
{
    let mut r: Vec<Instruction> = Vec::new();
    let mut i: usize = 0;
    while i < code.len()
        invariant
            i <= code@.len(),
            r@ == code@.subrange(0, i as int),
        decreases code.len() - i,
    {
        r.push(code[i].duplicate());
        i = i + 1;
    }
    assert(r@ =~= code@);
    r
}

fn method_parameters(params: &Vec<Token>) -> (r: Vec<String>)
    ensures
        texts(r@) == method_params(params@),
{
    let mut r: Vec<String> = Vec::new();
    r.push("self".to_owned());
    let mut rest = parameter_names(params);
    r.append(&mut rest);
    assert(texts(r@) =~= method_params(params@));
    r
}

/// Compiles and places the methods of a class body.
fn compile_methods(p: &mut Program, class: &String, body: &Vec<Token>) -> (r: Result<(), String>)
    ensures
        match r {
            Ok(()) => emit_methods(program_view(*old(p)), class@, body@) == Some(program_view(*final(p))),
            Err(_) => emit_methods(program_view(*old(p)), class@, body@) is None,
        },
{
    let mut i: usize = 0;
    assert(body@.subrange(0, body@.len() as int) =~= body@);
    while i < body.len()
        invariant
            i <= body@.len(),
            emit_methods(program_view(*old(p)), class@, body@) == emit_methods(
                program_view(*p),
                class@,
                body@.subrange(i as int, body@.len() as int),
            ),
        decreases body.len() - i,
    {
        let ghost sub = body@.subrange(i as int, body@.len() as int);
        assert(sub[0] == body@[i as int]);
        assert(sub.drop_first() =~= body@.subrange(i + 1, body@.len() as int));
        match &body[i] {
            Token::Function(_, m, params, fbody) => {
                let q = member_text(class, m);
                match Function::new(q.clone(), method_parameters(params), fbody) {
                    Ok(f) => place_function(p, q, f),
                    Err(e) => {
                        return Err(e);
                    },
                }
            },
            _ => {},
        }
        i = i + 1;
    }
    Ok(())
}

/// Compiles the top-level forms of a script into a program: a first pass
/// records constants, class templates and the functions' names, a second
/// compiles each function and method and places it.
pub fn compile_tokens(script: &Vec<Token>) -> (r: Result<Program, String>)
    ensures
        match r {
            Ok(p) => compile_forms(script@) == Some(program_view(p)),
            Err(_) => compile_forms(script@) is None,
        },
{
    let mut p = Program::new();
    let ghost empty_view = program_view(p);
    assert(empty_view.globals =~= Seq::<(Seq<char>, ValueView)>::empty());
    assert(empty_view.classes =~= Seq::<(Seq<char>, Seq<(Seq<char>, ValueView)>)>::empty());
    let mut i: usize = 0;
    assert(script@.subrange(0, script@.len() as int) =~= script@);
    while i < script.len()
        invariant
            i <= script@.len(),
            p.instructions@.len() == 0,
            reserve(script@, script@, Seq::empty(), Seq::empty()) == reserve(
                script@.subrange(i as int, script@.len() as int),
                script@,
                program_view(p).globals,
                program_view(p).classes,
            ),
        decreases script.len() - i,
    {
        let ghost sub = script@.subrange(i as int, script@.len() as int);
        assert(sub[0] == script@[i as int]);
        assert(sub.drop_first() =~= script@.subrange(i + 1, script@.len() as int));
        match &script[i] {
            Token::Constant(name, value) => {
                match &**value {
                    Token::Integer(v) => put(&mut p.globals, name.to_string(), Value::Integer(*v)),
                    Token::Float(f) => put(&mut p.globals, name.to_string(), Value::Float(f.clone())),
                    Token::String(s) => put(&mut p.globals, name.to_string(), Value::String(s.clone())),
                    Token::Bool(b) => put(&mut p.globals, name.to_string(), Value::Bool(*b)),
                    _ => {},
                }
            },
            Token::Class(name, body) => {
                let mut template = match class_members(name, body) {
                    Ok(m) => m,
                    Err(e) => {
                        return Err(e);
                    },
                };
                add_qualified_methods(name, script, &mut template);
                put(&mut p.globals, name.clone(), Value::Class(name.clone()));
                let ghost before = program_view(p).classes;
                let ghost tv = entries_view(template@);
                p.classes.push((name.clone(), template));
                assert(program_view(p).classes =~= before.push((name@, tv)));
            },
            Token::Function(class, name, _, _) => {
                put(&mut p.globals, qualified_text(class, name), Value::FunctionPointer(0));
            },
            _ => {},
        }
        i = i + 1;
    }
    let ghost reserved = program_view(p);
    assert(reserved.instructions =~= Seq::<InstructionView>::empty());
    let mut i: usize = 0;
    while i < script.len()
        invariant
            i <= script@.len(),
            compile_forms(script@) == emit_forms(
                script@.subrange(i as int, script@.len() as int),
                program_view(p),
            ),
        decreases script.len() - i,
    {
        let ghost sub = script@.subrange(i as int, script@.len() as int);
        assert(sub[0] == script@[i as int]);
        assert(sub.drop_first() =~= script@.subrange(i + 1, script@.len() as int));
        match &script[i] {
            Token::Class(name, body) => {
                if let Err(e) = compile_methods(&mut p, name, body) {
                    return Err(e);
                }
            },
            Token::Function(class, name, params, body) => {
                let names = match class {
                    Some(_) => method_parameters(params),
                    None => parameter_names(params),
                };
                let q = qualified_text(class, name);
                match Function::new(q.clone(), names, body) {
                    Ok(f) => place_function(&mut p, q, f),
                    Err(e) => {
                        return Err(e);
                    },
                }
            },
            _ => {},
        }
        i = i + 1;
    }
    Ok(p)
}

/// The compiler: from source text to a program.
pub struct Compiler {}

impl Compiler {
    pub fn new() -> (r: Compiler) {
        Compiler {  }
    }

    /// Parses `source` and compiles the script it holds. It succeeds exactly
    /// when the parser accepts the source and the parsed forms compile;
    /// the forms it compiles spell the source's lexemes.
    pub fn compile(&mut self, source: &str) -> (r: Result<Program, String>)
        ensures
            r is Ok ==> parse_accepts(source@),
            parse_accepts(source@) && (forall|forms: Seq<Token>| #[trigger] spells_script(forms, source@)
                ==> compile_forms(forms) is Some) ==> r is Ok,
            (parse_accepts(source@) && r is Err) ==> exists|forms: Seq<Token>|
                #[trigger] spells_script(forms, source@) && compile_forms(forms) is None,
            r matches Ok(p) ==> exists|forms: Seq<Token>|
                #[trigger] spells_script(forms, source@) && compile_forms(forms) == Some(program_view(p)),
    {
        match parse_script(source) {
            Ok(forms) => {
                assert(spells_script(forms@, source@));
                compile_tokens(&forms)
            },
            Err(e) => Err(e),
        }
    }
}

/// The parser accepts the source: it lexes, and the recognizer takes its
/// lexemes as a script.
pub open spec fn parse_accepts(source: Seq<char>) -> bool {
    crate::lexer::lex_from(source, 0, false) matches Some(lv) && r_forms(lv, 0)
}

/// `forms` are top-level forms that spell exactly the lexemes of `source`.
pub open spec fn spells_script(forms: Seq<Token>, source: Seq<char>) -> bool {
    &&& forall|i: int| 0 <= i < forms.len() ==> top_level(#[trigger] forms[i])
    &&& crate::lexer::lex_from(source, 0, false) matches Some(lv) && span_seq(forms, unglued(lv), 0)
        == Some(lv.len() as int)
}

} // verus!
