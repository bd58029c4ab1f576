use vstd::prelude::*;

verus! {

/// A node of the syntax tree.
#[derive(Debug)]
pub enum Token {
    Comment(String),
    Import(String),
    /// An optional class, a name, parameters and a body.
    Function(Option<String>, String, Vec<Token>, Vec<Token>),
    AnonFunction(Vec<Token>, Vec<Token>),
    Class(String, Vec<Token>),
    Constructor(Vec<Token>, Vec<Token>),
    Identifier(String),
    DotChain(Box<Token>, Vec<Token>),
    Variable(Box<Token>, Box<Token>),
    Constant(Box<Token>, Box<Token>),
    NewObject(String, Vec<Token>),
    Assign(Box<Token>, Box<Token>),
    Null,
    Integer(i32),
    /// A float literal, as written.
    Float(String),
    Bool(bool),
    String(String),
    Array(Vec<Token>),
    Dictionary(Vec<Token>),
    KeyValuePair(String, Box<Token>),
    CollectionIndex(Box<Token>, Box<Token>),
    Eq(Box<Token>, Box<Token>),
    Ne(Box<Token>, Box<Token>),
    Lt(Box<Token>, Box<Token>),
    Le(Box<Token>, Box<Token>),
    Gt(Box<Token>, Box<Token>),
    Ge(Box<Token>, Box<Token>),
    Add(Box<Token>, Box<Token>),
    Sub(Box<Token>, Box<Token>),
    Mul(Box<Token>, Box<Token>),
    Div(Box<Token>, Box<Token>),
    Pow(Box<Token>, Box<Token>),
    IfElse(Box<Token>, Vec<Token>, Option<Vec<Token>>),
    WhileLoop(Box<Token>, Vec<Token>),
    ForEach(Box<Token>, Box<Token>, Vec<Token>),
    /// Loop variable, start, step, end and body.
    ForI(Box<Token>, Box<Token>, Box<Token>, Box<Token>, Vec<Token>),
    Call(Box<Token>, Vec<Token>),
    Return(Box<Token>),
}

/// The name a node stands for: an identifier's or a string's text, a
/// function's name (after its class and `::`), and nothing for other nodes.
pub open spec fn text(t: Token) -> Seq<char> {
    match t {
        Token::Function(class, name, _, _) => match class {
            Some(c) => c@ + "::"@ + name@,
            None => name@,
        },
        Token::Identifier(name) => name@,
        Token::String(s) => s@,
        _ => Seq::empty(),
    }
}

impl Token {
    pub fn to_string(&self) -> (r: String)
        ensures
            r@ == text(*self),
    {
        match self {
            Token::Function(class, name, _, _) => match class {
                Some(c) => {
                    let mut s = c.clone();
                    s.append("::");
                    s.append(name.as_str());
                    s
                },
                None => name.clone(),
            },
            Token::Identifier(name) => name.clone(),
            Token::String(s) => s.clone(),
            _ => String::new(),
        }
    }
}

} // verus!
