use vstd::prelude::*;

verus! {

/// One instruction of the stack machine. Jump distances are relative to the
/// position of the jump itself.
#[derive(Clone, Debug, PartialEq)]
pub enum Instruction {
    // stack
    PushNull,
    PushInteger(i32),
    PushFloat(String),
    PushBool(bool),
    PushString(String),
    PushFunctionRef(String),
    // variables
    MoveToLocalVariable(usize),
    LoadLocalVariable(usize),
    // globals
    LoadGlobal(String),
    LoadMethod(String),
    // objects
    CreateObject(String, usize),
    // collections
    GetCollectionItem,
    SetCollectionItem,
    CreateCollectionAsDictionary(usize),
    CreateCollectionAsArray(usize),
    // iteration
    IteratorStart,
    IteratorNext(usize, usize),
    // control flow
    Call(usize),
    JumpForward(usize),
    JumpBackward(usize),
    JumpIfFalse(usize),
    Return(bool),
    // arithmetic
    Equal,
    NotEqual,
    Add,
    Sub,
    Multiply,
    Divide,
    Pow,
    // comparison
    LessThan,
    LessThanOrEqual,
    GreaterThan,
    GreaterThanOrEqual,
    // a placeholder that is never meant to run
    Halt(String),
}

impl Instruction {
    pub fn duplicate(&self) -> (r: Instruction)
        ensures
            r == *self,
    {
        match self {
            Instruction::PushNull => Instruction::PushNull,
            Instruction::PushInteger(v) => Instruction::PushInteger(*v),
            Instruction::PushFloat(v) => Instruction::PushFloat(v.clone()),
            Instruction::PushBool(v) => Instruction::PushBool(*v),
            Instruction::PushString(v) => Instruction::PushString(v.clone()),
            Instruction::PushFunctionRef(v) => Instruction::PushFunctionRef(v.clone()),
            Instruction::MoveToLocalVariable(s) => Instruction::MoveToLocalVariable(*s),
            Instruction::LoadLocalVariable(s) => Instruction::LoadLocalVariable(*s),
            Instruction::LoadGlobal(n) => Instruction::LoadGlobal(n.clone()),
            Instruction::LoadMethod(n) => Instruction::LoadMethod(n.clone()),
            Instruction::CreateObject(n, c) => Instruction::CreateObject(n.clone(), *c),
            Instruction::GetCollectionItem => Instruction::GetCollectionItem,
            Instruction::SetCollectionItem => Instruction::SetCollectionItem,
            Instruction::CreateCollectionAsDictionary(n) => Instruction::CreateCollectionAsDictionary(*n),
            Instruction::CreateCollectionAsArray(n) => Instruction::CreateCollectionAsArray(*n),
            Instruction::IteratorStart => Instruction::IteratorStart,
            Instruction::IteratorNext(s, d) => Instruction::IteratorNext(*s, *d),
            Instruction::Call(n) => Instruction::Call(*n),
            Instruction::JumpForward(d) => Instruction::JumpForward(*d),
            Instruction::JumpBackward(d) => Instruction::JumpBackward(*d),
            Instruction::JumpIfFalse(d) => Instruction::JumpIfFalse(*d),
            Instruction::Return(h) => Instruction::Return(*h),
            Instruction::Equal => Instruction::Equal,
            Instruction::NotEqual => Instruction::NotEqual,
            Instruction::Add => Instruction::Add,
            Instruction::Sub => Instruction::Sub,
            Instruction::Multiply => Instruction::Multiply,
            Instruction::Divide => Instruction::Divide,
            Instruction::Pow => Instruction::Pow,
            Instruction::LessThan => Instruction::LessThan,
            Instruction::LessThanOrEqual => Instruction::LessThanOrEqual,
            Instruction::GreaterThan => Instruction::GreaterThan,
            Instruction::GreaterThanOrEqual => Instruction::GreaterThanOrEqual,
            Instruction::Halt(m) => Instruction::Halt(m.clone()),
        }
    }
}

} // verus!
