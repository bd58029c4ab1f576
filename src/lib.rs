//! A small scripting language: a parser from source text to a syntax tree, a
//! compiler from the tree to a flat stack-machine instruction stream, and a
//! virtual machine that runs that stream one instruction at a time.

pub mod counter;
pub mod value;
pub mod frame;
pub mod instructions;
pub mod program;
pub mod semantics;
pub mod machine;
pub mod token;
pub mod lowering;
pub mod function;
pub mod compiler;
pub mod lexer;
pub mod parser;
pub mod laws;
pub mod jumps;
pub mod naming;

pub use compiler::Compiler;
pub use counter::IndexedCounter;
pub use frame::Frame;
pub use function::Function;
pub use instructions::Instruction;
pub use machine::{Collection, Event, Machine, VM};
pub use program::Program;
pub use semantics::{Operator, RunState};
pub use token::Token;
pub use value::Value;
