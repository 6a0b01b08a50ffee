pub mod lexer;
pub mod token;
pub mod table;
pub mod error;
pub mod variant;
pub mod instruction;
pub mod ops;
pub mod frame;
pub mod program;
pub mod natives;
pub mod nclass;
pub mod vm;
pub mod stdlib;
pub mod syntax;
pub mod parser;
pub mod timing;
pub mod codegen;
pub mod blocks;
pub mod script;
pub mod imports;
pub mod laws;
pub mod grammar;
