pub mod cursor;
pub mod lexer;
pub mod peekable_cursor;
pub mod span;
pub mod text;
pub mod common;
pub mod hir;
pub mod ast;
pub mod desugarer;
pub mod table;
pub mod typechecker;
pub mod compiler;
pub mod vm;
pub mod astbuilder;
