use vstd::prelude::*;

pub mod ast;
pub mod lexer;
pub mod module_loader;
pub mod ast_display;

verus! {

} // verus!
