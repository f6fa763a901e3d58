use vstd::prelude::*;

pub mod ptr;
pub mod tokens;
pub mod ast;
pub mod lexer;
pub mod parser;
pub mod visit;
pub mod visitor_impl;
pub mod lua;
pub mod trans;
pub mod driver;
pub mod show;

verus! {
} // verus!
