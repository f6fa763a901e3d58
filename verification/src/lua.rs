// The front end for a small subset of Lua: its values, expressions, statements, blocks and the
// statement parser, which reads the tokens of the crate's lexer.
pub mod lua_types;
pub mod traits;
pub mod trait_expression;
pub mod visitor_expression;
pub mod expressions;
pub mod statements;
pub mod block;
pub mod parser;
