// The back end: the symbols of the generated code, and the code generation that turns an expression into the
// instructions of a module.
pub mod symbol;
pub mod base;
