use vstd::prelude::*;
use crate::ast::{Block, Decl, Expr, Stmt, SDecl, SExpr};

verus! {

/// A walk over the syntax tree. Each implementation says which expressions and declarations it
/// accepts; the default methods do nothing.
pub trait Visitor<'a>: Sized {
    spec fn accepts_expr(&self, expr: SExpr) -> bool;

    spec fn accepts_decl(&self, decl: SDecl) -> bool;

    fn visit_block(&mut self, block: &'a Block) {
    }

    fn visit_stmt(&mut self, stmt: &'a Stmt) {
    }

    fn visit_expr(&mut self, expr: &'a mut Expr)
        requires
            old(self).accepts_expr(old(expr)@),
    {
    }

    fn visit_decl(&mut self, decl: &'a mut Decl)
        requires
            old(self).accepts_decl(old(decl)@),
    {
    }
}

} // verus!
