use vstd::prelude::*;
use crate::lua::block::Block;
use crate::lua::traits::strs_v;
use crate::lua::visitor_expression::SymbolVisitor;

verus! {

/// An expression: the instructions that lay it out, and a walk over its leaves.
pub trait Expression {
    /// The instructions that lay the expression out.
    spec fn semantic_spec(&self) -> Seq<Seq<char>>;

    fn semantic(&self, block: &Block) -> (lines: Vec<String>)
        ensures
            strs_v(lines@) == self.semantic_spec(),
    ;

    fn accept<V: SymbolVisitor>(&self, visitor: &V);
}

} // verus!
