use vstd::prelude::*;
use crate::lua::expressions::{IdentExpression, NumExpression};

verus! {

/// A walk over the leaves of an expression.
pub trait SymbolVisitor {
    fn visit_num(&self, num_exp: &NumExpression);

    fn visit_ident(&self, ident_exp: &IdentExpression);
}

/// Evaluates expressions; leaves need no work yet.
struct ExpressionEvaluator;

impl SymbolVisitor for ExpressionEvaluator {
    fn visit_num(&self, num_exp: &NumExpression) {
    }

    fn visit_ident(&self, ident_exp: &IdentExpression) {
    }
}

} // verus!
