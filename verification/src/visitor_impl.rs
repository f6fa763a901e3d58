use vstd::prelude::*;
use itertools::Itertools;
use crate::ast::{
    Binding, Decl, Expr, SBinding, SDecl, SExpr, SType, TType, bx, expr_v, decl_v, pairs_v,
    opt_pairs_v, exprs_v, decls_v, targs_v, lemma_call_view, lemma_seq_view, lemma_let_view,
};
use crate::ptr::B;
use crate::visit::Visitor;

verus! {

pub type OptionalBinding = Option<B<Binding>>;

/// A scope entry: a name and its binding; a scope starts with a marker, which has no binding.
pub type SymEntry = (Seq<char>, Option<SBinding>);

/// The model of the type checker: its symbol table and the type of the last expression checked.
pub struct TCState {
    pub syms: Seq<SymEntry>,
    pub ty: SType,
}

pub open spec fn marker() -> Seq<char> {
    "<marker>"@
}

pub open spec fn binding_ty(b: SBinding) -> SType {
    match b {
        SBinding::Type(t) => t,
        SBinding::Var(t) => t,
        SBinding::Func(t) => t,
    }
}

/// The built-in functions and their result types.
pub open spec fn std_fn(id: Seq<char>) -> Option<SType> {
    if id == "print"@ {
        Some(SType::Void)
    } else if id == "flush"@ {
        Some(SType::Void)
    } else if id == "getchar"@ {
        Some(SType::Str)
    } else if id == "ord"@ {
        Some(SType::Int)
    } else if id == "chr"@ {
        Some(SType::Str)
    } else if id == "size"@ {
        Some(SType::Int)
    } else if id == "substring"@ {
        Some(SType::Str)
    } else if id == "concat"@ {
        Some(SType::Str)
    } else if id == "not"@ {
        Some(SType::Int)
    } else if id == "exit"@ {
        Some(SType::Void)
    } else {
        None
    }
}

/// The first entry named `id`, from the bottom of the table: its binding, if it has one.
pub open spec fn id_lookup(syms: Seq<SymEntry>, id: Seq<char>) -> Option<Option<SBinding>>
    decreases syms.len(),
{
    if syms.len() == 0 {
        None
    } else if syms[0].0 == id {
        Some(syms[0].1)
    } else {
        id_lookup(syms.drop_first(), id)
    }
}

/// Looks `id` up as a callee, from the top of the table: whether the name occurs, and the type
/// of the innermost function so named. `None` where a marker bears the name.
pub open spec fn call_lookup(syms: Seq<SymEntry>, id: Seq<char>) -> Option<(bool, Option<SType>)>
    decreases syms.len(),
{
    if syms.len() == 0 {
        Some((false, None))
    } else if syms.last().0 == id {
        match syms.last().1 {
            None => None,
            Some(SBinding::Func(t)) => Some((true, Some(t))),
            Some(_) => match call_lookup(syms.drop_last(), id) {
                Some((_, r)) => Some((true, r)),
                None => None,
            },
        }
    } else {
        call_lookup(syms.drop_last(), id)
    }
}

/// The type of the innermost binding of `id` of the kind `want_func` says; `None` where a marker
/// bears the name.
pub open spec fn kind_lookup(syms: Seq<SymEntry>, id: Seq<char>, want_func: bool) -> Option<
    Option<SType>,
>
    decreases syms.len(),
{
    if syms.len() == 0 {
        Some(None)
    } else if syms.last().0 == id {
        match syms.last().1 {
            None => None,
            Some(b) => if want_func && b is Func {
                Some(Some(binding_ty(b)))
            } else if !want_func && b is Var {
                Some(Some(binding_ty(b)))
            } else {
                kind_lookup(syms.drop_last(), id, want_func)
            },
        }
    } else {
        kind_lookup(syms.drop_last(), id, want_func)
    }
}

/// The type recorded for a call argument once the callee's table is known.
pub open spec fn fix_arg(syms: Seq<SymEntry>, a: (SType, SExpr)) -> Option<(SType, SExpr)> {
    match a.1 {
        SExpr::Call(id, _) => match kind_lookup(syms, id, true) {
            None => None,
            Some(Some(t)) => Some((t, a.1)),
            Some(None) => match std_fn(id) {
                Some(t) => Some((t, a.1)),
                None => Some(a),
            },
        },
        SExpr::Id(id) => match kind_lookup(syms, id, false) {
            None => None,
            Some(Some(t)) => Some((t, a.1)),
            Some(None) => Some(a),
        },
        SExpr::Subscript(id, _) => match kind_lookup(syms, id, false) {
            None => None,
            Some(Some(t)) => Some((t, a.1)),
            Some(None) => Some(a),
        },
        _ => Some(a),
    }
}

pub open spec fn fix_args(syms: Seq<SymEntry>, args: Seq<(SType, SExpr)>) -> Option<
    Seq<(SType, SExpr)>,
>
    decreases args.len(),
{
    if args.len() == 0 {
        Some(seq![])
    } else {
        match (fix_args(syms, args.drop_last()), fix_arg(syms, args.last())) {
            (Some(fs), Some(f)) => Some(fs.push(f)),
            _ => None,
        }
    }
}

/// Pops the table down to the topmost marker, and the marker.
pub open spec fn pop_to_marker(syms: Seq<SymEntry>) -> Option<Seq<SymEntry>>
    decreases syms.len(),
{
    if syms.len() == 0 {
        None
    } else if syms.last().0 == marker() {
        Some(syms.drop_last())
    } else {
        pop_to_marker(syms.drop_last())
    }
}

pub open spec fn with_ty(st: TCState, t: SType) -> TCState {
    TCState { ty: t, ..st }
}

pub open spec fn push_sym(st: TCState, id: Seq<char>, b: Option<SBinding>) -> TCState {
    TCState { syms: st.syms.push((id, b)), ..st }
}

pub open spec fn names(s: Seq<(Seq<char>, SType)>) -> Seq<Seq<char>> {
    s.map_values(|p: (Seq<char>, SType)| p.0)
}

/// Some two entries of the list bear the same name.
pub open spec fn has_dup_names(s: Seq<(Seq<char>, SType)>) -> bool {
    exists|i: int, j: int| 0 <= i < j < s.len() && s[i].0 == s[j].0
}

/// Every entry named `id` is a variable binding.
pub open spec fn all_var_bindings(syms: Seq<SymEntry>, id: Seq<char>) -> bool {
    forall|i: int|
        0 <= i < syms.len() && #[trigger] syms[i].0 == id ==> syms[i].1 is Some && syms[i].1->0 is Var
}

/// What checking an expression does: the new state and the expression with its call arguments'
/// types recorded. `None` stands for the expressions that the type checker rejects (it panics).
pub open spec fn tc_expr(st: TCState, e: SExpr) -> Option<(TCState, SExpr)>
    decreases e, 1int,
{
    match e {
        SExpr::Nil => Some((with_ty(st, SType::Str), e)),
        SExpr::Num(_) => Some((with_ty(st, SType::Int), e)),
        SExpr::Str(_) => Some((with_ty(st, SType::Str), e)),
        SExpr::Id(id) => match id_lookup(st.syms, id) {
            Some(Some(b)) => Some((with_ty(st, binding_ty(b)), e)),
            _ => None,
        },
        SExpr::LessThan(a, b) => match tc_expr(st, *a) {
            Some((st1, a1)) => match tc_expr(st1, *b) {
                Some((st2, b1)) => if st2.ty != st1.ty {
                    None
                } else {
                    Some((st2, SExpr::LessThan(bx(a1), bx(b1))))
                },
                None => None,
            },
            None => None,
        },
        SExpr::GreaterThan(a, b) => match tc_expr(st, *a) {
            Some((st1, a1)) => match tc_expr(st1, *b) {
                Some((st2, b1)) => if st2.ty != st1.ty {
                    None
                } else {
                    Some((st2, SExpr::GreaterThan(bx(a1), bx(b1))))
                },
                None => None,
            },
            None => None,
        },
        SExpr::Add(a, b) => match tc_expr(st, *a) {
            Some((st1, a1)) => if st1.ty != SType::Int {
                None
            } else {
                match tc_expr(st1, *b) {
                    Some((st2, b1)) => if st2.ty != SType::Int {
                        None
                    } else {
                        Some((st2, SExpr::Add(bx(a1), bx(b1))))
                    },
                    None => None,
                }
            },
            None => None,
        },
        SExpr::Mul(a, b) => match tc_expr(st, *a) {
            Some((st1, a1)) => if st1.ty != SType::Int {
                None
            } else {
                match tc_expr(st1, *b) {
                    Some((st2, b1)) => if st2.ty != SType::Int {
                        None
                    } else {
                        Some((st2, SExpr::Mul(bx(a1), bx(b1))))
                    },
                    None => None,
                }
            },
            None => None,
        },
        SExpr::Div(a, b) => match tc_expr(st, *a) {
            Some((st1, a1)) => if st1.ty != SType::Int {
                None
            } else {
                match tc_expr(st1, *b) {
                    Some((st2, b1)) => if st2.ty != SType::Int {
                        None
                    } else {
                        if b1 == SExpr::Num(0) {
                            None
                        } else {
                            Some((st2, SExpr::Div(bx(a1), bx(b1))))
                        }
                    },
                    None => None,
                }
            },
            None => None,
        },
        SExpr::Sequence(None) => Some((with_ty(st, SType::Void), e)),
        SExpr::Sequence(Some(es)) => match tc_list(st, es) {
            Some((st1, es1)) => Some((st1, SExpr::Sequence(Some(es1)))),
            None => None,
        },
        SExpr::IfThenElse(c, t, f) => match tc_expr(st, *c) {
            Some((st1, c1)) => if st1.ty != SType::Int {
                None
            } else {
                match tc_expr(st1, *t) {
                    Some((st2, t1)) => match tc_expr(st2, *f) {
                        Some((st3, f1)) => if st2.ty != st3.ty {
                            None
                        } else {
                            Some((st3, SExpr::IfThenElse(bx(c1), bx(t1), bx(f1))))
                        },
                        None => None,
                    },
                    None => None,
                }
            },
            None => None,
        },
        SExpr::IfThen(c, t) => match tc_expr(st, *c) {
            Some((st1, a1)) => if st1.ty != SType::Int {
                None
            } else {
                match tc_expr(st1, *t) {
                    Some((st2, b1)) => if st2.ty != SType::Void {
                        None
                    } else {
                        Some((st2, SExpr::IfThen(bx(a1), bx(b1))))
                    },
                    None => None,
                }
            },
            None => None,
        },
        SExpr::While(c, t) => match tc_expr(st, *c) {
            Some((st1, a1)) => if st1.ty != SType::Int {
                None
            } else {
                match tc_expr(st1, *t) {
                    Some((st2, b1)) => if st2.ty != SType::Void {
                        None
                    } else {
                        Some((st2, SExpr::While(bx(a1), bx(b1))))
                    },
                    None => None,
                }
            },
            None => None,
        },
        SExpr::For(id, f, t, b) => match tc_expr(st, *f) {
            Some((st1, a1)) => if st1.ty != SType::Int {
                None
            } else {
                match tc_expr(st1, *t) {
                    Some((st2, b1)) => if st2.ty != SType::Int {
                        None
                    } else {
                        match tc_expr(st2, *b) {
                            Some((st3, c1)) => if st3.ty != SType::Void {
                                None
                            } else {
                                Some((st3, SExpr::For(id, bx(a1), bx(b1), bx(c1))))
                            },
                            None => None,
                        }
                    },
                    None => None,
                }
            },
            None => None,
        },
        SExpr::Call(id, args) => {
            let callee = if std_fn(id) is Some {
                Some((true, std_fn(id)))
            } else {
                call_lookup(st.syms, id)
            };
            match callee {
                Some((true, fty)) => {
                    let st1 = match fty {
                        Some(t) => with_ty(st, t),
                        None => st,
                    };
                    match args {
                        None => Some((st1, e)),
                        Some(v) => match fix_args(st1.syms, v) {
                            Some(v1) => Some((st1, SExpr::Call(id, Some(v1)))),
                            None => None,
                        },
                    }
                },
                _ => None,
            }
        },
        SExpr::Let(ds, body) => {
            let st0 = push_sym(st, marker(), None);
            match tc_decls(st0, ds) {
                Some((st1, ds1)) => {
                    let r = match body {
                        Some(b) => match tc_expr(st1, *b) {
                            Some((st2, b1)) => Some((st2, Some(bx(b1)))),
                            None => None,
                        },
                        None => Some((st1, None)),
                    };
                    match r {
                        Some((st2, b1)) => match pop_to_marker(st2.syms) {
                            Some(syms) => Some((TCState { syms: syms, ..st2 }, SExpr::Let(ds1, b1))),
                            None => None,
                        },
                        None => None,
                    }
                },
                None => None,
            }
        },
        _ => Some((st, e)),
    }
}

/// Checks the expressions of a sequence in order.
pub open spec fn tc_list(st: TCState, es: Seq<SExpr>) -> Option<(TCState, Seq<SExpr>)>
    decreases es, 0int,
{
    if es.len() == 0 {
        Some((st, es))
    } else {
        match tc_list(st, es.drop_last()) {
            Some((st1, es1)) => match tc_expr(st1, es.last()) {
                Some((st2, e1)) => Some((st2, es1.push(e1))),
                None => None,
            },
            None => None,
        }
    }
}

/// Checks the declarations of a let-expression in order.
pub open spec fn tc_decls(st: TCState, ds: Seq<SDecl>) -> Option<(TCState, Seq<SDecl>)>
    decreases ds, 0int,
{
    if ds.len() == 0 {
        Some((st, ds))
    } else {
        match tc_decls(st, ds.drop_last()) {
            Some((st1, ds1)) => match tc_decl(st1, ds.last()) {
                Some((st2, d1)) => Some((st2, ds1.push(d1))),
                None => None,
            },
            None => None,
        }
    }
}

pub open spec fn params_syms(ps: Seq<(Seq<char>, SType)>) -> Seq<SymEntry> {
    ps.map_values(|p: (Seq<char>, SType)| (p.0, Some(SBinding::Var(p.1))))
}

/// What checking a declaration does; `None` for the declarations the type checker rejects.
pub open spec fn tc_decl(st: TCState, d: SDecl) -> Option<(TCState, SDecl)>
    decreases d, 0int,
{
    match d {
        SDecl::VarDec(id, ty, e) => {
            match e {
                SExpr::Array(aty, dim, init) => match tc_expr(st, *dim) {
                    Some((st1, dim1)) => if aty != st1.ty {
                        None
                    } else {
                        match tc_expr(st1, *init) {
                            Some((st2, init1)) => if aty != st2.ty {
                                None
                            } else {
                                Some(
                                    (
                                        push_sym(st2, id, Some(SBinding::Var(st2.ty))),
                                        SDecl::VarDec(id, ty, SExpr::Array(aty, bx(dim1), bx(init1))),
                                    ),
                                )
                            },
                            None => None,
                        }
                    },
                    None => None,
                },
                _ => {
                    let pre_ok = match e {
                        SExpr::Id(id2) => all_var_bindings(st.syms, id2),
                        SExpr::Record(None) => false,
                        SExpr::Record(Some(list)) => list.len() == 0 || (names(list).to_set().len()
                            == list.len() && !(exists|i: int|
                            0 <= i < list.len() && #[trigger] list[i].1 == SType::Custom(id))),
                        _ => true,
                    };
                    if !pre_ok {
                        None
                    } else {
                        match tc_expr(st, e) {
                            Some((st1, e1)) => if st1.ty != SType::Nil && ty != st1.ty {
                                None
                            } else {
                                Some(
                                    (
                                        push_sym(st1, id, Some(SBinding::Var(st1.ty))),
                                        SDecl::VarDec(id, ty, e1),
                                    ),
                                )
                            },
                            None => None,
                        }
                    }
                },
            }
        },
        SDecl::FunDec(id, params, ret, body, _) => {
            let st0 = push_sym(st, marker(), None);
            let ps = match params {
                Some(p) => p,
                None => seq![],
            };
            let st1 = TCState { syms: st0.syms + params_syms(ps), ..st0 };
            match tc_expr(st1, body) {
                Some((st2, body1)) => if st2.ty != SType::Nil && ret != st2.ty {
                    None
                } else if has_dup_names(ps) {
                    None
                } else {
                    Some(
                        (
                            push_sym(with_ty(st2, ret), id, Some(SBinding::Func(ret))),
                            SDecl::FunDec(id, params, ret, body1, st2.ty),
                        ),
                    )
                },
                None => None,
            }
        },
        SDecl::TypeDec(id, _) => Some((push_sym(st, id, Some(SBinding::Type(st.ty))), d)),
    }
}

// ---------------------------------------------------------------------------------------------
// Scopes

/// Every scope that checking `e` opens is a let-expression's, and none of the names it declares
/// is spelled like the scope marker: no function is declared in `e` (a function declaration
/// opens a scope of its own that checking leaves open).
pub open spec fn scoped_expr(e: SExpr) -> bool
    decreases e, 1int,
{
    match e {
        SExpr::Let(ds, body) => {
            &&& forall|i: int| 0 <= i < ds.len() ==> scoped_decl(#[trigger] ds[i])
            &&& match body {
                Some(b) => scoped_expr(*b),
                None => true,
            }
        },
        SExpr::Sequence(Some(es)) => forall|i: int| 0 <= i < es.len() ==> scoped_expr(#[trigger] es[i]),
        SExpr::LessThan(a, b) | SExpr::GreaterThan(a, b) | SExpr::Add(a, b) | SExpr::Mul(a, b)
        | SExpr::Div(a, b) | SExpr::IfThen(a, b) | SExpr::While(a, b) => scoped_expr(*a)
            && scoped_expr(*b),
        SExpr::IfThenElse(a, b, c) => scoped_expr(*a) && scoped_expr(*b) && scoped_expr(*c),
        SExpr::For(_, a, b, c) => scoped_expr(*a) && scoped_expr(*b) && scoped_expr(*c),
        SExpr::Array(_, a, b) => scoped_expr(*a) && scoped_expr(*b),
        _ => true,
    }
}

/// A variable or type declaration whose name is not the scope marker, with a scoped value.
pub open spec fn scoped_decl(d: SDecl) -> bool
    decreases d, 0int,
{
    match d {
        SDecl::VarDec(id, _, e) => id != marker() && scoped_expr(e),
        SDecl::TypeDec(id, _) => id != marker(),
        SDecl::FunDec(_, _, _, _, _) => false,
    }
}

/// `b` is `a` with entries added on top, none of them a scope marker.
pub open spec fn pushed_above(a: Seq<SymEntry>, b: Seq<SymEntry>) -> bool {
    &&& a.len() <= b.len()
    &&& b.subrange(0, a.len() as int) == a
    &&& forall|i: int| a.len() <= i < b.len() ==> (#[trigger] b[i]).0 != marker()
}

proof fn lemma_pushed_above_trans(a: Seq<SymEntry>, b: Seq<SymEntry>, c: Seq<SymEntry>)
    requires
        pushed_above(a, b),
        pushed_above(b, c),
    ensures
        pushed_above(a, c),
{
    assert(c.subrange(0, a.len() as int) =~= c.subrange(0, b.len() as int).subrange(0, a.len() as int));
    assert forall|i: int| a.len() <= i < c.len() implies (#[trigger] c[i]).0 != marker() by {
        if i < b.len() {
            assert(c[i] == c.subrange(0, b.len() as int)[i]);
        }
    }
}

proof fn lemma_pushed_above_refl(a: Seq<SymEntry>)
    ensures
        pushed_above(a, a),
{
    assert(a.subrange(0, a.len() as int) =~= a);
}

/// Popping to the marker of a scope whose entries are no markers gives the table below it.
proof fn lemma_pop_to_marker(s: Seq<SymEntry>, t: Seq<SymEntry>)
    requires
        pushed_above(s.push((marker(), None)), t),
    ensures
        pop_to_marker(t) == Some(s),
    decreases t.len(),
{
    let m = s.push((marker(), None));
    if t.len() == m.len() {
        assert(t =~= m);
    } else {
        assert(t.last() == t[t.len() - 1]);
        assert(t.drop_last().subrange(0, m.len() as int) =~= t.subrange(0, m.len() as int));
        assert forall|i: int| m.len() <= i < t.drop_last().len() implies (
        #[trigger] t.drop_last()[i]).0 != marker() by {
            assert(t.drop_last()[i] == t[i]);
        }
        lemma_pop_to_marker(s, t.drop_last());
    }
}

/// Checking a scoped expression leaves the symbol table as it was.
proof fn lemma_tc_expr_keeps_syms(st: TCState, e: SExpr)
    requires
        scoped_expr(e),
    ensures
        tc_expr(st, e) matches Some((st2, _)) ==> st2.syms == st.syms,
    decreases e, 1int,
{
    match e {
        SExpr::LessThan(a, b) | SExpr::GreaterThan(a, b) | SExpr::Add(a, b) | SExpr::Mul(a, b)
        | SExpr::Div(a, b) | SExpr::IfThen(a, b) | SExpr::While(a, b) => {
            lemma_tc_expr_keeps_syms(st, *a);
            if let Some((st1, _)) = tc_expr(st, *a) {
                lemma_tc_expr_keeps_syms(st1, *b);
            }
        },
        SExpr::IfThenElse(a, b, c) | SExpr::For(_, a, b, c) => {
            lemma_tc_expr_keeps_syms(st, *a);
            if let Some((st1, _)) = tc_expr(st, *a) {
                lemma_tc_expr_keeps_syms(st1, *b);
                if let Some((st2, _)) = tc_expr(st1, *b) {
                    lemma_tc_expr_keeps_syms(st2, *c);
                }
            }
        },
        SExpr::Sequence(Some(es)) => {
            lemma_tc_list_keeps_syms(st, es);
        },
        SExpr::Let(ds, body) => {
            let st0 = push_sym(st, marker(), None);
            lemma_tc_decls_pushes(st0, ds);
            if let Some((st1, _)) = tc_decls(st0, ds) {
                let st2 = match body {
                    Some(b) => {
                        lemma_tc_expr_keeps_syms(st1, *b);
                        match tc_expr(st1, *b) {
                            Some((st2, _)) => st2,
                            None => st1,
                        }
                    },
                    None => st1,
                };
                lemma_pop_to_marker(st.syms, st2.syms);
            }
        },
        _ => {},
    }
}

proof fn lemma_tc_list_keeps_syms(st: TCState, es: Seq<SExpr>)
    requires
        forall|i: int| 0 <= i < es.len() ==> scoped_expr(#[trigger] es[i]),
    ensures
        tc_list(st, es) matches Some((st2, _)) ==> st2.syms == st.syms,
    decreases es, 0int,
{
    if es.len() > 0 {
        lemma_tc_list_keeps_syms(st, es.drop_last());
        if let Some((st1, _)) = tc_list(st, es.drop_last()) {
            assert(es.last() == es[es.len() - 1]);
            lemma_tc_expr_keeps_syms(st1, es.last());
        }
    }
}

proof fn lemma_tc_decls_pushes(st: TCState, ds: Seq<SDecl>)
    requires
        forall|i: int| 0 <= i < ds.len() ==> scoped_decl(#[trigger] ds[i]),
    ensures
        tc_decls(st, ds) matches Some((st2, _)) ==> pushed_above(st.syms, st2.syms),
    decreases ds, 0int,
{
    if ds.len() == 0 {
        lemma_pushed_above_refl(st.syms);
    } else {
        lemma_tc_decls_pushes(st, ds.drop_last());
        if let Some((st1, _)) = tc_decls(st, ds.drop_last()) {
            assert(ds.last() == ds[ds.len() - 1]);
            lemma_tc_decl_pushes(st1, ds.last());
            if let Some((st2, _)) = tc_decl(st1, ds.last()) {
                lemma_pushed_above_trans(st.syms, st1.syms, st2.syms);
            }
        }
    }
}

proof fn lemma_tc_decl_pushes(st: TCState, d: SDecl)
    requires
        scoped_decl(d),
    ensures
        tc_decl(st, d) matches Some((st2, _)) ==> pushed_above(st.syms, st2.syms),
    decreases d, 0int,
{
    match d {
        SDecl::VarDec(id, ty, e) => {
            match e {
                SExpr::Array(_, dim, init) => {
                    lemma_tc_expr_keeps_syms(st, *dim);
                    if let Some((st1, _)) = tc_expr(st, *dim) {
                        lemma_tc_expr_keeps_syms(st1, *init);
                    }
                },
                _ => {
                    lemma_tc_expr_keeps_syms(st, e);
                },
            }
            if let Some((st2, _)) = tc_decl(st, d) {
                assert(st2.syms.subrange(0, st.syms.len() as int) =~= st.syms);
            }
        },
        SDecl::TypeDec(id, _) => {
            assert(push_sym(st, id, Some(SBinding::Type(st.ty))).syms.subrange(
                0,
                st.syms.len() as int,
            ) =~= st.syms);
        },
        SDecl::FunDec(_, _, _, _, _) => {},
    }
}

/// The types that checking gives: a number is an integer, a string and `nil` are strings, an
/// empty sequence is void; `+`, `*` and `/` take two integers and give an integer, and a division
/// by the literal 0 is refused; `<` and `>` compare operands of one type; an `if` with an `else`
/// takes an integer condition and gives the type of its branches, which agree; `if` without
/// `else`, `while` and `for` take an integer condition (or integer bounds) and a void body and are
/// void.
pub proof fn law_checked_types(st: TCState, e: SExpr)
    ensures
        e matches SExpr::Div(_, b) && *b == SExpr::Num(0) ==> tc_expr(st, e) is None,
        tc_expr(st, e) is Some ==> ({
            let s = tc_expr(st, e).unwrap().0;
            &&& e is Num ==> s.ty == SType::Int
            &&& e is Str ==> s.ty == SType::Str
            &&& e is Nil ==> s.ty == SType::Str
            &&& e == SExpr::Sequence(None) ==> s.ty == SType::Void
            &&& (e is Add || e is Mul || e is Div) ==> s.ty == SType::Int
            &&& e matches SExpr::Add(a, _) ==> (tc_expr(st, *a) matches Some((s1, _)) && s1.ty
                == SType::Int)
            &&& e matches SExpr::Mul(a, _) ==> (tc_expr(st, *a) matches Some((s1, _)) && s1.ty
                == SType::Int)
            &&& e matches SExpr::Div(a, _) ==> (tc_expr(st, *a) matches Some((s1, _)) && s1.ty
                == SType::Int)
            &&& e matches SExpr::LessThan(a, _) ==> (tc_expr(st, *a) matches Some((s1, _)) && s1.ty
                == s.ty)
            &&& e matches SExpr::GreaterThan(a, _) ==> (tc_expr(st, *a) matches Some((s1, _))
                && s1.ty == s.ty)
            &&& (e is IfThen || e is While || e is For) ==> s.ty == SType::Void
            &&& e matches SExpr::IfThenElse(c, x, _) ==> (tc_expr(st, *c) matches Some((s1, _))
                && s1.ty == SType::Int && (tc_expr(s1, *x) matches Some((s2, _)) && s2.ty == s.ty))
            &&& e matches SExpr::IfThen(c, _) ==> (tc_expr(st, *c) matches Some((s1, _)) && s1.ty
                == SType::Int)
            &&& e matches SExpr::While(c, _) ==> (tc_expr(st, *c) matches Some((s1, _)) && s1.ty
                == SType::Int)
        }),
{
    if let SExpr::Div(a, b) = e {
        if *b == SExpr::Num(0) {
            if let Some((s1, _)) = tc_expr(st, *a) {
                assert(tc_expr(s1, *b) == Some((with_ty(s1, SType::Int), SExpr::Num(0))));
            }
        }
    }
}

/// A call of a built-in function has the built-in's result type, whatever the table holds and
/// whatever the arguments: `print`, `flush` and `exit` are void; `getchar`, `chr`, `substring`
/// and `concat` are strings; `ord`, `size` and `not` are integers.
pub proof fn law_builtin_call_types(st: TCState, args: Option<Seq<(SType, SExpr)>>)
    ensures
        tc_expr(st, SExpr::Call("print"@, args)) matches Some((s, _)) ==> s.ty == SType::Void,
        tc_expr(st, SExpr::Call("flush"@, args)) matches Some((s, _)) ==> s.ty == SType::Void,
        tc_expr(st, SExpr::Call("exit"@, args)) matches Some((s, _)) ==> s.ty == SType::Void,
        tc_expr(st, SExpr::Call("getchar"@, args)) matches Some((s, _)) ==> s.ty == SType::Str,
        tc_expr(st, SExpr::Call("chr"@, args)) matches Some((s, _)) ==> s.ty == SType::Str,
        tc_expr(st, SExpr::Call("substring"@, args)) matches Some((s, _)) ==> s.ty == SType::Str,
        tc_expr(st, SExpr::Call("concat"@, args)) matches Some((s, _)) ==> s.ty == SType::Str,
        tc_expr(st, SExpr::Call("ord"@, args)) matches Some((s, _)) ==> s.ty == SType::Int,
        tc_expr(st, SExpr::Call("size"@, args)) matches Some((s, _)) ==> s.ty == SType::Int,
        tc_expr(st, SExpr::Call("not"@, args)) matches Some((s, _)) ==> s.ty == SType::Int,
{
    reveal_strlit("print");
    reveal_strlit("flush");
    reveal_strlit("exit");
    reveal_strlit("getchar");
    reveal_strlit("chr");
    reveal_strlit("substring");
    reveal_strlit("concat");
    reveal_strlit("ord");
    reveal_strlit("size");
    reveal_strlit("not");
    assert("print"@.len() == 5);
    assert("flush"@.len() == 5);
    assert("exit"@.len() == 4);
    assert("getchar"@.len() == 7);
    assert("chr"@.len() == 3);
    assert("substring"@.len() == 9);
    assert("concat"@.len() == 6);
    assert("ord"@.len() == 3);
    assert("size"@.len() == 4);
    assert("not"@.len() == 3);
    assert("flush"@[0] != "print"@[0]);
    assert("chr"@[0] != "ord"@[0]);
    assert("not"@[0] != "ord"@[0]);
    assert("not"@[0] != "chr"@[0]);
    assert("exit"@[0] != "size"@[0]);
}

/// A record declaration `var id : rec := {fields}`, checked where the last type is nil or a
/// record (as in a fresh checker), is refused exactly where a field name repeats or a field has
/// the record's own type; otherwise `id` is bound to a variable.
pub proof fn law_record_decl_checks(st: TCState, id: Seq<char>, fields: Seq<(Seq<char>, SType)>)
    requires
        st.ty == SType::Nil || st.ty == SType::Record,
    ensures
        tc_decl(st, SDecl::VarDec(id, SType::Record, SExpr::Record(Some(fields)))) is None <==> (
        names(fields).to_set().len() != fields.len() || exists|i: int|
            0 <= i < fields.len() && #[trigger] fields[i].1 == SType::Custom(id)),
        tc_decl(st, SDecl::VarDec(id, SType::Record, SExpr::Record(Some(fields)))) matches Some(
            (s, _),
        ) ==> s == push_sym(st, id, Some(SBinding::Var(st.ty))),
{
    if fields.len() == 0 {
        assert(names(fields).to_set() =~= Set::<Seq<char>>::empty());
    }
}

/// The names that a let-expression declares go out of scope at its end: checking an expression
/// leaves the symbol table as it was, whatever let-expressions it holds. This holds where no
/// function is declared inside (a function declaration leaves its scope, its parameters and
/// its name on the table) and no declared name is spelled like the scope marker.
pub proof fn law_let_restores_scope(st: TCState, e: SExpr)
    requires
        scoped_expr(e),
    ensures
        tc_expr(st, e) matches Some((st2, _)) ==> st2.syms == st.syms,
{
    lemma_tc_expr_keeps_syms(st, e);
}



// ---------------------------------------------------------------------------------------------
// The type checker
pub open spec fn binding_opt_v(o: OptionalBinding) -> Option<SBinding> {
    match o {
        Some(b) => Some((*b.ptr)@),
        None => None,
    }
}

pub open spec fn syms_v(v: Seq<(String, OptionalBinding)>) -> Seq<SymEntry> {
    Seq::new(v.len(), |i: int| (v[i].0@, binding_opt_v(v[i].1)))
}

pub open spec fn opt_ty_v(o: Option<TType>) -> Option<SType> {
    match o {
        Some(t) => Some(t@),
        None => None,
    }
}

/// Checks the types of expressions and declarations, in nested scopes.
pub struct TypeChecker {
    pub sym_tab: Vec<(String, OptionalBinding)>,
    pub ty: TType,
}

impl View for TypeChecker {
    type V = TCState;

    open spec fn view(&self) -> TCState {
        TCState { syms: syms_v(self.sym_tab@), ty: self.ty@ }
    }
}

/// The type of a binding.
fn binding_type(b: &Binding) -> (t: TType)
    ensures
        t@ == binding_ty(b@),
{
    match b {
        Binding::TypeBinding(t) => t.clone(),
        Binding::VarBinding(t) => t.clone(),
        Binding::FuncBinding(t) => t.clone(),
    }
}

/// The result type of a built-in function.
pub fn std_function_type(id: &String) -> (r: Option<TType>)
    ensures
        opt_ty_v(r) == std_fn(id@),
{
    let s = id;
    if *s == "print".to_owned() {
        Some(TType::TVoid)
    } else if *s == "flush".to_owned() {
        Some(TType::TVoid)
    } else if *s == "getchar".to_owned() {
        Some(TType::TString)
    } else if *s == "ord".to_owned() {
        Some(TType::TInt32)
    } else if *s == "chr".to_owned() {
        Some(TType::TString)
    } else if *s == "size".to_owned() {
        Some(TType::TInt32)
    } else if *s == "substring".to_owned() {
        Some(TType::TString)
    } else if *s == "concat".to_owned() {
        Some(TType::TString)
    } else if *s == "not".to_owned() {
        Some(TType::TInt32)
    } else if *s == "exit".to_owned() {
        Some(TType::TVoid)
    } else {
        None
    }
}

proof fn lemma_take_last<A>(s: Seq<A>, i: int)
    requires
        0 < i <= s.len(),
    ensures
        s.take(i).last() == s[i - 1],
        s.take(i).drop_last() =~= s.take(i - 1),
        s.take(i).len() == i,
{
}

/// Calls `Itertools::unique` on the field names and counts what it yields: the number of
/// distinct names.
#[verifier::external_body]
fn count_unique_names(list: &Vec<(String, TType)>) -> (n: usize)
    ensures
        n == names(pairs_v(*list)).to_set().len(),
{
    list.into_iter().map(|x| &x.0).unique().count()
}

impl TypeChecker {
    /// A type checker with an empty table, whose last type is nil.
    pub fn new() -> (v: TypeChecker)
        ensures
            v@ == (TCState { syms: seq![], ty: SType::Nil }),
    {
        let v = TypeChecker { sym_tab: Vec::new(), ty: TType::TNil };
        assert(v@.syms =~= seq![]);
        v
    }

    pub fn get_type_for(&self) {
    }

    fn push_entry(&mut self, id: String, b: OptionalBinding)
        ensures
            final(self)@ == push_sym(old(self)@, id@, binding_opt_v(b)),
    {
        let ghost old_syms = self@.syms;
        let ghost bv = binding_opt_v(b);
        self.sym_tab.push((id, b));
        assert(self@.syms =~= old_syms.push((id@, bv)));
    }

    /// The binding of the first entry named `id` from the bottom, which must exist and have one.
    fn id_binding_type(&self, id: &String) -> (t: TType)
        requires
            id_lookup(self@.syms, id@) matches Some(Some(_)),
        ensures
            t@ == binding_ty(id_lookup(self@.syms, id@)->0->0),
    {
        let mut i: usize = 0;
        assert(self@.syms.skip(0) =~= self@.syms);
        while i < self.sym_tab.len()
            invariant
                i <= self.sym_tab@.len(),
                id_lookup(self@.syms, id@) == id_lookup(self@.syms.skip(i as int), id@),
                id_lookup(self@.syms, id@) matches Some(Some(_)),
            decreases self.sym_tab@.len() - i,
        {
            assert(self@.syms.skip(i as int).drop_first() =~= self@.syms.skip(i + 1));
            if self.sym_tab[i].0 == *id {
                match &self.sym_tab[i].1 {
                    Some(b) => {
                        return binding_type(&b.ptr);
                    },
                    None => {
                        proof {
                            assert(false);
                        }
                    },
                }
            }
            i = i + 1;
        }
        proof {
            assert(self@.syms.skip(i as int).len() == 0);
        }
        TType::TNil
    }

    /// Looks a callee up from the top of the table.
    fn lookup_callee(&self, id: &String) -> (r: (bool, Option<TType>))
        requires
            call_lookup(self@.syms, id@) is Some,
        ensures
            call_lookup(self@.syms, id@) == Some((r.0, opt_ty_v(r.1))),
    {
        let mut found = false;
        let mut i: usize = self.sym_tab.len();
        assert(self@.syms.take(i as int) =~= self@.syms);
        while i > 0
            invariant
                i <= self.sym_tab@.len(),
                call_lookup(self@.syms, id@) == match call_lookup(self@.syms.take(i as int), id@) {
                    Some((f, r)) => Some((f || found, r)),
                    None => None,
                },
                call_lookup(self@.syms, id@) is Some,
            decreases i,
        {
            proof {
                lemma_take_last(self@.syms, i as int);
            }
            if self.sym_tab[i - 1].0 == *id {
                found = true;
                match &self.sym_tab[i - 1].1 {
                    Some(b) => {
                        match &*b.ptr {
                            Binding::FuncBinding(t) => {
                                return (found, Some(t.clone()));
                            },
                            _ => {},
                        }
                    },
                    None => {
                        proof {
                            assert(false);
                        }
                    },
                }
            }
            i = i - 1;
        }
        (found, None)
    }

    /// The type of the innermost function (`want_func`) or variable named `id`.
    fn lookup_kind(&self, id: &String, want_func: bool) -> (r: Option<TType>)
        requires
            kind_lookup(self@.syms, id@, want_func) is Some,
        ensures
            kind_lookup(self@.syms, id@, want_func) == Some(opt_ty_v(r)),
    {
        let mut i: usize = self.sym_tab.len();
        assert(self@.syms.take(i as int) =~= self@.syms);
        while i > 0
            invariant
                i <= self.sym_tab@.len(),
                kind_lookup(self@.syms, id@, want_func) == kind_lookup(
                    self@.syms.take(i as int),
                    id@,
                    want_func,
                ),
                kind_lookup(self@.syms, id@, want_func) is Some,
            decreases i,
        {
            proof {
                lemma_take_last(self@.syms, i as int);
            }
            if self.sym_tab[i - 1].0 == *id {
                match &self.sym_tab[i - 1].1 {
                    Some(b) => {
                        match &*b.ptr {
                            Binding::FuncBinding(t) => {
                                if want_func {
                                    return Some(t.clone());
                                }
                            },
                            Binding::VarBinding(t) => {
                                if !want_func {
                                    return Some(t.clone());
                                }
                            },
                            _ => {},
                        }
                    },
                    None => {
                        proof {
                            assert(false);
                        }
                    },
                }
            }
            i = i - 1;
        }
        proof {
            assert(self@.syms.take(0) =~= seq![]);
        }
        None
    }

    /// Records the type of a call argument.
    fn fix_arg_type(&self, a: (TType, B<Expr>)) -> (r: (TType, B<Expr>))
        requires
            fix_arg(self@.syms, (a.0@, expr_v(*a.1.ptr))) is Some,
        ensures
            fix_arg(self@.syms, (a.0@, expr_v(*a.1.ptr))) == Some((r.0@, expr_v(*r.1.ptr))),
    {
        let (ty, e) = a;
        let new_ty = match &*e.ptr {
            Expr::CallExpr(id, _) => {
                match self.lookup_kind(id, true) {
                    Some(t) => t,
                    None => match std_function_type(id) {
                        Some(t) => t,
                        None => ty,
                    },
                }
            },
            Expr::SubscriptExpr(id, _) => {
                match self.lookup_kind(id, false) {
                    Some(t) => t,
                    None => ty,
                }
            },
            Expr::IdExpr(id) => {
                match self.lookup_kind(id, false) {
                    Some(t) => t,
                    None => ty,
                }
            },
            _ => ty,
        };
        (new_ty, e)
    }

    /// Records the types of call arguments.
    fn fix_arg_types(&self, args: Vec<(TType, B<Expr>)>) -> (r: Vec<(TType, B<Expr>)>)
        requires
            fix_args(self@.syms, targs_v(args@)) is Some,
        ensures
            fix_args(self@.syms, targs_v(args@)) == Some(targs_v(r@)),
    {
        let ghost orig = targs_v(args@);
        let mut rest = args;
        let mut out: Vec<(TType, B<Expr>)> = Vec::new();
        proof {
            assert(orig.take(0) =~= seq![]);
            assert(targs_v(out@) =~= seq![]);
            assert(targs_v(rest@) =~= orig.skip(0));
        }
        while rest.len() > 0
            invariant
                out@.len() + rest@.len() == orig.len(),
                targs_v(rest@) == orig.skip(out@.len() as int),
                fix_args(self@.syms, orig.take(out@.len() as int)) == Some(targs_v(out@)),
                fix_args(self@.syms, orig) is Some,
            decreases rest@.len(),
        {
            let k = out.len();
            let ghost rest_v = targs_v(rest@);
            let a = rest.remove(0);
            assert(targs_v(rest@) =~= rest_v.drop_first());
            assert(orig.skip(k as int).drop_first() =~= orig.skip(k + 1));
            assert(orig[k as int] == rest_v[0]);
            proof {
                lemma_fix_args_prefix(self@.syms, orig, k + 1);
                lemma_take_last(orig, k + 1);
            }
            let f = self.fix_arg_type(a);
            let ghost out_v = targs_v(out@);
            out.push(f);
            assert(targs_v(out@) =~= out_v.push((f.0@, expr_v(*f.1.ptr))));
        }
        assert(orig.take(out@.len() as int) =~= orig);
        out
    }

    /// Pops the table down to the topmost marker, and the marker.
    fn pop_scope(&mut self)
        requires
            pop_to_marker(old(self)@.syms) is Some,
        ensures
            final(self)@ == (TCState { syms: pop_to_marker(old(self)@.syms)->0, ..old(self)@ }),
    {
        //pop till marker and then pop marker
        loop
            invariant_except_break
                pop_to_marker(self@.syms) == pop_to_marker(old(self)@.syms),
                pop_to_marker(self@.syms) is Some,
            invariant
                self.ty == old(self).ty,
            ensures
                self@.syms == pop_to_marker(old(self)@.syms)->0,
                self.ty == old(self).ty,
            decreases self.sym_tab@.len(),
        {
            let ghost sv = self@.syms;
            assert(syms_v(self.sym_tab@.drop_last()) =~= sv.drop_last());
            let last_is_marker = match self.sym_tab.last() {
                Some(e) => e.0 == "<marker>".to_owned(),
                None => {
                    proof {
                        assert(false);
                    }
                    true
                },
            };
            self.sym_tab.pop();
            if last_is_marker {
                break ;
            }
        }
    }
}

proof fn lemma_fix_args_prefix(syms: Seq<SymEntry>, args: Seq<(SType, SExpr)>, k: int)
    requires
        0 <= k <= args.len(),
        fix_args(syms, args) is Some,
    ensures
        fix_args(syms, args.take(k)) is Some,
    decreases args.len() - k,
{
    if k < args.len() {
        lemma_fix_args_prefix(syms, args, k + 1);
        assert(args.take(k + 1).drop_last() =~= args.take(k));
    } else {
        assert(args.take(k) =~= args);
    }
}


proof fn lemma_tc_list_prefix(st: TCState, es: Seq<SExpr>, k: int)
    requires
        0 <= k <= es.len(),
        tc_list(st, es) is Some,
    ensures
        tc_list(st, es.take(k)) is Some,
    decreases es.len() - k,
{
    if k < es.len() {
        lemma_tc_list_prefix(st, es, k + 1);
        assert(es.take(k + 1).drop_last() =~= es.take(k));
    } else {
        assert(es.take(k) =~= es);
    }
}

proof fn lemma_tc_decls_prefix(st: TCState, ds: Seq<SDecl>, k: int)
    requires
        0 <= k <= ds.len(),
        tc_decls(st, ds) is Some,
    ensures
        tc_decls(st, ds.take(k)) is Some,
    decreases ds.len() - k,
{
    if k < ds.len() {
        lemma_tc_decls_prefix(st, ds, k + 1);
        assert(ds.take(k + 1).drop_last() =~= ds.take(k));
    } else {
        assert(ds.take(k) =~= ds);
    }
}

/// Whether some field of the record is of the custom type `id`.
fn has_field_of_type(list: &Vec<(String, TType)>, id: &String) -> (r: bool)
    ensures
        r == exists|i: int| 0 <= i < pairs_v(*list).len() && #[trigger] pairs_v(*list)[i].1
            == SType::Custom(id@),
{
    let mut i: usize = 0;
    while i < list.len()
        invariant
            i <= list@.len(),
            forall|j: int| 0 <= j < i ==> #[trigger] pairs_v(*list)[j].1 != SType::Custom(id@),
        decreases list@.len() - i,
    {
        match &list[i].1 {
            TType::TCustom(name) => {
                if *id == *name {
                    assert(pairs_v(*list)[i as int].1 == SType::Custom(id@));
                    return true;
                }
            },
            _ => {},
        }
        i = i + 1;
    }
    false
}

/// Whether two parameters bear the same name.
fn has_dup_params(ps: &Vec<(String, TType)>) -> (r: bool)
    ensures
        r == has_dup_names(pairs_v(*ps)),
{
    let mut j: usize = 0;
    while j < ps.len()
        invariant
            j <= ps@.len(),
            forall|a: int, b: int| 0 <= a < b < j ==> pairs_v(*ps)[a].0 != pairs_v(*ps)[b].0,
        decreases ps@.len() - j,
    {
        let mut i: usize = 0;
        while i < j
            invariant
                i <= j < ps@.len(),
                forall|a: int| 0 <= a < i ==> pairs_v(*ps)[a].0 != pairs_v(*ps)[j as int].0,
            decreases j - i,
        {
            if ps[i].0 == ps[j].0 {
                assert(pairs_v(*ps)[i as int].0 == pairs_v(*ps)[j as int].0);
                return true;
            }
            i = i + 1;
        }
        j = j + 1;
    }
    false
}

impl TypeChecker {
    /// Every entry named `id` must be a variable binding.
    fn check_var_refs(&self, id: &String)
        requires
            all_var_bindings(self@.syms, id@),
    {
        let mut i: usize = self.sym_tab.len();
        while i > 0
            invariant
                i <= self.sym_tab@.len(),
                all_var_bindings(self@.syms, id@),
            decreases i,
        {
            if self.sym_tab[i - 1].0 == *id {
                assert(self@.syms[i - 1].0 == id@);
                match &self.sym_tab[i - 1].1 {
                    Some(b) => match &*b.ptr {
                        Binding::VarBinding(_) => {},
                        _ => {
                            // "Invalid reference to variable '{0}'. Different binding found."
                            proof {
                                assert(false);
                            }
                        },
                    },
                    None => {
                        proof {
                            assert(false);
                        }
                    },
                }
            }
            i = i - 1;
        }
    }

    fn check_expr(&mut self, e: Expr) -> (r: Expr)
        requires
            tc_expr(old(self)@, e@) is Some,
        ensures
            tc_expr(old(self)@, e@) == Some((final(self)@, r@)),
        decreases e, 1int,
    {
        match e {
            // `nil` is typed as a string.
            Expr::NilExpr => {
                self.ty = TType::TString;
                Expr::NilExpr
            },
            Expr::NumExpr(n) => {
                self.ty = TType::TInt32;
                Expr::NumExpr(n)
            },
            Expr::StringExpr(s) => {
                self.ty = TType::TString;
                Expr::StringExpr(s)
            },
            Expr::IdExpr(id) => {
                //search in the symtab for id's existence and get the type
                self.ty = self.id_binding_type(&id);
                Expr::IdExpr(id)
            },
            Expr::LessThanExpr(e1, e2) => self.check_relational(Expr::LessThanExpr(e1, e2)),
            Expr::GreaterThanExpr(e1, e2) => self.check_relational(Expr::GreaterThanExpr(e1, e2)),
            Expr::AddExpr(l, r) => self.check_arith(Expr::AddExpr(l, r)),
            Expr::MulExpr(l, r) => self.check_arith(Expr::MulExpr(l, r)),
            Expr::DivExpr(l, r) => self.check_arith(Expr::DivExpr(l, r)),
            Expr::SeqExpr(list) => self.check_seq(Expr::SeqExpr(list)),
            Expr::IfThenElseExpr(c, t, f) => self.check_if_else(Expr::IfThenElseExpr(c, t, f)),
            Expr::IfThenExpr(c, t) => self.check_loop_like(Expr::IfThenExpr(c, t)),
            Expr::WhileExpr(c, b) => self.check_loop_like(Expr::WhileExpr(c, b)),
            Expr::ForExpr(id, f, t, b) => self.check_for(Expr::ForExpr(id, f, t, b)),
            Expr::CallExpr(id, args) => self.check_call(Expr::CallExpr(id, args)),
            Expr::LetExpr(decls, body) => self.check_let(Expr::LetExpr(decls, body)),
            other => other,
        }
    }

    /// `<` and `>`: both operands must have the same type.
    fn check_relational(&mut self, e: Expr) -> (r: Expr)
        requires
            e is LessThanExpr || e is GreaterThanExpr,
            tc_expr(old(self)@, e@) is Some,
        ensures
            tc_expr(old(self)@, e@) == Some((final(self)@, r@)),
        decreases e, 0int,
    {
        let less = match &e {
            Expr::LessThanExpr(_, _) => true,
            _ => false,
        };
        let (e1, e2) = match e {
            Expr::LessThanExpr(e1, e2) => (e1, e2),
            Expr::GreaterThanExpr(e1, e2) => (e1, e2),
            _ => {
                proof {
                    assert(false);
                }
                (B(Expr::NilExpr), B(Expr::NilExpr))
            },
        };
        let a = self.check_expr(*e1.ptr);
        let lhs_ty = self.ty.clone();
        let b = self.check_expr(*e2.ptr);
        if self.ty != lhs_ty && (self.ty != TType::TInt32 || self.ty != TType::TString) {
            // "Both types of a relational operator must match and be of type int or string."
            proof {
                assert(false);
            }
        }
        if less {
            Expr::LessThanExpr(B(a), B(b))
        } else {
            Expr::GreaterThanExpr(B(a), B(b))
        }
    }

    /// `+`, `*` and `/`: both operands must be integers, and a divisor must not be the literal 0.
    fn check_arith(&mut self, e: Expr) -> (r: Expr)
        requires
            e is AddExpr || e is MulExpr || e is DivExpr,
            tc_expr(old(self)@, e@) is Some,
        ensures
            tc_expr(old(self)@, e@) == Some((final(self)@, r@)),
        decreases e, 0int,
    {
        let kind: u8 = match &e {
            Expr::AddExpr(_, _) => 0,
            Expr::MulExpr(_, _) => 1,
            _ => 2,
        };
        let (left, right) = match e {
            Expr::AddExpr(l, r) => (l, r),
            Expr::MulExpr(l, r) => (l, r),
            Expr::DivExpr(l, r) => (l, r),
            _ => {
                proof {
                    assert(false);
                }
                (B(Expr::NilExpr), B(Expr::NilExpr))
            },
        };
        let a = self.check_expr(*left.ptr);
        if self.ty != TType::TInt32 {
            // "Expected left operand of int type"
            proof {
                assert(false);
            }
        }
        let b = self.check_expr(*right.ptr);
        if self.ty != TType::TInt32 {
            // "Expected right operand of int type"
            proof {
                assert(false);
            }
        }
        if kind == 0 {
            Expr::AddExpr(B(a), B(b))
        } else if kind == 1 {
            Expr::MulExpr(B(a), B(b))
        } else {
            if let Expr::NumExpr(n) = b {
                if n == 0 {
                    // "Denominator cannot be 0"
                    proof {
                        assert(false);
                    }
                }
            }
            Expr::DivExpr(B(a), B(b))
        }
    }

    /// `if c then t else f`: an integer condition, and branches of one type.
    fn check_if_else(&mut self, e: Expr) -> (r: Expr)
        requires
            e is IfThenElseExpr,
            tc_expr(old(self)@, e@) is Some,
        ensures
            tc_expr(old(self)@, e@) == Some((final(self)@, r@)),
        decreases e, 0int,
    {
        match e {
            Expr::IfThenElseExpr(c, t, f) => {
                let c1 = self.check_expr(*c.ptr);
                if self.ty != TType::TInt32 {
                    // "Expected conditional expression of int type"
                    proof {
                        assert(false);
                    }
                }
                let t1 = self.check_expr(*t.ptr);
                let then_ty = self.ty.clone();
                let f1 = self.check_expr(*f.ptr);
                if then_ty != self.ty {
                    // "Expected then expr and else expr types to be same"
                    proof {
                        assert(false);
                    }
                }
                Expr::IfThenElseExpr(B(c1), B(t1), B(f1))
            },
            _ => {
                proof {
                    assert(false);
                }
                e
            },
        }
    }

    /// `if c then t` and `while c do b`: an integer condition and a void body.
    fn check_loop_like(&mut self, e: Expr) -> (r: Expr)
        requires
            e is IfThenExpr || e is WhileExpr,
            tc_expr(old(self)@, e@) is Some,
        ensures
            tc_expr(old(self)@, e@) == Some((final(self)@, r@)),
        decreases e, 0int,
    {
        let is_if = match &e {
            Expr::IfThenExpr(_, _) => true,
            _ => false,
        };
        let (c, body) = match e {
            Expr::IfThenExpr(c, t) => (c, t),
            Expr::WhileExpr(c, b) => (c, b),
            _ => {
                proof {
                    assert(false);
                }
                (B(Expr::NilExpr), B(Expr::NilExpr))
            },
        };
        let c1 = self.check_expr(*c.ptr);
        if self.ty != TType::TInt32 {
            // "Expected conditional expression of int type"
            proof {
                assert(false);
            }
        }
        let b1 = self.check_expr(*body.ptr);
        if self.ty != TType::TVoid {
            // "Expected if-body of void type" / "Expected while-body of void type"
            proof {
                assert(false);
            }
        }
        if is_if {
            Expr::IfThenExpr(B(c1), B(b1))
        } else {
            Expr::WhileExpr(B(c1), B(b1))
        }
    }

    /// `for id := from to to do body`: integer bounds and a void body.
    fn check_for(&mut self, e: Expr) -> (r: Expr)
        requires
            e is ForExpr,
            tc_expr(old(self)@, e@) is Some,
        ensures
            tc_expr(old(self)@, e@) == Some((final(self)@, r@)),
        decreases e, 0int,
    {
        match e {
            Expr::ForExpr(id, from, to, body) => {
                let f1 = self.check_expr(*from.ptr);
                if self.ty != TType::TInt32 {
                    // "Initializing expression type should be int in a for loop"
                    proof {
                        assert(false);
                    }
                }
                let t1 = self.check_expr(*to.ptr);
                if self.ty != TType::TInt32 {
                    // "To expression type should be int in a for loop"
                    proof {
                        assert(false);
                    }
                }
                let b1 = self.check_expr(*body.ptr);
                if self.ty != TType::TVoid {
                    // "A for expression's body must be of type void"
                    proof {
                        assert(false);
                    }
                }
                Expr::ForExpr(id, B(f1), B(t1), B(b1))
            },
            _ => {
                proof {
                    assert(false);
                }
                e
            },
        }
    }

    /// A sequence of expressions, checked in order; an empty one is void.
    fn check_seq(&mut self, e: Expr) -> (r: Expr)
        requires
            e is SeqExpr,
            tc_expr(old(self)@, e@) is Some,
        ensures
            tc_expr(old(self)@, e@) == Some((final(self)@, r@)),
        decreases e, 0int,
    {
        match e {
            Expr::SeqExpr(None) => {
                self.ty = TType::TVoid;
                Expr::SeqExpr(None)
            },
            Expr::SeqExpr(Some(list)) => {
                let ghost st0 = self@;
                let ghost lv = list@;
                let ghost orig = exprs_v(list@);
                let ghost whole = Expr::SeqExpr(Some(list));
                proof {
                    lemma_seq_view(whole);
                }
                let mut rest = list;
                let mut out: Vec<B<Expr>> = Vec::new();
                proof {
                    assert(orig.take(0) =~= seq![]);
                    assert(exprs_v(out@) =~= seq![]);
                    assert(rest@ =~= lv.skip(0));
                }
                while rest.len() > 0
                    invariant
                        out@.len() + rest@.len() == lv.len(),
                        orig == exprs_v(lv),
                        rest@ == lv.skip(out@.len() as int),
                        tc_list(st0, orig.take(out@.len() as int)) == Some((self@, exprs_v(out@))),
                        tc_list(st0, orig) is Some,
                        e == whole,
                        whole matches Expr::SeqExpr(Some(l)) && l@ == lv,
                    decreases rest@.len(),
                {
                    let k = out.len();
                    let b = rest.remove(0);
                    assert(b == lv[k as int]);
                    proof {
                        lemma_tc_list_prefix(st0, orig, k + 1);
                        lemma_take_last(orig, k + 1);
                        assert(rest@ =~= lv.skip(k + 1));
                        let l = whole->SeqExpr_0->0;
                        assert(decreases_to!(whole => whole->SeqExpr_0));
                        assert(decreases_to!(whole->SeqExpr_0 => l));
                        assert(decreases_to!(l => l@));
                        assert(decreases_to!(l@ => l@[k as int]));
                        assert(decreases_to!(b => b.ptr));
                    }
                    let x = self.check_expr(*b.ptr);
                    let ghost out_v = exprs_v(out@);
                    out.push(B(x));
                    assert(exprs_v(out@) =~= out_v.push(expr_v(x)));
                }
                assert(orig.take(out@.len() as int) =~= orig);
                let r = Expr::SeqExpr(Some(out));
                proof {
                    lemma_seq_view(r);
                }
                r
            },
            _ => {
                proof {
                    assert(false);
                }
                e
            },
        }
    }

    fn check_call(&mut self, e: Expr) -> (r: Expr)
        requires
            e is CallExpr,
            tc_expr(old(self)@, e@) is Some,
        ensures
            tc_expr(old(self)@, e@) == Some((final(self)@, r@)),
        decreases e, 0int,
    {
        match e {
            Expr::CallExpr(id, args) => {
                proof {
                    lemma_call_view(Expr::CallExpr(id, args));
                }
                //check if this is a built-in function
                let mut found = false;
                match std_function_type(&id) {
                    Some(t) => {
                        found = true;
                        self.ty = t;
                    },
                    None => {
                        let (f, fty) = self.lookup_callee(&id);
                        found = f;
                        match fty {
                            Some(t) => {
                                self.ty = t;
                            },
                            None => {},
                        }
                    },
                }
                if !found {
                    // "Invalid call to '{0}'. Function not found."
                    proof {
                        assert(false);
                    }
                }
                //fix call expr return type by doing a sym-tab lookup
                let args1 = match args {
                    Some(v) => Some(self.fix_arg_types(v)),
                    None => None,
                };
                let r = Expr::CallExpr(id, args1);
                proof {
                    lemma_call_view(r);
                }
                r
            },
            _ => {
                proof {
                    assert(false);
                }
                e
            },
        }
    }

    fn check_let(&mut self, e: Expr) -> (r: Expr)
        requires
            e is LetExpr,
            tc_expr(old(self)@, e@) is Some,
        ensures
            tc_expr(old(self)@, e@) == Some((final(self)@, r@)),
        decreases e, 0int,
    {
        match e {
            Expr::LetExpr(decls, opt_expr) => {
                proof {
                    lemma_let_view(Expr::LetExpr(decls, opt_expr));
                }
                self.push_entry("<marker>".to_owned(), None);
                let ghost st0 = self@;
                let ghost lv = decls@;
                let ghost orig = decls_v(decls@);
                let mut rest = decls;
                let mut out: Vec<Decl> = Vec::new();
                proof {
                    assert(orig.take(0) =~= seq![]);
                    assert(decls_v(out@) =~= seq![]);
                    assert(rest@ =~= lv.skip(0));
                }
                while rest.len() > 0
                    invariant
                        out@.len() + rest@.len() == lv.len(),
                        orig == decls_v(lv),
                        rest@ == lv.skip(out@.len() as int),
                        tc_decls(st0, orig.take(out@.len() as int)) == Some((self@, decls_v(out@))),
                        tc_decls(st0, orig) is Some,
                        e == Expr::LetExpr(decls, opt_expr),
                        e->LetExpr_0@ == lv,
                    decreases rest@.len(),
                {
                    let k = out.len();
                    let d = rest.remove(0);
                    assert(d == lv[k as int]);
                    proof {
                        lemma_tc_decls_prefix(st0, orig, k + 1);
                        lemma_take_last(orig, k + 1);
                        assert(rest@ =~= lv.skip(k + 1));
                        let l = e->LetExpr_0;
                        assert(decreases_to!(e => l));
                        assert(decreases_to!(l => l@));
                        assert(decreases_to!(l@ => l@[k as int]));
                    }
                    let x = self.check_decl(d);
                    let ghost out_v = decls_v(out@);
                    out.push(x);
                    assert(decls_v(out@) =~= out_v.push(decl_v(x)));
                }
                assert(orig.take(out@.len() as int) =~= orig);
                let body = match opt_expr {
                    Some(b_expr) => Some(B(self.check_expr(*b_expr.ptr))),
                    None => None,
                };
                self.pop_scope();
                let r = Expr::LetExpr(out, body);
                proof {
                    lemma_let_view(r);
                }
                r
            },
            _ => {
                proof {
                    assert(false);
                }
                e
            },
        }
    }

    fn check_decl(&mut self, d: Decl) -> (r: Decl)
        requires
            tc_decl(old(self)@, d@) is Some,
        ensures
            tc_decl(old(self)@, d@) == Some((final(self)@, r@)),
        decreases d, 0int,
    {
        match d {
            Decl::VarDec(id, ty, expr) => {
                match *expr.ptr {
                    Expr::ArrayExpr(aty, dim_expr, init_expr) => {
                        let dim1 = self.check_expr(*dim_expr.ptr);
                        if aty != self.ty {
                            // "Array type doesn't match with the type of the dimension expression"
                            proof {
                                assert(false);
                            }
                        }
                        let init1 = self.check_expr(*init_expr.ptr);
                        if aty != self.ty {
                            // "Array type doesn't match with the type of the init expression"
                            proof {
                                assert(false);
                            }
                        }
                        self.push_entry(id.clone(), Some(B(Binding::VarBinding(self.ty.clone()))));
                        Decl::VarDec(id, ty, B(Expr::ArrayExpr(aty, B(dim1), B(init1))))
                    },
                    other => {
                        match &other {
                            Expr::IdExpr(id2) => {
                                self.check_var_refs(id2);
                            },
                            Expr::RecordExpr(field_decls) => {
                                match field_decls {
                                    Some(list) => {
                                        if !list.is_empty() {
                                            let len = list.len();
                                            let unique_len = count_unique_names(list);
                                            if len != unique_len {
                                                // "record '{0}' contains repetitive fields"
                                                proof {
                                                    assert(false);
                                                }
                                            }
                                            if has_field_of_type(list, &id) {
                                                // "rec '{0}' contains a field of type '{0}'. cyclic
                                                // references to type are not allowed."
                                                proof {
                                                    assert(false);
                                                }
                                            }
                                        }
                                    },
                                    None => {
                                        proof {
                                            assert(false);
                                        }
                                    },
                                }
                            },
                            _ => {},
                        }
                        let e1 = self.check_expr(other);
                        //self.ty can still remain Nil in scenarios
                        //where the body contains a call to an
                        //intrinsic function which cannot be verified
                        //by the type-checker
                        if self.ty != TType::TNil && ty != self.ty {
                            // "Types mismatch. Variable type is {0} and expression type is '{1}'"
                            proof {
                                assert(false);
                            }
                        }
                        self.push_entry(id.clone(), Some(B(Binding::VarBinding(self.ty.clone()))));
                        Decl::VarDec(id, ty, B(e1))
                    },
                }
            },
            Decl::FunDec(id, params, ret_type, body, body_type) => {
                self.push_entry("<marker>".to_owned(), None);
                let ghost st0 = self@;
                let ghost pv = match &params {
                    Some(p) => pairs_v(*p),
                    None => seq![],
                };
                match &params {
                    Some(ps) => {
                        let mut i: usize = 0;
                        assert(st0.syms + params_syms(pv.take(0)) =~= st0.syms);
                        while i < ps.len()
                            invariant
                                i <= ps@.len(),
                                pv == pairs_v(*ps),
                                self@.syms == st0.syms + params_syms(pv.take(i as int)),
                                self@.ty == st0.ty,
                            decreases ps@.len() - i,
                        {
                            let ghost before = self@.syms;
                            self.push_entry(ps[i].0.clone(), Some(B(Binding::VarBinding(ps[i].1.clone()))));
                            assert(params_syms(pv.take(i + 1)) =~= params_syms(pv.take(i as int)).push(
                                (pv[i as int].0, Some(SBinding::Var(pv[i as int].1))),
                            ));
                            i = i + 1;
                        }
                        assert(pv.take(i as int) =~= pv);
                    },
                    None => {
                        assert(st0.syms + params_syms(pv) =~= st0.syms);
                    },
                }
                let body1 = self.check_expr(*body.ptr);
                //self.ty can still remain Nil in scenarios
                //where the body contains a call to an
                //intrinsic function which cannot be verified
                //by the type-checker
                if self.ty != TType::TNil && ret_type != self.ty {
                    // "Return type '{0}' doesn't match with the type of the last expression '{1}'."
                    proof {
                        assert(false);
                    }
                }
                let new_body_type = self.ty.clone();
                match &params {
                    Some(ps) => {
                        if has_dup_params(ps) {
                            // "Duplicate param '{0}' found"
                            proof {
                                assert(false);
                            }
                        }
                    },
                    None => {},
                }
                self.ty = ret_type.clone();
                self.push_entry(id.clone(), Some(B(Binding::FuncBinding(self.ty.clone()))));
                Decl::FunDec(id, params, ret_type, B(body1), new_body_type)
            },
            Decl::TypeDec(id, ty) => {
                self.push_entry(id.clone(), Some(B(Binding::TypeBinding(self.ty.clone()))));
                Decl::TypeDec(id, ty)
            },
        }
    }
}

impl<'a> Visitor<'a> for TypeChecker {
    open spec fn accepts_expr(&self, expr: SExpr) -> bool {
        tc_expr(self@, expr) is Some
    }

    open spec fn accepts_decl(&self, decl: SDecl) -> bool {
        tc_decl(self@, decl) is Some
    }

    /// Checks an expression in place: records the type of the call arguments in it.
    fn visit_expr(&mut self, expr: &'a mut Expr)
        ensures
            tc_expr(old(self)@, old(expr)@) == Some((final(self)@, final(expr)@)),
    {
        let mut e = Expr::NilExpr;
        std::mem::swap(&mut e, expr);
        let r = self.check_expr(e);
        *expr = r;
    }

    /// Checks a declaration in place: records the type of a function's body in it.
    fn visit_decl(&mut self, decl: &'a mut Decl)
        ensures
            tc_decl(old(self)@, old(decl)@) == Some((final(self)@, final(decl)@)),
    {
        let mut d = Decl::TypeDec(String::new(), TType::TNil);
        std::mem::swap(&mut d, decl);
        let r = self.check_decl(d);
        *decl = r;
    }
}

} // verus!
