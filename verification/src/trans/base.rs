use vstd::prelude::*;
use crate::ast::{
    Decl, Expr, OptionalTypeExprTupleList, SDecl, SExpr, SType, TType, bx, decls_v, expr_v, targs_v,
};
use crate::show::expr_dbg;
use vstd::string::StringExecFns;
use crate::ast::{lemma_call_view, lemma_let_view, opt_pairs_v, pairs_v};
use crate::ptr::B;
use crate::trans::symbol::{Function, SSym, SymbolInfo, Var, ValueRef};

verus! {

// ---------------------------------------------------------------------------------------------
// The instructions of the generated module

/// The types of the generated code.
#[derive(Clone, Copy, PartialEq, Eq, Structural, Debug)]
pub enum LlvmTy {
    I32,
    I8Ptr,
    Void,
}

/// The kinds of instruction that code generation emits. Each instruction makes one value, a
/// function or a basic block, named by its index in the module's list of instructions.
#[derive(Clone, Copy, PartialEq, Eq, Structural, Debug)]
pub enum OpKind {
    /// The 32-bit integer `num`.
    ConstI32,
    /// A pointer to a global copy of the string `name`.
    GlobalString,
    Add,
    Sub,
    Mul,
    SDiv,
    ICmpEq,
    ICmpNe,
    ICmpSlt,
    ICmpSgt,
    /// A load from the slot `args[0]`.
    Load,
    /// A store of `args[0]` into the slot `args[1]`.
    Store,
    /// A stack slot of type `tys[0]`.
    Alloca,
    /// A function `name` returning `tys[0]` and taking `tys[1..]`; variadic where `num` is 1.
    AddFunction,
    /// The function of the module named `name`.
    GetNamedFunction,
    /// A new basic block named `name` at the end of the function `args[0]`.
    AppendBlock,
    /// Moves the builder to the end of the block `args[0]`.
    PositionAtEnd,
    /// The block the builder is in.
    GetInsertBlock,
    /// The function of the block `args[0]`.
    BlockParent,
    /// Branches on `args[0]` to `args[1]` or else `args[2]`.
    CondBr,
    Br,
    /// A phi node of type `tys[0]`.
    Phi,
    /// Adds the incoming value `args[1]` from the block `args[2]` to the phi node `args[0]`.
    AddIncoming,
    /// Calls the function `args[0]` with the arguments `args[1..]`.
    Call,
    /// The parameter of index `args[1]` of the function `args[0]`.
    Param,
    Ret,
    RetVoid,
}

/// One instruction: its kind, a name or string, the values it takes, a number and types.
pub struct Op {
    pub kind: OpKind,
    pub name: String,
    pub args: Vec<ValueRef>,
    pub num: i32,
    pub tys: Vec<LlvmTy>,
}

/// The model of an instruction.
pub struct SOp {
    pub kind: OpKind,
    pub name: Seq<char>,
    pub args: Seq<nat>,
    pub num: int,
    pub tys: Seq<LlvmTy>,
}

pub open spec fn nats(v: Seq<usize>) -> Seq<nat> {
    v.map_values(|a: usize| a as nat)
}

pub open spec fn op_v(o: Op) -> SOp {
    SOp { kind: o.kind, name: o.name@, args: nats(o.args@), num: o.num as int, tys: o.tys@ }
}

impl View for Op {
    type V = SOp;

    open spec fn view(&self) -> SOp {
        op_v(*self)
    }
}

pub open spec fn sop(kind: OpKind, name: Seq<char>, args: Seq<nat>, num: int, tys: Seq<LlvmTy>) -> SOp {
    SOp { kind: kind, name: name, args: args, num: num, tys: tys }
}

/// An instruction with no name, operand, number or type.
pub open spec fn sop0(kind: OpKind) -> SOp {
    sop(kind, seq![], seq![], 0, seq![])
}

/// An instruction with operands only.
pub open spec fn sopa(kind: OpKind, args: Seq<nat>) -> SOp {
    sop(kind, seq![], args, 0, seq![])
}

/// An instruction with a name and operands.
pub open spec fn sopn(kind: OpKind, name: Seq<char>, args: Seq<nat>) -> SOp {
    sop(kind, name, args, 0, seq![])
}

// ---------------------------------------------------------------------------------------------
// The model of code generation

/// The state of code generation: the module's name, the instructions emitted, the symbol table (a scope starts with
/// an entry that has no binding), the stack of blocks to resume, and the names of the
/// prototypes declared.
pub struct CgState {
    pub module: Seq<char>,
    pub ops: Seq<SOp>,
    pub syms: Seq<(Seq<char>, Option<SSym>)>,
    pub bbs: Seq<nat>,
    pub protos: Seq<Seq<char>>,
}

/// What generating the code of an expression gives: the state after it, and the value it computes or an
/// error. `None` stands for the inputs on which code generation panics.
pub type CgResult = Option<(CgState, Result<nat, Seq<char>>)>;

pub open spec fn empty_state(module: Seq<char>) -> CgState {
    CgState { module: module, ops: seq![], syms: seq![], bbs: seq![], protos: seq![] }
}

pub open spec fn emit(st: CgState, o: SOp) -> CgState {
    CgState { ops: st.ops.push(o), ..st }
}

pub open spec fn emits(st: CgState, os: Seq<SOp>) -> CgState {
    CgState { ops: st.ops + os, ..st }
}

pub open spec fn push_sym(st: CgState, id: Seq<char>, s: Option<SSym>) -> CgState {
    CgState { syms: st.syms.push((id, s)), ..st }
}

pub open spec fn marker() -> Seq<char> {
    "<marker>"@
}

/// The binding of the innermost entry named `id`: `None` where there is none.
pub open spec fn sym_lookup(syms: Seq<(Seq<char>, Option<SSym>)>, id: Seq<char>) -> Option<
    Option<SSym>,
>
    decreases syms.len(),
{
    if syms.len() == 0 {
        None
    } else if syms.last().0 == id {
        Some(syms.last().1)
    } else {
        sym_lookup(syms.drop_last(), id)
    }
}

/// Pops the entries of the innermost scope and the entry that opens it.
pub open spec fn pop_locals(syms: Seq<(Seq<char>, Option<SSym>)>) -> Option<
    Seq<(Seq<char>, Option<SSym>)>,
>
    decreases syms.len(),
{
    if syms.len() == 0 {
        None
    } else if syms.last().1 is None {
        Some(syms.drop_last())
    } else {
        pop_locals(syms.drop_last())
    }
}

/// The type of the generated code for a type of the language; `None` for the types not mapped.
pub open spec fn llvm_ty(t: SType) -> Option<LlvmTy> {
    match t {
        SType::Void => Some(LlvmTy::Void),
        SType::Int => Some(LlvmTy::I32),
        SType::Str => Some(LlvmTy::I8Ptr),
        _ => None,
    }
}

pub open spec fn param_tys(ps: Seq<(Seq<char>, SType)>) -> Option<Seq<LlvmTy>>
    decreases ps.len(),
{
    if ps.len() == 0 {
        Some(seq![])
    } else {
        match (param_tys(ps.drop_last()), llvm_ty(ps.last().1)) {
            (Some(ts), Some(t)) => Some(ts.push(t)),
            _ => None,
        }
    }
}

pub open spec fn opt_params(o: Option<Seq<(Seq<char>, SType)>>) -> Seq<(Seq<char>, SType)> {
    match o {
        Some(p) => p,
        None => seq![],
    }
}

pub open spec fn call_args(e: SExpr) -> Seq<(SType, SExpr)> {
    match e {
        SExpr::Call(_, Some(v)) => v,
        _ => seq![],
    }
}

pub open spec fn let_decls(e: SExpr) -> Seq<SDecl> {
    match e {
        SExpr::Let(ds, _) => ds,
        _ => seq![],
    }
}

/// The error for an expression that code generation does not cover.
#[verifier::opaque]
pub open spec fn unsupported(e: SExpr) -> Seq<char> {
    "error: "@ + expr_dbg(e)
}

/// The instruction of a binary expression, and its name.
pub open spec fn bin_op(e: SExpr) -> (OpKind, Seq<char>) {
    match e {
        SExpr::Add(_, _) => (OpKind::Add, "add_tmp"@),
        SExpr::Sub(_, _) => (OpKind::Sub, "sub_tmp"@),
        SExpr::Mul(_, _) => (OpKind::Mul, "mul_tmp"@),
        SExpr::Div(_, _) => (OpKind::SDiv, "div_tmp"@),
        SExpr::Equals(_, _) => (OpKind::ICmpEq, "eqcmp_tmp"@),
        SExpr::LessThan(_, _) => (OpKind::ICmpSlt, "lecmp_tmp"@),
        SExpr::GreaterThan(_, _) => (OpKind::ICmpSgt, "gtcmp_tmp"@),
        _ => (OpKind::ICmpNe, "necmp_tmp"@),
    }
}

/// `if`: compares the condition (the value `cv`) with 0 and branches; `n` is the index of the
/// first instruction.
pub open spec fn if_head(n: nat, cv: nat) -> Seq<SOp> {
    seq![
        sop(OpKind::ConstI32, seq![], seq![], 0, seq![]),
        sopn(OpKind::ICmpNe, "ifcond"@, seq![cv, n]),
        sop0(OpKind::GetInsertBlock),
        sopa(OpKind::BlockParent, seq![(n + 2) as nat]),
        sopn(OpKind::AppendBlock, "thencond"@, seq![(n + 3) as nat]),
        sopn(OpKind::AppendBlock, "elsecond"@, seq![(n + 3) as nat]),
        sopn(OpKind::AppendBlock, "ifcont"@, seq![(n + 3) as nat]),
        sopa(OpKind::CondBr, seq![(n + 1) as nat, (n + 4) as nat, (n + 5) as nat]),
        sopa(OpKind::PositionAtEnd, seq![(n + 4) as nat]),
    ]
}

/// After the `then` branch (from the instruction `m` on): on to the join block, and over to
/// the `else` block.
pub open spec fn if_mid(m: nat, n: nat) -> Seq<SOp> {
    seq![
        sopa(OpKind::Br, seq![(n + 6) as nat]),
        sop0(OpKind::GetInsertBlock),
        sopa(OpKind::PositionAtEnd, seq![(n + 5) as nat]),
    ]
}

/// After the `else` branch (from the instruction `k` on): on to the join block, and a phi node of
/// the values `tv` and `fv` of the branches.
pub open spec fn if_tail(k: nat, n: nat, m: nat, tv: nat, fv: nat) -> Seq<SOp> {
    seq![
        sopa(OpKind::Br, seq![(n + 6) as nat]),
        sop0(OpKind::GetInsertBlock),
        sopa(OpKind::PositionAtEnd, seq![(n + 6) as nat]),
        sop(OpKind::Phi, "ifphi"@, seq![], 0, seq![LlvmTy::I32]),
        sopa(OpKind::AddIncoming, seq![(k + 3) as nat, tv, (m + 1) as nat]),
        sopa(OpKind::AddIncoming, seq![(k + 3) as nat, fv, (k + 1) as nat]),
    ]
}

/// `for id := from`: a slot for `id` holding the value `fv`, and a jump to the loop's test.
pub open spec fn for_head(n: nat, id: Seq<char>, fv: nat) -> Seq<SOp> {
    seq![
        sop0(OpKind::GetInsertBlock),
        sopa(OpKind::BlockParent, seq![n]),
        sop(OpKind::Alloca, id, seq![], 0, seq![LlvmTy::I32]),
        sopa(OpKind::Store, seq![fv, (n + 2) as nat]),
        sopn(OpKind::AppendBlock, "preloop"@, seq![(n + 1) as nat]),
        sopa(OpKind::Br, seq![(n + 4) as nat]),
        sopa(OpKind::PositionAtEnd, seq![(n + 4) as nat]),
    ]
}

/// The loop's test against the bound `tv`, from the instruction `m` on.
pub open spec fn for_mid(m: nat, n: nat, id: Seq<char>, tv: nat) -> Seq<SOp> {
    seq![
        sop(OpKind::ConstI32, seq![], seq![], 0, seq![]),
        sopn(OpKind::Load, id, seq![(n + 2) as nat]),
        sopn(OpKind::ICmpNe, "loopcond"@, seq![(m + 1) as nat, tv]),
        sopn(OpKind::AppendBlock, "afterloop"@, seq![(n + 1) as nat]),
        sopn(OpKind::AppendBlock, "loop"@, seq![(n + 1) as nat]),
        sopa(OpKind::CondBr, seq![(m + 2) as nat, (m + 4) as nat, (m + 3) as nat]),
        sopa(OpKind::PositionAtEnd, seq![(m + 4) as nat]),
    ]
}

/// The step of the loop, from the instruction `k` on, and the way out.
pub open spec fn for_tail(k: nat, n: nat, m: nat, id: Seq<char>) -> Seq<SOp> {
    seq![
        sopn(OpKind::Load, id, seq![(n + 2) as nat]),
        sop(OpKind::ConstI32, seq![], seq![], 1, seq![]),
        sopn(OpKind::Add, "nextvar"@, seq![k, (k + 1) as nat]),
        sopa(OpKind::Store, seq![(k + 2) as nat, (n + 2) as nat]),
        sopa(OpKind::Br, seq![(n + 4) as nat]),
        sopa(OpKind::PositionAtEnd, seq![(m + 3) as nat]),
    ]
}

/// The slots of the parameters `ps` of the function `f`, from the `i`-th on: each parameter is
/// stored in a slot of its type, bound to its name.
pub open spec fn params_prologue(
    st: CgState,
    f: nat,
    ps: Seq<(Seq<char>, SType)>,
    pts: Seq<LlvmTy>,
    i: int,
) -> CgState
    decreases ps.len() - i,
{
    if i < 0 || i >= ps.len() {
        st
    } else {
        let q = st.ops.len();
        let s1 = emits(
            st,
            seq![
                sopa(OpKind::Param, seq![f, i as nat]),
                sop(OpKind::Alloca, ps[i].0, seq![], 0, seq![pts[i]]),
                sopa(OpKind::Store, seq![q, (q + 1) as nat]),
            ],
        );
        params_prologue(
            push_sym(s1, ps[i].0, Some(SSym::Var(ps[i].0, ps[i].1, (q + 1) as nat))),
            f,
            ps,
            pts,
            i + 1,
        )
    }
}

/// What generating the code of an expression does.
pub open spec fn cg_expr(st: CgState, e: SExpr) -> CgResult
    decreases e, 3int, 0int,
{
    match e {
        SExpr::Num(i) => Some(
            (emit(st, sop(OpKind::ConstI32, seq![], seq![], i as int, seq![])), Ok(st.ops.len())),
        ),
        SExpr::Str(s) => Some((emit(st, sopn(OpKind::GlobalString, s, seq![])), Ok(st.ops.len()))),
        SExpr::Add(_, _) => cg_binary(st, e),
        SExpr::Sub(_, _) => cg_binary(st, e),
        SExpr::Mul(_, _) => cg_binary(st, e),
        SExpr::Div(_, _) => cg_binary(st, e),
        SExpr::Equals(_, _) => cg_binary(st, e),
        SExpr::LessThan(_, _) => cg_binary(st, e),
        SExpr::GreaterThan(_, _) => cg_binary(st, e),
        SExpr::NotEquals(_, _) => cg_binary(st, e),
        SExpr::Id(id) => match sym_lookup(st.syms, id) {
            Some(Some(SSym::Var(_, _, a))) => Some(
                (emit(st, sopn(OpKind::Load, id, seq![a])), Ok(st.ops.len())),
            ),
            _ => None,
        },
        SExpr::IfThenElse(_, _, _) => cg_if(st, e),
        SExpr::For(_, _, _, _) => cg_for(st, e),
        SExpr::Call(_, _) => cg_call(st, e),
        SExpr::Let(_, _) => cg_let(st, e),
        _ => Some((st, Err(unsupported(e)))),
    }
}

/// A binary expression: both operands, then the instruction.
pub open spec fn cg_binary(st: CgState, e: SExpr) -> CgResult
    decreases e, 2int, 0int,
{
    match e {
        SExpr::Add(a, b) | SExpr::Sub(a, b) | SExpr::Mul(a, b) | SExpr::Div(a, b)
        | SExpr::Equals(a, b) | SExpr::LessThan(a, b) | SExpr::GreaterThan(a, b)
        | SExpr::NotEquals(a, b) => match cg_expr(st, *a) {
            Some((s1, Ok(v1))) => match cg_expr(s1, *b) {
                Some((s2, Ok(v2))) => Some(
                    (emit(s2, sopn(bin_op(e).0, bin_op(e).1, seq![v1, v2])), Ok(s2.ops.len())),
                ),
                r => r,
            },
            r => r,
        },
        _ => None,
    }
}

/// `if c then t else f`: the condition, a branch to two blocks that join in a phi node.
pub open spec fn cg_if(st: CgState, e: SExpr) -> CgResult
    decreases e, 2int, 0int,
{
    match e {
        SExpr::IfThenElse(c, t, f) => match cg_expr(st, *c) {
            Some((s1, Ok(cv))) => {
                let n = s1.ops.len();
                match cg_expr(emits(s1, if_head(n, cv)), *t) {
                    Some((s3, Ok(tv))) => {
                        let m = s3.ops.len();
                        match cg_expr(emits(s3, if_mid(m, n)), *f) {
                            Some((s5, Ok(fv))) => {
                                let k = s5.ops.len();
                                Some((emits(s5, if_tail(k, n, m, tv, fv)), Ok((k + 3) as nat)))
                            },
                            r => r,
                        }
                    },
                    r => r,
                }
            },
            r => r,
        },
        _ => None,
    }
}

/// `for id := from to to do body`: a loop that counts `id` up until it equals the bound; its
/// value is 0.
pub open spec fn cg_for(st: CgState, e: SExpr) -> CgResult
    decreases e, 2int, 0int,
{
    match e {
        SExpr::For(id, from, to, body) => if id.len() == 0 {
            None
        } else {
            match cg_expr(st, *from) {
                Some((s1, Ok(fv))) => {
                    let n = s1.ops.len();
                    match cg_expr(emits(s1, for_head(n, id, fv)), *to) {
                        Some((s3, Ok(tv))) => {
                            let m = s3.ops.len();
                            match cg_expr(emits(s3, for_mid(m, n, id, tv)), *body) {
                                Some((s5, Ok(_))) => {
                                    let k = s5.ops.len();
                                    Some((emits(s5, for_tail(k, n, m, id)), Ok(m)))
                                },
                                r => r,
                            }
                        },
                        r => r,
                    }
                },
                r => r,
            }
        },
        _ => None,
    }
}

/// A call: of a built-in function, or of a function of the program with its arguments.
pub open spec fn cg_call(st: CgState, e: SExpr) -> CgResult
    decreases e, 2int, 0int,
{
    match e {
        SExpr::Call(id, _) => if id == "print"@ || id == "size"@ || id == "not"@ {
            cg_std_call(st, e)
        } else {
            match cg_args(st, e, 0, seq![]) {
                Some((s1, Ok(vals))) => match sym_lookup(s1.syms, id) {
                    Some(Some(SSym::Func(_, f))) => Some(
                        (emit(s1, sopa(OpKind::Call, seq![f] + vals)), Ok(s1.ops.len())),
                    ),
                    _ => None,
                },
                Some((s1, Err(m))) => Some((s1, Err(m))),
                None => None,
            }
        },
        _ => None,
    }
}

/// The arguments of a call from the `i`-th on, their values added to `acc`.
pub open spec fn cg_args(st: CgState, e: SExpr, i: int, acc: Seq<nat>) -> Option<
    (CgState, Result<Seq<nat>, Seq<char>>),
>
    decreases e, 1int, call_args(e).len() - i,
{
    if i < 0 || i >= call_args(e).len() {
        Some((st, Ok(acc)))
    } else {
        match e {
            SExpr::Call(_, Some(v)) => {
                proof {
                    assert(decreases_to!(v => v[i]));
                }
                match cg_expr(st, v[i].1) {
                    Some((s1, Ok(x))) => cg_args(s1, e, i + 1, acc.push(x)),
                    Some((s1, Err(m))) => Some((s1, Err(m))),
                    None => None,
                }
            },
            _ => None,
        }
    }
}

/// A call of `print`, `size` or `not`: exactly one argument, of a type the function takes. The
/// prototype of `printf` or `strlen` is declared at the first call.
pub open spec fn cg_std_call(st: CgState, e: SExpr) -> CgResult
    decreases e, 1int, 0int,
{
    match e {
        SExpr::Call(id, Some(v)) => if v.len() != 1 {
            None
        } else {
            proof {
                assert(decreases_to!(v => v[0]));
            }
            let ty = v[0].0;
            if id == "print"@ {
                if ty != SType::Str && ty != SType::Int {
                    None
                } else {
                    let pf = st.ops.len();
                    let s1 = if st.protos.contains("printf"@) {
                        emit(st, sopn(OpKind::GetNamedFunction, "printf"@, seq![]))
                    } else {
                        CgState {
                            protos: st.protos.push("printf"@),
                            ..emit(
                                st,
                                sop(OpKind::AddFunction, "printf"@, seq![], 1, seq![LlvmTy::I32, LlvmTy::I8Ptr]),
                            )
                        }
                    };
                    if ty == SType::Str {
                        match cg_expr(s1, v[0].1) {
                            Some((s2, Ok(x))) => Some(
                                (emit(s2, sopn(OpKind::Call, "call"@, seq![pf, x])), Ok(s2.ops.len())),
                            ),
                            _ => None,
                        }
                    } else {
                        let g = s1.ops.len();
                        match cg_expr(emit(s1, sopn(OpKind::GlobalString, "%d\n"@, seq![])), v[0].1) {
                            Some((s2, Ok(x))) => Some(
                                (emit(s2, sopn(OpKind::Call, "call"@, seq![pf, g, x])), Ok(s2.ops.len())),
                            ),
                            _ => None,
                        }
                    }
                }
            } else if id == "size"@ {
                if ty != SType::Str {
                    None
                } else {
                    let sf = st.ops.len();
                    let s1 = if st.protos.contains("size"@) {
                        emit(st, sopn(OpKind::GetNamedFunction, "printf"@, seq![]))
                    } else {
                        CgState {
                            protos: st.protos.push("size"@),
                            ..emit(
                                st,
                                sop(OpKind::AddFunction, "strlen"@, seq![], 0, seq![LlvmTy::I32, LlvmTy::I8Ptr]),
                            )
                        }
                    };
                    match cg_expr(s1, v[0].1) {
                        Some((s2, Ok(x))) => Some(
                            (emit(s2, sopn(OpKind::Call, "call"@, seq![sf, x])), Ok(s2.ops.len())),
                        ),
                        _ => None,
                    }
                }
            } else {
                if ty != SType::Str && ty != SType::Int {
                    None
                } else {
                    let nf = st.ops.len();
                    match cg_expr(emit(st, sopn(OpKind::GetNamedFunction, "not"@, seq![])), v[0].1) {
                        Some((s2, Ok(x))) => Some(
                            (emit(s2, sopn(OpKind::Call, "call"@, seq![nf, x])), Ok(s2.ops.len())),
                        ),
                        _ => None,
                    }
                }
            }
        },
        _ => None,
    }
}

/// `let decls in body`: the declarations, then the body in the block that was being filled.
pub open spec fn cg_let(st: CgState, e: SExpr) -> CgResult
    decreases e, 2int, 0int,
{
    match e {
        SExpr::Let(ds, body) => if ds.len() == 0 {
            None
        } else {
            match body {
                None => None,
                Some(b) => match cg_decls(st, e, 0) {
                    Some((s1, Ok(_))) => if s1.bbs.len() == 0 {
                        None
                    } else {
                        let s2 = emit(
                            CgState { bbs: s1.bbs.drop_last(), ..s1 },
                            sopa(OpKind::PositionAtEnd, seq![s1.bbs.last()]),
                        );
                        cg_expr(s2, *b)
                    },
                    Some((s1, Err(m))) => Some((s1, Err(m))),
                    None => None,
                },
            }
        },
        _ => None,
    }
}

/// The declarations of a let-expression from the `i`-th on.
pub open spec fn cg_decls(st: CgState, e: SExpr, i: int) -> Option<(CgState, Result<(), Seq<char>>)>
    decreases e, 1int, let_decls(e).len() - i,
{
    if i < 0 || i >= let_decls(e).len() {
        Some((st, Ok(())))
    } else {
        match e {
            SExpr::Let(ds, _) => {
                proof {
                    assert(decreases_to!(ds => ds[i]));
                }
                match cg_decl(st, ds[i]) {
                    Some((s1, Ok(_))) => cg_decls(s1, e, i + 1),
                    r => r,
                }
            },
            _ => None,
        }
    }
}

/// A declaration: a function, with its own block, slots for its parameters and a scope; or a
/// variable, in a slot.
pub open spec fn cg_decl(st: CgState, d: SDecl) -> Option<(CgState, Result<(), Seq<char>>)>
    decreases d, 0int, 0int,
{
    match d {
        SDecl::FunDec(name, params, ty, body, _) => {
            let ps = opt_params(params);
            match (llvm_ty(ty), param_tys(ps)) {
                (Some(rt), Some(pts)) => {
                    let f = st.ops.len();
                    let s1 = emits(
                        st,
                        seq![
                            sop(OpKind::AddFunction, name, seq![], 0, seq![rt] + pts),
                            sopn(OpKind::AppendBlock, "entry"@, seq![f]),
                        ],
                    );
                    let s2 = push_sym(s1, name, Some(SSym::Func(name, f)));
                    let s3 = push_sym(
                        emit(s2, sopa(OpKind::PositionAtEnd, seq![(f + 1) as nat])),
                        marker(),
                        None,
                    );
                    match cg_expr(params_prologue(s3, f, ps, pts, 0), body) {
                        Some((s5, Ok(v))) => {
                            let s6 = if ty == SType::Void {
                                emit(s5, sop0(OpKind::RetVoid))
                            } else {
                                emit(s5, sopa(OpKind::Ret, seq![v]))
                            };
                            match pop_locals(s6.syms) {
                                Some(syms) => Some((CgState { syms: syms, ..s6 }, Ok(()))),
                                None => None,
                            }
                        },
                        Some((s5, Err(m))) => Some((s5, Err(m))),
                        None => None,
                    }
                },
                _ => None,
            }
        },
        SDecl::VarDec(name, ty, rhs) => match llvm_ty(ty) {
            Some(lt) => {
                let a = st.ops.len();
                match cg_expr(emit(st, sop(OpKind::Alloca, name, seq![], 0, seq![lt])), rhs) {
                    Some((s2, Ok(v))) => Some(
                        (
                            push_sym(
                                emit(s2, sopa(OpKind::Store, seq![v, a])),
                                name,
                                Some(SSym::Var(name, ty, a)),
                            ),
                            Ok(()),
                        ),
                    ),
                    Some((s2, Err(m))) => Some((s2, Err(m))),
                    None => None,
                }
            },
            None => None,
        },
        SDecl::TypeDec(_, _) => None,
    }
}

/// The body of `not`: 1 where its parameter `a` is 0, else 0.
pub open spec fn not_body() -> SExpr {
    SExpr::IfThenElse(
        bx(SExpr::Equals(bx(SExpr::Id("a"@)), bx(SExpr::Num(0)))),
        bx(SExpr::Num(1)),
        bx(SExpr::Num(0)),
    )
}

/// Defines the built-in `not`: a function of one integer `a`, whose body is `not_body`.
pub open spec fn not_builder_spec(st: CgState) -> Option<CgState> {
    let f = st.ops.len();
    let s1 = emits(
        st,
        seq![
            sop(OpKind::AddFunction, "not"@, seq![], 0, seq![LlvmTy::I32, LlvmTy::I32]),
            sopn(OpKind::AppendBlock, "entry"@, seq![f]),
        ],
    );
    let s2 = push_sym(s1, "not"@, Some(SSym::Func("not"@, f)));
    let s3 = emits(
        s2,
        seq![
            sopa(OpKind::PositionAtEnd, seq![(f + 1) as nat]),
            sopa(OpKind::Param, seq![f, 0]),
            sop(OpKind::Alloca, "a"@, seq![], 0, seq![LlvmTy::I32]),
            sopa(OpKind::Store, seq![(f + 3) as nat, (f + 4) as nat]),
        ],
    );
    let s4 = push_sym(s3, "a"@, Some(SSym::Var("a"@, SType::Int, (f + 4) as nat)));
    match cg_expr(s4, not_body()) {
        Some((s5, Ok(v))) => {
            let s6 = emit(s5, sopa(OpKind::Ret, seq![v]));
            let syms = if s6.syms.len() > 0 {
                s6.syms.drop_last()
            } else {
                s6.syms
            };
            Some(CgState { syms: syms, protos: s6.protos.push("not"@), ..s6 })
        },
        _ => None,
    }
}

/// The pass that declares the built-in functions that an expression calls before its code is
/// generated: `not` is defined at its first call. `None` where the pass panics: on the
/// expressions it does not cover.
pub open spec fn sfc(st: CgState, e: SExpr) -> Option<CgState>
    decreases e, 1int, 0int,
{
    match e {
        SExpr::Num(_) => Some(st),
        SExpr::Str(_) => Some(st),
        SExpr::Id(_) => Some(st),
        SExpr::Add(a, b) | SExpr::Sub(a, b) | SExpr::Mul(a, b) | SExpr::Div(a, b)
        | SExpr::LessThan(a, b) | SExpr::GreaterThan(a, b) | SExpr::Equals(a, b) => match sfc(
            st,
            *a,
        ) {
            Some(s1) => sfc(s1, *b),
            None => None,
        },
        SExpr::IfThenElse(c, t, f) => match sfc(st, *c) {
            Some(s1) => match sfc(s1, *t) {
                Some(s2) => sfc(s2, *f),
                None => None,
            },
            None => None,
        },
        SExpr::For(_, f, t, b) => match sfc(st, *f) {
            Some(s1) => match sfc(s1, *t) {
                Some(s2) => sfc(s2, *b),
                None => None,
            },
            None => None,
        },
        SExpr::Let(_, _) => sfc_let(st, e, 0),
        SExpr::Call(id, _) => {
            let s1 = if id == "not"@ && !st.protos.contains("not"@) {
                not_builder_spec(st)
            } else {
                Some(st)
            };
            match s1 {
                Some(s1) => sfc_args(s1, e, 0),
                None => None,
            }
        },
        _ => None,
    }
}

/// The pass over a let-expression, from its `i`-th declaration on: the declaration's expression,
/// then the body, once for each declaration.
pub open spec fn sfc_let(st: CgState, e: SExpr, i: int) -> Option<CgState>
    decreases e, 0int, let_decls(e).len() - i,
{
    if i < 0 || i >= let_decls(e).len() {
        Some(st)
    } else {
        match e {
            SExpr::Let(ds, body) => {
                proof {
                    assert(decreases_to!(ds => ds[i]));
                }
                let s1 = match ds[i] {
                    SDecl::FunDec(_, _, _, b, _) => sfc(st, b),
                    SDecl::VarDec(_, _, r) => sfc(st, r),
                    SDecl::TypeDec(_, _) => Some(st),
                };
                match (s1, body) {
                    (Some(s1), Some(b)) => match sfc(s1, *b) {
                        Some(s2) => sfc_let(s2, e, i + 1),
                        None => None,
                    },
                    _ => None,
                }
            },
            _ => None,
        }
    }
}

/// The pass over the arguments of a call, from the `i`-th on.
pub open spec fn sfc_args(st: CgState, e: SExpr, i: int) -> Option<CgState>
    decreases e, 0int, call_args(e).len() - i,
{
    if i < 0 || i >= call_args(e).len() {
        Some(st)
    } else {
        match e {
            SExpr::Call(_, Some(v)) => {
                proof {
                    assert(decreases_to!(v => v[i]));
                }
                match sfc(st, v[i].1) {
                    Some(s1) => sfc_args(s1, e, i + 1),
                    None => None,
                }
            },
            _ => None,
        }
    }
}

/// The code of a program: the built-ins it calls, then a `main` function that evaluates
/// the expression and returns 0. `None` where code generation panics, an error among them.
pub open spec fn translate_spec(e: SExpr) -> Option<CgState> {
    match sfc(empty_state("main_mod"@), e) {
        Some(s1) => {
            let f = s1.ops.len();
            let s2 = emits(
                s1,
                seq![
                    sop(OpKind::AddFunction, "main"@, seq![], 0, seq![LlvmTy::I32]),
                    sopn(OpKind::AppendBlock, "entry"@, seq![f]),
                    sopa(OpKind::PositionAtEnd, seq![(f + 1) as nat]),
                ],
            );
            match cg_expr(CgState { bbs: s2.bbs.push((f + 1) as nat), ..s2 }, e) {
                Some((s3, Ok(_))) => {
                    let z = s3.ops.len();
                    Some(
                        emits(
                            s3,
                            seq![
                                sop(OpKind::ConstI32, seq![], seq![], 0, seq![]),
                                sopa(OpKind::Ret, seq![z]),
                            ],
                        ),
                    )
                },
                _ => None,
            }
        },
        None => None,
    }
}

// ---------------------------------------------------------------------------------------------
// Code generation only appends

/// `b` holds the instructions of `a` as its first ones, and the same module name.
pub open spec fn extends(a: CgState, b: CgState) -> bool {
    &&& a.module == b.module
    &&& a.ops.len() <= b.ops.len()
    &&& b.ops.subrange(0, a.ops.len() as int) == a.ops
}

proof fn lemma_extends_trans(a: CgState, b: CgState, c: CgState)
    requires
        extends(a, b),
        extends(b, c),
    ensures
        extends(a, c),
{
    assert(c.ops.subrange(0, a.ops.len() as int) =~= c.ops.subrange(0, b.ops.len() as int).subrange(
        0,
        a.ops.len() as int,
    ));
}

proof fn lemma_same_ops_extends(a: CgState, b: CgState)
    requires
        a.ops == b.ops,
        a.module == b.module,
    ensures
        extends(a, b),
{
    assert(b.ops.subrange(0, a.ops.len() as int) =~= a.ops);
}

proof fn lemma_emits_extends(st: CgState, os: Seq<SOp>)
    ensures
        extends(st, emits(st, os)),
{
    assert(emits(st, os).ops.subrange(0, st.ops.len() as int) =~= st.ops);
}

proof fn lemma_emit_extends(st: CgState, o: SOp)
    ensures
        extends(st, emit(st, o)),
{
    assert(emit(st, o).ops.subrange(0, st.ops.len() as int) =~= st.ops);
}

/// `b` extends `a`, and `c` extends `b` where it is the state that a result names.
proof fn lemma_result_extends<T>(a: CgState, b: CgState, r: Option<(CgState, T)>)
    requires
        extends(a, b),
        r matches Some((c, _)) ==> extends(b, c),
    ensures
        r matches Some((c, _)) ==> extends(a, c),
{
    if let Some((c, _)) = r {
        lemma_extends_trans(a, b, c);
    }
}

proof fn lemma_params_prologue_extends(
    st: CgState,
    f: nat,
    ps: Seq<(Seq<char>, SType)>,
    pts: Seq<LlvmTy>,
    i: int,
)
    ensures
        extends(st, params_prologue(st, f, ps, pts, i)),
    decreases ps.len() - i,
{
    if i < 0 || i >= ps.len() {
        lemma_same_ops_extends(st, st);
    } else {
        let q = st.ops.len();
        let os = seq![
            sopa(OpKind::Param, seq![f, i as nat]),
            sop(OpKind::Alloca, ps[i].0, seq![], 0, seq![pts[i]]),
            sopa(OpKind::Store, seq![q, (q + 1) as nat]),
        ];
        let s1 = emits(st, os);
        let s2 = push_sym(s1, ps[i].0, Some(SSym::Var(ps[i].0, ps[i].1, (q + 1) as nat)));
        lemma_emits_extends(st, os);
        lemma_same_ops_extends(s1, s2);
        lemma_extends_trans(st, s1, s2);
        lemma_params_prologue_extends(s2, f, ps, pts, i + 1);
        lemma_extends_trans(st, s2, params_prologue(s2, f, ps, pts, i + 1));
    }
}

/// Generating the code of an expression only appends instructions: the ones emitted before stay as they
/// were, and the module keeps its name. This holds of every result, an error among them.
pub proof fn law_codegen_appends(st: CgState, e: SExpr)
    ensures
        cg_expr(st, e) matches Some((s, _)) ==> extends(st, s),
    decreases e, 3int, 0int,
{
    match e {
        SExpr::Num(i) => lemma_emit_extends(st, sop(OpKind::ConstI32, seq![], seq![], i as int, seq![])),
        SExpr::Str(s) => lemma_emit_extends(st, sopn(OpKind::GlobalString, s, seq![])),
        SExpr::Add(_, _) => lemma_binary_appends(st, e),
        SExpr::Sub(_, _) => lemma_binary_appends(st, e),
        SExpr::Mul(_, _) => lemma_binary_appends(st, e),
        SExpr::Div(_, _) => lemma_binary_appends(st, e),
        SExpr::Equals(_, _) => lemma_binary_appends(st, e),
        SExpr::LessThan(_, _) => lemma_binary_appends(st, e),
        SExpr::GreaterThan(_, _) => lemma_binary_appends(st, e),
        SExpr::NotEquals(_, _) => lemma_binary_appends(st, e),
        SExpr::Id(id) => {
            if let Some(Some(SSym::Var(_, _, a))) = sym_lookup(st.syms, id) {
                lemma_emit_extends(st, sopn(OpKind::Load, id, seq![a]));
            }
        },
        SExpr::IfThenElse(_, _, _) => lemma_if_appends(st, e),
        SExpr::For(_, _, _, _) => lemma_for_appends(st, e),
        SExpr::Call(_, _) => lemma_call_appends(st, e),
        SExpr::Let(_, _) => lemma_let_appends(st, e),
        _ => lemma_same_ops_extends(st, st),
    }
}

proof fn lemma_binary_appends(st: CgState, e: SExpr)
    ensures
        cg_binary(st, e) matches Some((s, _)) ==> extends(st, s),
    decreases e, 2int, 0int,
{
    match e {
        SExpr::Add(a, b) | SExpr::Sub(a, b) | SExpr::Mul(a, b) | SExpr::Div(a, b)
        | SExpr::Equals(a, b) | SExpr::LessThan(a, b) | SExpr::GreaterThan(a, b)
        | SExpr::NotEquals(a, b) => {
            law_codegen_appends(st, *a);
            if let Some((s1, Ok(v1))) = cg_expr(st, *a) {
                law_codegen_appends(s1, *b);
                lemma_result_extends(st, s1, cg_expr(s1, *b));
                if let Some((s2, Ok(v2))) = cg_expr(s1, *b) {
                    lemma_emit_extends(s2, sopn(bin_op(e).0, bin_op(e).1, seq![v1, v2]));
                    lemma_extends_trans(st, s2, emit(s2, sopn(bin_op(e).0, bin_op(e).1, seq![v1, v2])));
                }
            }
        },
        _ => {},
    }
}

proof fn lemma_if_appends(st: CgState, e: SExpr)
    ensures
        cg_if(st, e) matches Some((s, _)) ==> extends(st, s),
    decreases e, 2int, 0int,
{
    if let SExpr::IfThenElse(c, t, f) = e {
        law_codegen_appends(st, *c);
        if let Some((s1, Ok(cv))) = cg_expr(st, *c) {
            let n = s1.ops.len();
            let s2 = emits(s1, if_head(n, cv));
            lemma_emits_extends(s1, if_head(n, cv));
            lemma_extends_trans(st, s1, s2);
            law_codegen_appends(s2, *t);
            lemma_result_extends(st, s2, cg_expr(s2, *t));
            if let Some((s3, Ok(tv))) = cg_expr(s2, *t) {
                let m = s3.ops.len();
                let s4 = emits(s3, if_mid(m, n));
                lemma_emits_extends(s3, if_mid(m, n));
                lemma_extends_trans(st, s3, s4);
                law_codegen_appends(s4, *f);
                lemma_result_extends(st, s4, cg_expr(s4, *f));
                if let Some((s5, Ok(fv))) = cg_expr(s4, *f) {
                    let k = s5.ops.len();
                    lemma_emits_extends(s5, if_tail(k, n, m, tv, fv));
                    lemma_extends_trans(st, s5, emits(s5, if_tail(k, n, m, tv, fv)));
                }
            }
        }
    }
}

proof fn lemma_for_appends(st: CgState, e: SExpr)
    ensures
        cg_for(st, e) matches Some((s, _)) ==> extends(st, s),
    decreases e, 2int, 0int,
{
    if let SExpr::For(id, from, to, body) = e {
        law_codegen_appends(st, *from);
        if let Some((s1, Ok(fv))) = cg_expr(st, *from) {
            let n = s1.ops.len();
            let s2 = emits(s1, for_head(n, id, fv));
            lemma_emits_extends(s1, for_head(n, id, fv));
            lemma_extends_trans(st, s1, s2);
            law_codegen_appends(s2, *to);
            lemma_result_extends(st, s2, cg_expr(s2, *to));
            if let Some((s3, Ok(tv))) = cg_expr(s2, *to) {
                let m = s3.ops.len();
                let s4 = emits(s3, for_mid(m, n, id, tv));
                lemma_emits_extends(s3, for_mid(m, n, id, tv));
                lemma_extends_trans(st, s3, s4);
                law_codegen_appends(s4, *body);
                lemma_result_extends(st, s4, cg_expr(s4, *body));
                if let Some((s5, Ok(_))) = cg_expr(s4, *body) {
                    let k = s5.ops.len();
                    lemma_emits_extends(s5, for_tail(k, n, m, id));
                    lemma_extends_trans(st, s5, emits(s5, for_tail(k, n, m, id)));
                }
            }
        }
    }
}

proof fn lemma_call_appends(st: CgState, e: SExpr)
    ensures
        cg_call(st, e) matches Some((s, _)) ==> extends(st, s),
    decreases e, 2int, 0int,
{
    if let SExpr::Call(id, _) = e {
        if id == "print"@ || id == "size"@ || id == "not"@ {
            lemma_std_call_appends(st, e);
        } else {
            lemma_args_appends(st, e, 0, seq![]);
            if let Some((s1, Ok(vals))) = cg_args(st, e, 0, seq![]) {
                if let Some(Some(SSym::Func(_, f))) = sym_lookup(s1.syms, id) {
                    lemma_emit_extends(s1, sopa(OpKind::Call, seq![f] + vals));
                    lemma_extends_trans(st, s1, emit(s1, sopa(OpKind::Call, seq![f] + vals)));
                }
            }
        }
    }
}

proof fn lemma_args_appends(st: CgState, e: SExpr, i: int, acc: Seq<nat>)
    ensures
        cg_args(st, e, i, acc) matches Some((s, _)) ==> extends(st, s),
    decreases e, 1int, call_args(e).len() - i,
{
    if i < 0 || i >= call_args(e).len() {
        lemma_same_ops_extends(st, st);
    } else if let SExpr::Call(_, Some(v)) = e {
        assert(decreases_to!(v => v[i]));
        law_codegen_appends(st, v[i].1);
        if let Some((s1, Ok(x))) = cg_expr(st, v[i].1) {
            lemma_args_appends(s1, e, i + 1, acc.push(x));
            lemma_result_extends(st, s1, cg_args(s1, e, i + 1, acc.push(x)));
        }
    }
}

/// A call of a built-in with one argument: its prototype is declared or fetched (the state
/// `s1`), then the argument and the call are emitted.
proof fn lemma_std_call_appends(st: CgState, e: SExpr)
    ensures
        cg_std_call(st, e) matches Some((s, _)) ==> extends(st, s),
    decreases e, 1int, 0int,
{
    if let SExpr::Call(id, Some(v)) = e {
        if v.len() == 1 {
            assert(decreases_to!(v => v[0]));
            let a = v[0].1;
            let ty = v[0].0;
            if id == "print"@ {
                let pf = st.ops.len();
                let get = sopn(OpKind::GetNamedFunction, "printf"@, seq![]);
                let add = sop(OpKind::AddFunction, "printf"@, seq![], 1, seq![LlvmTy::I32, LlvmTy::I8Ptr]);
                lemma_emit_extends(st, get);
                lemma_emit_extends(st, add);
                let p1 = CgState { protos: st.protos.push("printf"@), ..emit(st, add) };
                lemma_same_ops_extends(emit(st, add), p1);
                lemma_extends_trans(st, emit(st, add), p1);
                let s1 = if st.protos.contains("printf"@) {
                    emit(st, get)
                } else {
                    p1
                };
                if ty == SType::Str {
                    law_codegen_appends(s1, a);
                    if let Some((s2, Ok(x))) = cg_expr(s1, a) {
                        lemma_extends_trans(st, s1, s2);
                        lemma_emit_extends(s2, sopn(OpKind::Call, "call"@, seq![pf, x]));
                        lemma_extends_trans(st, s2, emit(s2, sopn(OpKind::Call, "call"@, seq![pf, x])));
                    }
                } else {
                    let g = s1.ops.len();
                    let s1g = emit(s1, sopn(OpKind::GlobalString, "%d\n"@, seq![]));
                    lemma_emit_extends(s1, sopn(OpKind::GlobalString, "%d\n"@, seq![]));
                    lemma_extends_trans(st, s1, s1g);
                    law_codegen_appends(s1g, a);
                    if let Some((s2, Ok(x))) = cg_expr(s1g, a) {
                        lemma_extends_trans(st, s1g, s2);
                        lemma_emit_extends(s2, sopn(OpKind::Call, "call"@, seq![pf, g, x]));
                        lemma_extends_trans(
                            st,
                            s2,
                            emit(s2, sopn(OpKind::Call, "call"@, seq![pf, g, x])),
                        );
                    }
                }
            } else if id == "size"@ {
                let sf = st.ops.len();
                let get = sopn(OpKind::GetNamedFunction, "printf"@, seq![]);
                let add = sop(OpKind::AddFunction, "strlen"@, seq![], 0, seq![LlvmTy::I32, LlvmTy::I8Ptr]);
                lemma_emit_extends(st, get);
                lemma_emit_extends(st, add);
                let z1 = CgState { protos: st.protos.push("size"@), ..emit(st, add) };
                lemma_same_ops_extends(emit(st, add), z1);
                lemma_extends_trans(st, emit(st, add), z1);
                let s1 = if st.protos.contains("size"@) {
                    emit(st, get)
                } else {
                    z1
                };
                law_codegen_appends(s1, a);
                if let Some((s2, Ok(x))) = cg_expr(s1, a) {
                    lemma_extends_trans(st, s1, s2);
                    lemma_emit_extends(s2, sopn(OpKind::Call, "call"@, seq![sf, x]));
                    lemma_extends_trans(st, s2, emit(s2, sopn(OpKind::Call, "call"@, seq![sf, x])));
                }
            } else {
                let nf = st.ops.len();
                let s1 = emit(st, sopn(OpKind::GetNamedFunction, "not"@, seq![]));
                lemma_emit_extends(st, sopn(OpKind::GetNamedFunction, "not"@, seq![]));
                law_codegen_appends(s1, a);
                if let Some((s2, Ok(x))) = cg_expr(s1, a) {
                    lemma_extends_trans(st, s1, s2);
                    lemma_emit_extends(s2, sopn(OpKind::Call, "call"@, seq![nf, x]));
                    lemma_extends_trans(st, s2, emit(s2, sopn(OpKind::Call, "call"@, seq![nf, x])));
                }
            }
        }
    }
}

proof fn lemma_let_appends(st: CgState, e: SExpr)
    ensures
        cg_let(st, e) matches Some((s, _)) ==> extends(st, s),
    decreases e, 2int, 0int,
{
    if let SExpr::Let(ds, body) = e {
        if let Some(b) = body {
            lemma_decls_appends(st, e, 0);
            if let Some((s1, Ok(_))) = cg_decls(st, e, 0) {
                if s1.bbs.len() > 0 {
                    let s1b = CgState { bbs: s1.bbs.drop_last(), ..s1 };
                    let s2 = emit(s1b, sopa(OpKind::PositionAtEnd, seq![s1.bbs.last()]));
                    lemma_same_ops_extends(s1, s1b);
                    lemma_emit_extends(s1b, sopa(OpKind::PositionAtEnd, seq![s1.bbs.last()]));
                    lemma_extends_trans(st, s1, s1b);
                    lemma_extends_trans(st, s1b, s2);
                    law_codegen_appends(s2, *b);
                    lemma_result_extends(st, s2, cg_expr(s2, *b));
                }
            }
        }
    }
}

proof fn lemma_decls_appends(st: CgState, e: SExpr, i: int)
    ensures
        cg_decls(st, e, i) matches Some((s, _)) ==> extends(st, s),
    decreases e, 1int, let_decls(e).len() - i,
{
    if i < 0 || i >= let_decls(e).len() {
        lemma_same_ops_extends(st, st);
    } else if let SExpr::Let(ds, _) = e {
        assert(decreases_to!(ds => ds[i]));
        lemma_decl_appends(st, ds[i]);
        if let Some((s1, Ok(_))) = cg_decl(st, ds[i]) {
            lemma_decls_appends(s1, e, i + 1);
            lemma_result_extends(st, s1, cg_decls(s1, e, i + 1));
        }
    }
}

proof fn lemma_decl_appends(st: CgState, d: SDecl)
    ensures
        cg_decl(st, d) matches Some((s, _)) ==> extends(st, s),
    decreases d, 0int, 0int,
{
    match d {
        SDecl::FunDec(name, params, ty, body, _) => {
            let ps = opt_params(params);
            if let (Some(rt), Some(pts)) = (llvm_ty(ty), param_tys(ps)) {
                let f = st.ops.len();
                let os = seq![
                    sop(OpKind::AddFunction, name, seq![], 0, seq![rt] + pts),
                    sopn(OpKind::AppendBlock, "entry"@, seq![f]),
                ];
                let s1 = emits(st, os);
                let s2 = push_sym(s1, name, Some(SSym::Func(name, f)));
                let s2e = emit(s2, sopa(OpKind::PositionAtEnd, seq![(f + 1) as nat]));
                let s3 = push_sym(s2e, marker(), None);
                lemma_emits_extends(st, os);
                lemma_same_ops_extends(s1, s2);
                lemma_emit_extends(s2, sopa(OpKind::PositionAtEnd, seq![(f + 1) as nat]));
                lemma_same_ops_extends(s2e, s3);
                lemma_extends_trans(st, s1, s2);
                lemma_extends_trans(st, s2, s2e);
                lemma_extends_trans(st, s2e, s3);
                let s4 = params_prologue(s3, f, ps, pts, 0);
                lemma_params_prologue_extends(s3, f, ps, pts, 0);
                lemma_extends_trans(st, s3, s4);
                law_codegen_appends(s4, body);
                lemma_result_extends(st, s4, cg_expr(s4, body));
                if let Some((s5, Ok(v))) = cg_expr(s4, body) {
                    let s6 = if ty == SType::Void {
                        emit(s5, sop0(OpKind::RetVoid))
                    } else {
                        emit(s5, sopa(OpKind::Ret, seq![v]))
                    };
                    lemma_emit_extends(s5, sop0(OpKind::RetVoid));
                    lemma_emit_extends(s5, sopa(OpKind::Ret, seq![v]));
                    lemma_extends_trans(st, s5, s6);
                    if let Some(syms) = pop_locals(s6.syms) {
                        lemma_same_ops_extends(s6, CgState { syms: syms, ..s6 });
                        lemma_extends_trans(st, s6, CgState { syms: syms, ..s6 });
                    }
                }
            }
        },
        SDecl::VarDec(name, ty, rhs) => {
            if let Some(lt) = llvm_ty(ty) {
                let a = st.ops.len();
                let s1 = emit(st, sop(OpKind::Alloca, name, seq![], 0, seq![lt]));
                lemma_emit_extends(st, sop(OpKind::Alloca, name, seq![], 0, seq![lt]));
                law_codegen_appends(s1, rhs);
                lemma_result_extends(st, s1, cg_expr(s1, rhs));
                if let Some((s2, Ok(v))) = cg_expr(s1, rhs) {
                    let s3 = emit(s2, sopa(OpKind::Store, seq![v, a]));
                    lemma_emit_extends(s2, sopa(OpKind::Store, seq![v, a]));
                    lemma_extends_trans(st, s2, s3);
                    let s4 = push_sym(s3, name, Some(SSym::Var(name, ty, a)));
                    lemma_same_ops_extends(s3, s4);
                    lemma_extends_trans(st, s3, s4);
                }
            }
        },
        SDecl::TypeDec(_, _) => {},
    }
}

// ---------------------------------------------------------------------------------------------
// A function's scope closes at its end

pub type SymTable = Seq<(Seq<char>, Option<SSym>)>;

/// `b` is `a` with bound entries (no scope openers) added on top.
pub open spec fn syms_grow(a: SymTable, b: SymTable) -> bool {
    &&& a.len() <= b.len()
    &&& b.subrange(0, a.len() as int) == a
    &&& forall|i: int| a.len() <= i < b.len() ==> (#[trigger] b[i]).1 is Some
}

proof fn lemma_syms_grow_refl(a: SymTable)
    ensures
        syms_grow(a, a),
{
    assert(a.subrange(0, a.len() as int) =~= a);
}

proof fn lemma_syms_grow_trans(a: SymTable, b: SymTable, c: SymTable)
    requires
        syms_grow(a, b),
        syms_grow(b, c),
    ensures
        syms_grow(a, c),
{
    assert(c.subrange(0, a.len() as int) =~= c.subrange(0, b.len() as int).subrange(0, a.len() as int));
    assert forall|i: int| a.len() <= i < c.len() implies (#[trigger] c[i]).1 is Some by {
        if i < b.len() {
            assert(c[i] == c.subrange(0, b.len() as int)[i]);
        }
    }
}

proof fn lemma_syms_grow_push(a: SymTable, id: Seq<char>, s: SSym)
    ensures
        syms_grow(a, a.push((id, Some(s)))),
{
    assert(a.push((id, Some(s))).subrange(0, a.len() as int) =~= a);
}

/// `b` grows `a`, and the state a result names grows `b`, where the result is a success.
proof fn lemma_result_grows<T, E>(a: SymTable, b: SymTable, r: Option<(CgState, Result<T, E>)>)
    requires
        syms_grow(a, b),
        r matches Some((c, Ok(_))) ==> syms_grow(b, c.syms),
    ensures
        r matches Some((c, Ok(_))) ==> syms_grow(a, c.syms),
{
    if let Some((c, Ok(_))) = r {
        lemma_syms_grow_trans(a, b, c.syms);
    }
}

/// Popping the entries of a scope whose entries are all bound gives the table below its opener.
proof fn lemma_pop_locals(s: SymTable, id: Seq<char>, t: SymTable)
    requires
        syms_grow(s.push((id, None)), t),
    ensures
        pop_locals(t) == Some(s),
    decreases t.len(),
{
    let m = s.push((id, None));
    if t.len() == m.len() {
        assert(t =~= m);
    } else {
        assert(t.last() == t[t.len() - 1]);
        assert(t.drop_last().subrange(0, m.len() as int) =~= t.subrange(0, m.len() as int));
        assert forall|i: int| m.len() <= i < t.drop_last().len() implies (
        #[trigger] t.drop_last()[i]).1 is Some by {
            assert(t.drop_last()[i] == t[i]);
        }
        lemma_pop_locals(s, id, t.drop_last());
    }
}

proof fn lemma_params_prologue_grows(
    st: CgState,
    f: nat,
    ps: Seq<(Seq<char>, SType)>,
    pts: Seq<LlvmTy>,
    i: int,
)
    ensures
        syms_grow(st.syms, params_prologue(st, f, ps, pts, i).syms),
    decreases ps.len() - i,
{
    if i < 0 || i >= ps.len() {
        lemma_syms_grow_refl(st.syms);
    } else {
        let q = st.ops.len();
        let os = seq![
            sopa(OpKind::Param, seq![f, i as nat]),
            sop(OpKind::Alloca, ps[i].0, seq![], 0, seq![pts[i]]),
            sopa(OpKind::Store, seq![q, (q + 1) as nat]),
        ];
        let s1 = emits(st, os);
        let s2 = push_sym(s1, ps[i].0, Some(SSym::Var(ps[i].0, ps[i].1, (q + 1) as nat)));
        lemma_syms_grow_push(st.syms, ps[i].0, SSym::Var(ps[i].0, ps[i].1, (q + 1) as nat));
        lemma_params_prologue_grows(s2, f, ps, pts, i + 1);
        lemma_syms_grow_trans(st.syms, s2.syms, params_prologue(s2, f, ps, pts, i + 1).syms);
    }
}

/// Code generation that succeeds only adds bound entries to the symbol table: the scopes that it
/// opens, it closes.
proof fn lemma_cg_expr_grows(st: CgState, e: SExpr)
    ensures
        cg_expr(st, e) matches Some((s, Ok(_))) ==> syms_grow(st.syms, s.syms),
    decreases e, 3int, 0int,
{
    lemma_syms_grow_refl(st.syms);
    match e {
        SExpr::Add(_, _) | SExpr::Sub(_, _) | SExpr::Mul(_, _) | SExpr::Div(_, _)
        | SExpr::Equals(_, _) | SExpr::LessThan(_, _) | SExpr::GreaterThan(_, _)
        | SExpr::NotEquals(_, _) => lemma_binary_grows(st, e),
        SExpr::IfThenElse(_, _, _) => lemma_if_grows(st, e),
        SExpr::For(_, _, _, _) => lemma_for_grows(st, e),
        SExpr::Call(_, _) => lemma_call_grows(st, e),
        SExpr::Let(_, _) => lemma_let_grows(st, e),
        _ => {},
    }
}

proof fn lemma_binary_grows(st: CgState, e: SExpr)
    ensures
        cg_binary(st, e) matches Some((s, Ok(_))) ==> syms_grow(st.syms, s.syms),
    decreases e, 2int, 0int,
{
    match e {
        SExpr::Add(a, b) | SExpr::Sub(a, b) | SExpr::Mul(a, b) | SExpr::Div(a, b)
        | SExpr::Equals(a, b) | SExpr::LessThan(a, b) | SExpr::GreaterThan(a, b)
        | SExpr::NotEquals(a, b) => {
            lemma_cg_expr_grows(st, *a);
            if let Some((s1, Ok(_))) = cg_expr(st, *a) {
                lemma_cg_expr_grows(s1, *b);
                lemma_result_grows(st.syms, s1.syms, cg_expr(s1, *b));
            }
        },
        _ => {},
    }
}

proof fn lemma_if_grows(st: CgState, e: SExpr)
    ensures
        cg_if(st, e) matches Some((s, Ok(_))) ==> syms_grow(st.syms, s.syms),
    decreases e, 2int, 0int,
{
    if let SExpr::IfThenElse(c, t, f) = e {
        lemma_cg_expr_grows(st, *c);
        if let Some((s1, Ok(cv))) = cg_expr(st, *c) {
            let n = s1.ops.len();
            let s2 = emits(s1, if_head(n, cv));
            lemma_cg_expr_grows(s2, *t);
            lemma_result_grows(st.syms, s2.syms, cg_expr(s2, *t));
            if let Some((s3, Ok(tv))) = cg_expr(s2, *t) {
                let m = s3.ops.len();
                let s4 = emits(s3, if_mid(m, n));
                lemma_cg_expr_grows(s4, *f);
                lemma_result_grows(st.syms, s4.syms, cg_expr(s4, *f));
            }
        }
    }
}

proof fn lemma_for_grows(st: CgState, e: SExpr)
    ensures
        cg_for(st, e) matches Some((s, Ok(_))) ==> syms_grow(st.syms, s.syms),
    decreases e, 2int, 0int,
{
    if let SExpr::For(id, from, to, body) = e {
        lemma_cg_expr_grows(st, *from);
        if let Some((s1, Ok(fv))) = cg_expr(st, *from) {
            let n = s1.ops.len();
            let s2 = emits(s1, for_head(n, id, fv));
            lemma_cg_expr_grows(s2, *to);
            lemma_result_grows(st.syms, s2.syms, cg_expr(s2, *to));
            if let Some((s3, Ok(tv))) = cg_expr(s2, *to) {
                let m = s3.ops.len();
                let s4 = emits(s3, for_mid(m, n, id, tv));
                lemma_cg_expr_grows(s4, *body);
                lemma_result_grows(st.syms, s4.syms, cg_expr(s4, *body));
            }
        }
    }
}

proof fn lemma_call_grows(st: CgState, e: SExpr)
    ensures
        cg_call(st, e) matches Some((s, Ok(_))) ==> syms_grow(st.syms, s.syms),
    decreases e, 2int, 0int,
{
    if let SExpr::Call(id, _) = e {
        if id == "print"@ || id == "size"@ || id == "not"@ {
            lemma_std_call_grows(st, e);
        } else {
            lemma_args_grows(st, e, 0, seq![]);
        }
    }
}

proof fn lemma_args_grows(st: CgState, e: SExpr, i: int, acc: Seq<nat>)
    ensures
        cg_args(st, e, i, acc) matches Some((s, Ok(_))) ==> syms_grow(st.syms, s.syms),
    decreases e, 1int, call_args(e).len() - i,
{
    lemma_syms_grow_refl(st.syms);
    if 0 <= i < call_args(e).len() {
        if let SExpr::Call(_, Some(v)) = e {
            assert(decreases_to!(v => v[i]));
            lemma_cg_expr_grows(st, v[i].1);
            if let Some((s1, Ok(x))) = cg_expr(st, v[i].1) {
                lemma_args_grows(s1, e, i + 1, acc.push(x));
                lemma_result_grows(st.syms, s1.syms, cg_args(s1, e, i + 1, acc.push(x)));
            }
        }
    }
}

proof fn lemma_std_call_grows(st: CgState, e: SExpr)
    ensures
        cg_std_call(st, e) matches Some((s, Ok(_))) ==> syms_grow(st.syms, s.syms),
    decreases e, 1int, 0int,
{
    lemma_syms_grow_refl(st.syms);
    if let SExpr::Call(id, Some(v)) = e {
        if v.len() == 1 {
            assert(decreases_to!(v => v[0]));
            let a = v[0].1;
            let ty = v[0].0;
            if id == "print"@ {
                let get = sopn(OpKind::GetNamedFunction, "printf"@, seq![]);
                let add = sop(OpKind::AddFunction, "printf"@, seq![], 1, seq![LlvmTy::I32, LlvmTy::I8Ptr]);
                let s1 = if st.protos.contains("printf"@) {
                    emit(st, get)
                } else {
                    CgState { protos: st.protos.push("printf"@), ..emit(st, add) }
                };
                assert(s1.syms == st.syms);
                if ty == SType::Str {
                    lemma_cg_expr_grows(s1, a);
                    lemma_result_grows(st.syms, s1.syms, cg_expr(s1, a));
                } else {
                    let s1g = emit(s1, sopn(OpKind::GlobalString, "%d\n"@, seq![]));
                    lemma_cg_expr_grows(s1g, a);
                    lemma_result_grows(st.syms, s1g.syms, cg_expr(s1g, a));
                }
            } else if id == "size"@ {
                let get = sopn(OpKind::GetNamedFunction, "printf"@, seq![]);
                let add = sop(OpKind::AddFunction, "strlen"@, seq![], 0, seq![LlvmTy::I32, LlvmTy::I8Ptr]);
                let s1 = if st.protos.contains("size"@) {
                    emit(st, get)
                } else {
                    CgState { protos: st.protos.push("size"@), ..emit(st, add) }
                };
                lemma_cg_expr_grows(s1, a);
                lemma_result_grows(st.syms, s1.syms, cg_expr(s1, a));
            } else {
                let s1 = emit(st, sopn(OpKind::GetNamedFunction, "not"@, seq![]));
                lemma_cg_expr_grows(s1, a);
                lemma_result_grows(st.syms, s1.syms, cg_expr(s1, a));
            }
        }
    }
}

proof fn lemma_let_grows(st: CgState, e: SExpr)
    ensures
        cg_let(st, e) matches Some((s, Ok(_))) ==> syms_grow(st.syms, s.syms),
    decreases e, 2int, 0int,
{
    if let SExpr::Let(ds, body) = e {
        if let Some(b) = body {
            lemma_decls_grows(st, e, 0);
            if let Some((s1, Ok(_))) = cg_decls(st, e, 0) {
                if s1.bbs.len() > 0 {
                    let s1b = CgState { bbs: s1.bbs.drop_last(), ..s1 };
                    let s2 = emit(s1b, sopa(OpKind::PositionAtEnd, seq![s1.bbs.last()]));
                    lemma_cg_expr_grows(s2, *b);
                    lemma_result_grows(st.syms, s2.syms, cg_expr(s2, *b));
                }
            }
        }
    }
}

proof fn lemma_decls_grows(st: CgState, e: SExpr, i: int)
    ensures
        cg_decls(st, e, i) matches Some((s, Ok(_))) ==> syms_grow(st.syms, s.syms),
    decreases e, 1int, let_decls(e).len() - i,
{
    lemma_syms_grow_refl(st.syms);
    if 0 <= i < let_decls(e).len() {
        if let SExpr::Let(ds, _) = e {
            assert(decreases_to!(ds => ds[i]));
            lemma_decl_grows(st, ds[i]);
            if let Some((s1, Ok(_))) = cg_decl(st, ds[i]) {
                lemma_decls_grows(s1, e, i + 1);
                lemma_result_grows(st.syms, s1.syms, cg_decls(s1, e, i + 1));
            }
        }
    }
}

/// What a function declaration leaves: its scope closed, and its name bound to the function,
/// which is the instruction `f`.
pub open spec fn fun_dec_closes(st: CgState, name: Seq<char>, s: CgState) -> bool {
    s.syms == st.syms.push((name, Some(SSym::Func(name, st.ops.len()))))
}

proof fn lemma_decl_grows(st: CgState, d: SDecl)
    ensures
        cg_decl(st, d) matches Some((s, Ok(_))) ==> syms_grow(st.syms, s.syms),
        d matches SDecl::FunDec(name, _, _, _, _) ==> (cg_decl(st, d) matches Some((s, Ok(_)))
            ==> fun_dec_closes(st, name, s)),
    decreases d, 0int, 0int,
{
    match d {
        SDecl::FunDec(name, params, ty, body, _) => {
            let ps = opt_params(params);
            if let (Some(rt), Some(pts)) = (llvm_ty(ty), param_tys(ps)) {
                let f = st.ops.len();
                let os = seq![
                    sop(OpKind::AddFunction, name, seq![], 0, seq![rt] + pts),
                    sopn(OpKind::AppendBlock, "entry"@, seq![f]),
                ];
                let s1 = emits(st, os);
                let s2 = push_sym(s1, name, Some(SSym::Func(name, f)));
                let s3 = push_sym(
                    emit(s2, sopa(OpKind::PositionAtEnd, seq![(f + 1) as nat])),
                    marker(),
                    None,
                );
                let s4 = params_prologue(s3, f, ps, pts, 0);
                lemma_params_prologue_grows(s3, f, ps, pts, 0);
                lemma_cg_expr_grows(s4, body);
                if let Some((s5, Ok(v))) = cg_expr(s4, body) {
                    lemma_syms_grow_trans(s3.syms, s4.syms, s5.syms);
                    lemma_pop_locals(s2.syms, marker(), s5.syms);
                    lemma_syms_grow_push(st.syms, name, SSym::Func(name, f));
                }
            }
        },
        SDecl::VarDec(name, ty, rhs) => {
            if let Some(lt) = llvm_ty(ty) {
                let a = st.ops.len();
                let s1 = emit(st, sop(OpKind::Alloca, name, seq![], 0, seq![lt]));
                lemma_cg_expr_grows(s1, rhs);
                if let Some((s2, Ok(v))) = cg_expr(s1, rhs) {
                    lemma_syms_grow_push(s2.syms, name, SSym::Var(name, ty, a));
                    lemma_syms_grow_trans(st.syms, s2.syms, s2.syms.push((name, Some(SSym::Var(name, ty, a)))));
                }
            }
        },
        SDecl::TypeDec(_, _) => {},
    }
}

/// Whether code generation covers the form of `e`.
pub open spec fn cg_covers(e: SExpr) -> bool {
    match e {
        SExpr::Num(_) | SExpr::Str(_) | SExpr::Id(_) | SExpr::IfThenElse(_, _, _) | SExpr::For(
            _,
            _,
            _,
            _,
        ) | SExpr::Call(_, _) | SExpr::Let(_, _) => true,
        _ => binary_operands(e) is Some,
    }
}

/// The operands of a binary expression.
pub open spec fn binary_operands(e: SExpr) -> Option<(SExpr, SExpr)> {
    match e {
        SExpr::Add(a, b) | SExpr::Sub(a, b) | SExpr::Mul(a, b) | SExpr::Div(a, b)
        | SExpr::Equals(a, b) | SExpr::LessThan(a, b) | SExpr::GreaterThan(a, b)
        | SExpr::NotEquals(a, b) => Some((*a, *b)),
        _ => None,
    }
}

/// Errors of code generation: an expression whose form it does not cover is answered with an
/// error that carries its debug text, and nothing is emitted; in a binary expression, an error
/// of the left operand is passed up as it is and the right one is not generated, and an error of
/// the right one is passed up as it is.
pub proof fn law_codegen_errors(st: CgState, e: SExpr)
    ensures
        unsupported(e) == "error: "@ + expr_dbg(e),
        !cg_covers(e) ==> cg_expr(st, e) == Some((st, Err::<nat, Seq<char>>(unsupported(e)))),
        binary_operands(e) matches Some((a, b)) ==> (cg_expr(st, a) matches Some((s1, Err(m)))
            ==> cg_expr(st, e) == Some((s1, Err::<nat, Seq<char>>(m)))),
        binary_operands(e) matches Some((a, b)) ==> (cg_expr(st, a) matches Some((s1, Ok(_)))
            ==> (cg_expr(s1, b) matches Some((s2, Err(m))) ==> cg_expr(st, e) == Some(
            (s2, Err::<nat, Seq<char>>(m)),
        ))),
{
    reveal(unsupported);
}

/// The code of the leaves: a number is one instruction holding the 32-bit integer, a string one
/// global string holding its text, and a variable one load from the variable's slot; each gives
/// the value of its instruction, and nothing before it changes.
pub proof fn law_leaf_instructions(st: CgState, e: SExpr)
    ensures
        e matches SExpr::Num(n) ==> (cg_expr(st, e) matches Some((s, Ok(v))) && v == st.ops.len()
            && s.ops.drop_last() == st.ops && s.ops.last().kind == OpKind::ConstI32
            && s.ops.last().num == n && s.syms == st.syms),
        e matches SExpr::Str(t) ==> (cg_expr(st, e) matches Some((s, Ok(v))) && v == st.ops.len()
            && s.ops.drop_last() == st.ops && s.ops.last().kind == OpKind::GlobalString
            && s.ops.last().name == t && s.syms == st.syms),
        e matches SExpr::Id(x) ==> (sym_lookup(st.syms, x) matches Some(Some(SSym::Var(_, _, a)))
            ==> (cg_expr(st, e) matches Some((s, Ok(v))) && v == st.ops.len() && s.ops.drop_last()
            == st.ops && s.ops.last().kind == OpKind::Load && s.ops.last().args == seq![a])),
{
    match e {
        SExpr::Num(n) => {
            let o = sop(OpKind::ConstI32, seq![], seq![], n as int, seq![]);
            assert(st.ops.push(o).drop_last() =~= st.ops);
        },
        SExpr::Str(t) => {
            assert(st.ops.push(sopn(OpKind::GlobalString, t, seq![])).drop_last() =~= st.ops);
        },
        SExpr::Id(x) => {
            if let Some(Some(SSym::Var(_, _, a))) = sym_lookup(st.syms, x) {
                assert(st.ops.push(sopn(OpKind::Load, x, seq![a])).drop_last() =~= st.ops);
            }
        },
        _ => {},
    }
}

/// The built-in `print` on an integer: `printf` is declared (a function returning an `i32` and
/// taking a byte pointer, with more arguments after it) unless it already was, then the format
/// `%d` and a new line is made a global string, the argument is computed, and the last instruction
/// calls `printf` with the format and the argument's value.
pub proof fn law_print_int(st: CgState, a: SExpr)
    ensures
        ({
            let n = st.ops.len();
            cg_expr(st, SExpr::Call("print"@, Some(seq![(SType::Int, a)]))) matches Some((s, Ok(v)))
                ==> {
                &&& s.ops.len() >= n + 3
                &&& !st.protos.contains("printf"@) ==> s.ops[n as int] == sop(
                    OpKind::AddFunction,
                    "printf"@,
                    seq![],
                    1,
                    seq![LlvmTy::I32, LlvmTy::I8Ptr],
                )
                &&& st.protos.contains("printf"@) ==> s.ops[n as int].kind == OpKind::GetNamedFunction
                    && s.ops[n as int].name == "printf"@
                &&& s.ops[n + 1int].kind == OpKind::GlobalString && s.ops[n + 1int].name == "%d\n"@
                &&& s.ops.last().kind == OpKind::Call && s.ops.last().args.len() == 3
                &&& s.ops.last().args[0] == n && s.ops.last().args[1] == n + 1
                &&& v == s.ops.len() - 1
            }
        }),
{
    let n = st.ops.len();
    let get = sopn(OpKind::GetNamedFunction, "printf"@, seq![]);
    let add = sop(OpKind::AddFunction, "printf"@, seq![], 1, seq![LlvmTy::I32, LlvmTy::I8Ptr]);
    let s1 = if st.protos.contains("printf"@) {
        emit(st, get)
    } else {
        CgState { protos: st.protos.push("printf"@), ..emit(st, add) }
    };
    let s1g = emit(s1, sopn(OpKind::GlobalString, "%d\n"@, seq![]));
    law_codegen_appends(s1g, a);
    let e = SExpr::Call("print"@, Some(seq![(SType::Int, a)]));
    let v = seq![(SType::Int, a)];
    assert(v.len() == 1 && v[0] == (SType::Int, a));
    assert(cg_expr(st, e) == cg_call(st, e));
    assert(cg_call(st, e) == cg_std_call(st, e));
    if let Some((s2, Ok(x))) = cg_expr(s1g, a) {
        assert(s2.ops[n as int] == s2.ops.subrange(0, s1g.ops.len() as int)[n as int]);
        assert(s2.ops[n + 1int] == s2.ops.subrange(0, s1g.ops.len() as int)[n + 1int]);
        assert(cg_std_call(st, e) == Some(
            (emit(s2, sopn(OpKind::Call, "call"@, seq![n, n + 1, x])), Ok::<nat, Seq<char>>(s2.ops.len())),
        ));
    }
}

/// The built-in `size` on a string, where it was not declared: `strlen` is declared (a function
/// returning an `i32` and taking a byte pointer), the argument is computed, and the last
/// instruction calls `strlen` with the argument's value.
pub proof fn law_size_call(st: CgState, a: SExpr)
    requires
        !st.protos.contains("size"@),
    ensures
        ({
            let n = st.ops.len();
            cg_expr(st, SExpr::Call("size"@, Some(seq![(SType::Str, a)]))) matches Some((s, Ok(v)))
                ==> {
                &&& s.ops.len() >= n + 2
                &&& s.ops[n as int] == sop(
                    OpKind::AddFunction,
                    "strlen"@,
                    seq![],
                    0,
                    seq![LlvmTy::I32, LlvmTy::I8Ptr],
                )
                &&& s.ops.last().kind == OpKind::Call && s.ops.last().args.len() == 2
                &&& s.ops.last().args[0] == n
                &&& v == s.ops.len() - 1
            }
        }),
{
    reveal_strlit("print");
    reveal_strlit("size");
    assert("print"@.len() != "size"@.len());
    let n = st.ops.len();
    let add = sop(OpKind::AddFunction, "strlen"@, seq![], 0, seq![LlvmTy::I32, LlvmTy::I8Ptr]);
    let s1 = CgState { protos: st.protos.push("size"@), ..emit(st, add) };
    law_codegen_appends(s1, a);
    let e = SExpr::Call("size"@, Some(seq![(SType::Str, a)]));
    let v = seq![(SType::Str, a)];
    assert(v.len() == 1 && v[0] == (SType::Str, a));
    assert(cg_expr(st, e) == cg_call(st, e));
    assert(cg_call(st, e) == cg_std_call(st, e));
    if let Some((s2, Ok(x))) = cg_expr(s1, a) {
        assert(s2.ops[n as int] == s2.ops.subrange(0, s1.ops.len() as int)[n as int]);
        assert(cg_std_call(st, e) == Some(
            (emit(s2, sopn(OpKind::Call, "call"@, seq![n, x])), Ok::<nat, Seq<char>>(s2.ops.len())),
        ));
    }
}

/// The built-in `not`: the function `not` is looked up, the argument is computed, and the last
/// instruction calls `not` with the argument's value.
pub proof fn law_not_call(st: CgState, ty: SType, a: SExpr)
    ensures
        ({
            let n = st.ops.len();
            cg_expr(st, SExpr::Call("not"@, Some(seq![(ty, a)]))) matches Some((s, Ok(v))) ==> {
                &&& s.ops.len() >= n + 2
                &&& s.ops[n as int].kind == OpKind::GetNamedFunction && s.ops[n as int].name == "not"@
                &&& s.ops.last().kind == OpKind::Call && s.ops.last().args.len() == 2
                &&& s.ops.last().args[0] == n
                &&& v == s.ops.len() - 1
            }
        }),
{
    reveal_strlit("print");
    reveal_strlit("size");
    reveal_strlit("not");
    assert("print"@.len() != "not"@.len());
    assert("size"@.len() != "not"@.len());
    let n = st.ops.len();
    let s1 = emit(st, sopn(OpKind::GetNamedFunction, "not"@, seq![]));
    law_codegen_appends(s1, a);
    let e = SExpr::Call("not"@, Some(seq![(ty, a)]));
    let v = seq![(ty, a)];
    assert(v.len() == 1 && v[0] == (ty, a));
    assert(cg_expr(st, e) == cg_call(st, e));
    assert(cg_call(st, e) == cg_std_call(st, e));
    if let Some((s2, Ok(x))) = cg_expr(s1, a) {
        assert(s2.ops[n as int] == s2.ops.subrange(0, s1.ops.len() as int)[n as int]);
        if ty == SType::Str || ty == SType::Int {
            assert(cg_std_call(st, e) == Some(
                (emit(s2, sopn(OpKind::Call, "call"@, seq![n, x])), Ok::<nat, Seq<char>>(s2.ops.len())),
            ));
        }
    }
}

/// The instruction of a binary expression: the operands are generated left to right, and one
/// instruction more combines their values and gives the expression's value. Each operator has its
/// own instruction: `+` an addition, `-` a subtraction, `*` a multiplication, `/` a signed
/// division, `=`, `<`, `>` and `<>` the integer comparisons equal, signed less, signed greater and
/// not equal.
pub proof fn law_binary_instructions(st: CgState, e: SExpr, s1: CgState, va: nat, s2: CgState, vb: nat)
    requires
        binary_operands(e) is Some,
        cg_expr(st, binary_operands(e).unwrap().0) == Some((s1, Ok::<nat, Seq<char>>(va))),
        cg_expr(s1, binary_operands(e).unwrap().1) == Some((s2, Ok::<nat, Seq<char>>(vb))),
    ensures
        cg_expr(st, e) matches Some((s, Ok(v))) && v == s2.ops.len() && s.ops.len() == s2.ops.len() + 1
            && s.ops.drop_last() == s2.ops && s.ops.last().args == seq![va, vb],
        ({
            let i = cg_expr(st, e).unwrap().0.ops.last();
            &&& e is Add ==> i.kind == OpKind::Add && i.name == "add_tmp"@
            &&& e is Sub ==> i.kind == OpKind::Sub && i.name == "sub_tmp"@
            &&& e is Mul ==> i.kind == OpKind::Mul && i.name == "mul_tmp"@
            &&& e is Div ==> i.kind == OpKind::SDiv && i.name == "div_tmp"@
            &&& e is Equals ==> i.kind == OpKind::ICmpEq && i.name == "eqcmp_tmp"@
            &&& e is LessThan ==> i.kind == OpKind::ICmpSlt && i.name == "lecmp_tmp"@
            &&& e is GreaterThan ==> i.kind == OpKind::ICmpSgt && i.name == "gtcmp_tmp"@
            &&& e is NotEquals ==> i.kind == OpKind::ICmpNe && i.name == "necmp_tmp"@
        }),
{
    assert(cg_expr(st, e).unwrap().0.ops.drop_last() =~= s2.ops);
}

/// A function's scope closes at its end: after its code, the symbol table holds the entries
/// it held before and the function's name, bound to the function; its parameters and the names
/// declared in its body are gone.
pub proof fn law_function_scope_closes(st: CgState, d: SDecl)
    requires
        d is FunDec,
    ensures
        cg_decl(st, d) matches Some((s, Ok(_))) ==> fun_dec_closes(st, d->FunDec_0, s),
{
    lemma_decl_grows(st, d);
}

// ---------------------------------------------------------------------------------------------
// Code generation

pub type OptionalSymbolInfo = Option<SymbolInfo>;

/// Code generation in progress: the module's name, its instructions, the symbol table, the blocks
/// to resume and the names of the prototypes declared.
pub struct Context {
    pub module_name: String,
    pub ops: Vec<Op>,
    pub sym_tab: Vec<(String, OptionalSymbolInfo)>,
    pub bb_stack: Vec<ValueRef>,
    pub proto_map: Vec<String>,
}

pub open spec fn ops_v(v: Seq<Op>) -> Seq<SOp> {
    v.map_values(|o: Op| o@)
}

pub open spec fn info_v(o: OptionalSymbolInfo) -> Option<SSym> {
    match o {
        Some(s) => Some(s@),
        None => None,
    }
}

pub open spec fn syms_v(v: Seq<(String, OptionalSymbolInfo)>) -> Seq<(Seq<char>, Option<SSym>)> {
    v.map_values(|p: (String, OptionalSymbolInfo)| (p.0@, info_v(p.1)))
}

pub open spec fn strs_v(v: Seq<String>) -> Seq<Seq<char>> {
    v.map_values(|s: String| s@)
}

impl View for Context {
    type V = CgState;

    open spec fn view(&self) -> CgState {
        CgState {
            module: self.module_name@,
            ops: ops_v(self.ops@),
            syms: syms_v(self.sym_tab@),
            bbs: nats(self.bb_stack@),
            protos: strs_v(self.proto_map@),
        }
    }
}

pub open spec fn res_v(r: Result<ValueRef, String>) -> Result<nat, Seq<char>> {
    match r {
        Ok(v) => Ok(v as nat),
        Err(s) => Err(s@),
    }
}

pub open spec fn unit_res_v(r: Result<(), String>) -> Result<(), Seq<char>> {
    match r {
        Ok(_) => Ok(()),
        Err(s) => Err(s@),
    }
}

fn ids1(a: ValueRef) -> (v: Vec<ValueRef>)
    ensures
        nats(v@) == seq![a as nat],
{
    let mut v: Vec<ValueRef> = Vec::new();
    v.push(a);
    assert(nats(v@) =~= seq![a as nat]);
    v
}

fn ids2(a: ValueRef, b: ValueRef) -> (v: Vec<ValueRef>)
    ensures
        nats(v@) == seq![a as nat, b as nat],
{
    let mut v: Vec<ValueRef> = Vec::new();
    v.push(a);
    v.push(b);
    assert(nats(v@) =~= seq![a as nat, b as nat]);
    v
}

fn ids3(a: ValueRef, b: ValueRef, c: ValueRef) -> (v: Vec<ValueRef>)
    ensures
        nats(v@) == seq![a as nat, b as nat, c as nat],
{
    let mut v: Vec<ValueRef> = Vec::new();
    v.push(a);
    v.push(b);
    v.push(c);
    assert(nats(v@) =~= seq![a as nat, b as nat, c as nat]);
    v
}

fn no_tys() -> (v: Vec<LlvmTy>)
    ensures
        v@ == Seq::<LlvmTy>::empty(),
{
    let v: Vec<LlvmTy> = Vec::new();
    assert(v@ =~= Seq::<LlvmTy>::empty());
    v
}

fn tys1(a: LlvmTy) -> (v: Vec<LlvmTy>)
    ensures
        v@ == seq![a],
{
    let mut v: Vec<LlvmTy> = Vec::new();
    v.push(a);
    assert(v@ =~= seq![a]);
    v
}

fn tys2(a: LlvmTy, b: LlvmTy) -> (v: Vec<LlvmTy>)
    ensures
        v@ == seq![a, b],
{
    let mut v: Vec<LlvmTy> = Vec::new();
    v.push(a);
    v.push(b);
    assert(v@ =~= seq![a, b]);
    v
}

/// The type of the generated code for a type; `None` for the types not mapped.
fn get_llvm_type_for_ttype(ty: &TType) -> (r: Option<LlvmTy>)
    ensures
        r == llvm_ty(ty@),
{
    match ty {
        TType::TVoid => Some(LlvmTy::Void),
        TType::TInt32 => Some(LlvmTy::I32),
        TType::TString => Some(LlvmTy::I8Ptr),
        _ => None,
    }
}

impl Context {
    /// An empty code generation for the module `module_name`.
    pub fn new(module_name: &str) -> (c: Self)
        ensures
            c@ == empty_state(module_name@),
    {
        let c = Context {
            module_name: module_name.to_owned(),
            ops: Vec::new(),
            sym_tab: Vec::new(),
            bb_stack: Vec::new(),
            proto_map: Vec::new(),
        };
        assert(c@.ops =~= seq![]);
        assert(c@.syms =~= seq![]);
        assert(c@.bbs =~= seq![]);
        assert(c@.protos =~= seq![]);
        c
    }

    /// Appends an instruction; its index names what it makes.
    fn push_op(&mut self, kind: OpKind, name: &str, args: Vec<ValueRef>, num: i32, tys: Vec<LlvmTy>) -> (id: ValueRef)
        ensures
            id == old(self)@.ops.len(),
            final(self)@ == emit(old(self)@, sop(kind, name@, nats(args@), num as int, tys@)),
    {
        let id = self.ops.len();
        let o = Op { kind: kind, name: name.to_owned(), args: args, num: num, tys: tys };
        self.ops.push(o);
        assert(ops_v(self.ops@) =~= ops_v(old(self).ops@).push(o@));
        id
    }

    /// Appends an instruction without a name.
    fn push_anon(&mut self, kind: OpKind, args: Vec<ValueRef>, num: i32, tys: Vec<LlvmTy>) -> (id: ValueRef)
        ensures
            id == old(self)@.ops.len(),
            final(self)@ == emit(old(self)@, sop(kind, seq![], nats(args@), num as int, tys@)),
    {
        proof {
            reveal_strlit("");
            assert(""@ =~= Seq::<char>::empty());
        }
        self.push_op(kind, "", args, num, tys)
    }

    fn op0(&mut self, kind: OpKind) -> (id: ValueRef)
        ensures
            id == old(self)@.ops.len(),
            final(self)@ == emit(old(self)@, sop0(kind)),
    {
        let v: Vec<ValueRef> = Vec::new();
        assert(nats(v@) =~= seq![]);
        self.push_anon(kind, v, 0, no_tys())
    }

    fn opa1(&mut self, kind: OpKind, a: ValueRef) -> (id: ValueRef)
        ensures
            id == old(self)@.ops.len(),
            final(self)@ == emit(old(self)@, sopa(kind, seq![a as nat])),
    {
        self.push_anon(kind, ids1(a), 0, no_tys())
    }

    fn opa2(&mut self, kind: OpKind, a: ValueRef, b: ValueRef) -> (id: ValueRef)
        ensures
            id == old(self)@.ops.len(),
            final(self)@ == emit(old(self)@, sopa(kind, seq![a as nat, b as nat])),
    {
        self.push_anon(kind, ids2(a, b), 0, no_tys())
    }

    fn opa3(&mut self, kind: OpKind, a: ValueRef, b: ValueRef, c: ValueRef) -> (id: ValueRef)
        ensures
            id == old(self)@.ops.len(),
            final(self)@ == emit(old(self)@, sopa(kind, seq![a as nat, b as nat, c as nat])),
    {
        self.push_anon(kind, ids3(a, b, c), 0, no_tys())
    }

    fn opn0(&mut self, kind: OpKind, name: &str) -> (id: ValueRef)
        ensures
            id == old(self)@.ops.len(),
            final(self)@ == emit(old(self)@, sopn(kind, name@, seq![])),
    {
        let v: Vec<ValueRef> = Vec::new();
        assert(nats(v@) =~= seq![]);
        self.push_op(kind, name, v, 0, no_tys())
    }

    fn opn1(&mut self, kind: OpKind, name: &str, a: ValueRef) -> (id: ValueRef)
        ensures
            id == old(self)@.ops.len(),
            final(self)@ == emit(old(self)@, sopn(kind, name@, seq![a as nat])),
    {
        self.push_op(kind, name, ids1(a), 0, no_tys())
    }

    fn opn2(&mut self, kind: OpKind, name: &str, a: ValueRef, b: ValueRef) -> (id: ValueRef)
        ensures
            id == old(self)@.ops.len(),
            final(self)@ == emit(old(self)@, sopn(kind, name@, seq![a as nat, b as nat])),
    {
        self.push_op(kind, name, ids2(a, b), 0, no_tys())
    }

    fn opn3(&mut self, kind: OpKind, name: &str, a: ValueRef, b: ValueRef, c: ValueRef) -> (id: ValueRef)
        ensures
            id == old(self)@.ops.len(),
            final(self)@ == emit(old(self)@, sopn(kind, name@, seq![a as nat, b as nat, c as nat])),
    {
        self.push_op(kind, name, ids3(a, b, c), 0, no_tys())
    }

    /// An instruction with a name and types, and no operand.
    fn op_tys(&mut self, kind: OpKind, name: &str, num: i32, tys: Vec<LlvmTy>) -> (id: ValueRef)
        ensures
            id == old(self)@.ops.len(),
            final(self)@ == emit(old(self)@, sop(kind, name@, seq![], num as int, tys@)),
    {
        let v: Vec<ValueRef> = Vec::new();
        assert(nats(v@) =~= seq![]);
        self.push_op(kind, name, v, num, tys)
    }

    /// Pops the entries of the innermost scope and the entry that opens it.
    fn pop_scope(&mut self)
        requires
            pop_locals(old(self)@.syms) is Some,
        ensures
            final(self)@ == (CgState { syms: pop_locals(old(self)@.syms)->0, ..old(self)@ }),
    {
        loop
            invariant_except_break
                pop_locals(syms_v(self.sym_tab@)) == pop_locals(old(self)@.syms),
            invariant
                pop_locals(old(self)@.syms) is Some,
                self.ops == old(self).ops,
                self.module_name == old(self).module_name,
                self.bb_stack == old(self).bb_stack,
                self.proto_map == old(self).proto_map,
            ensures
                syms_v(self.sym_tab@) == pop_locals(old(self)@.syms)->0,
            decreases self.sym_tab@.len(),
        {
            let ghost before = self.sym_tab@;
            let last_is_marker = match self.sym_tab.last() {
                Some(last) => last.1.is_none(),
                None => {
                    proof {
                        assert(false);
                    }
                    true
                },
            };
            self.sym_tab.pop();
            assert(syms_v(self.sym_tab@) =~= syms_v(before).drop_last());
            if last_is_marker {
                break;
            }
        }
    }

    /// An integer constant.
    fn const_i32(&mut self, n: i32) -> (id: ValueRef)
        ensures
            id == old(self)@.ops.len(),
            final(self)@ == emit(old(self)@, sop(OpKind::ConstI32, seq![], seq![], n as int, seq![])),
    {
        let v: Vec<ValueRef> = Vec::new();
        assert(nats(v@) =~= seq![]);
        self.push_anon(OpKind::ConstI32, v, n, no_tys())
    }

    /// A stack slot of type `ty` named `name`.
    fn alloca(&mut self, name: &str, ty: LlvmTy) -> (id: ValueRef)
        ensures
            id == old(self)@.ops.len(),
            final(self)@ == emit(old(self)@, sop(OpKind::Alloca, name@, seq![], 0, seq![ty])),
    {
        let v: Vec<ValueRef> = Vec::new();
        assert(nats(v@) =~= seq![]);
        self.push_op(OpKind::Alloca, name, v, 0, tys1(ty))
    }

    fn push_sym(&mut self, id: String, info: OptionalSymbolInfo)
        ensures
            final(self)@ == push_sym(old(self)@, id@, info_v(info)),
    {
        let ghost e = (id, info);
        self.sym_tab.push((id, info));
        assert(syms_v(self.sym_tab@) =~= syms_v(old(self).sym_tab@).push((id@, info_v(info))));
    }

    /// The index of the innermost entry named `id`.
    fn find_sym(&self, id: &String) -> (r: Option<usize>)
        ensures
            match r {
                Some(i) => i < self.sym_tab@.len() && sym_lookup(self@.syms, id@) == Some(
                    self@.syms[i as int].1,
                ),
                None => sym_lookup(self@.syms, id@) is None,
            },
    {
        let ghost syms = self@.syms;
        let mut i = self.sym_tab.len();
        assert(syms.take(i as int) =~= syms);
        while i > 0
            invariant
                i <= self.sym_tab@.len(),
                syms == self@.syms,
                sym_lookup(syms, id@) == sym_lookup(syms.take(i as int), id@),
            decreases i,
        {
            assert(syms.take(i as int).drop_last() =~= syms.take(i - 1));
            if self.sym_tab[i - 1].0 == *id {
                return Some(i - 1);
            }
            i = i - 1;
        }
        None
    }

    /// Whether a prototype named `name` was declared.
    fn has_proto(&self, name: &str) -> (r: bool)
        ensures
            r == self@.protos.contains(name@),
    {
        let key = name.to_owned();
        let mut i: usize = 0;
        while i < self.proto_map.len()
            invariant
                i <= self.proto_map@.len(),
                key@ == name@,
                forall|j: int| 0 <= j < i ==> self@.protos[j] != name@,
            decreases self.proto_map@.len() - i,
        {
            if self.proto_map[i] == key {
                assert(self@.protos[i as int] == name@);
                return true;
            }
            i = i + 1;
        }
        false
    }

    fn add_proto(&mut self, name: &str)
        ensures
            final(self)@ == (CgState { protos: old(self)@.protos.push(name@), ..old(self)@ }),
    {
        self.proto_map.push(name.to_owned());
        assert(strs_v(self.proto_map@) =~= strs_v(old(self).proto_map@).push(name@));
    }
}

type IRBuildingResult = Result<ValueRef, String>;

/// Emits the instructions that compute a value.
trait IRBuilder {
    spec fn spec_codegen(&self, st: CgState) -> CgResult;

    fn codegen(&self, ctxt: &mut Context) -> (r: IRBuildingResult)
        requires
            self.spec_codegen(old(ctxt)@) is Some,
        ensures
            self.spec_codegen(old(ctxt)@) == Some((final(ctxt)@, res_v(r))),
    ;
}

impl IRBuilder for Expr {
    spec fn spec_codegen(&self, st: CgState) -> CgResult {
        cg_expr(st, self@)
    }

    fn codegen(&self, ctxt: &mut Context) -> (r: IRBuildingResult) {
        expr_codegen(self, ctxt)
    }
}

/// The model of a call by its parts.
pub open spec fn call_v(id: Seq<char>, args: OptionalTypeExprTupleList) -> SExpr {
    SExpr::Call(
        id,
        match args {
            Some(v) => Some(targs_v(v@)),
            None => None,
        },
    )
}

fn expr_codegen(e: &Expr, ctxt: &mut Context) -> (r: IRBuildingResult)
    requires
        cg_expr(old(ctxt)@, e@) is Some,
    ensures
        cg_expr(old(ctxt)@, e@) == Some((final(ctxt)@, res_v(r))),
    decreases e, 3int, 0int,
{
    match e {
        Expr::NumExpr(i) => Ok(ctxt.const_i32(*i)),
        Expr::StringExpr(s) => Ok(ctxt.opn0(OpKind::GlobalString, s.as_str())),
        Expr::AddExpr(_, _) | Expr::SubExpr(_, _) | Expr::MulExpr(_, _) | Expr::DivExpr(_, _)
        | Expr::EqualsExpr(_, _) | Expr::LessThanExpr(_, _) | Expr::GreaterThanExpr(_, _)
        | Expr::NotEqualsExpr(_, _) => binary_codegen(e, ctxt),
        Expr::IdExpr(id) => {
            let slot = match ctxt.find_sym(id) {
                Some(i) => match &ctxt.sym_tab[i].1 {
                    Some(SymbolInfo::Var(v)) => Some(v.alloca_ref),
                    _ => None,
                },
                None => None,
            };
            match slot {
                Some(a) => Ok(ctxt.opn1(OpKind::Load, id.as_str(), a)),
                None => {
                    // "Invalid reference to variable '{0}'", or "... Different binding found."
                    proof {
                        assert(false);
                    }
                    Err(String::new())
                },
            }
        },
        Expr::IfThenElseExpr(_, _, _) => if_codegen(e, ctxt),
        Expr::ForExpr(_, _, _, _) => for_codegen(e, ctxt),
        Expr::CallExpr(_, _) => call_codegen(e, ctxt),
        Expr::LetExpr(_, _) => let_codegen(e, ctxt),
        _ => {
            let mut msg = "error: ".to_owned();
            let d = e.debug_string();
            msg.append(d.as_str());
            proof {
                reveal(unsupported);
                reveal_strlit("error: ");
            }
            Err(msg)
        },
    }
}

/// The instruction of a binary expression, and its name.
fn bin_kind(e: &Expr) -> (r: (OpKind, &'static str))
    ensures
        r.0 == bin_op(e@).0,
        r.1@ == bin_op(e@).1,
{
    match e {
        Expr::AddExpr(_, _) => (OpKind::Add, "add_tmp"),
        Expr::SubExpr(_, _) => (OpKind::Sub, "sub_tmp"),
        Expr::MulExpr(_, _) => (OpKind::Mul, "mul_tmp"),
        Expr::DivExpr(_, _) => (OpKind::SDiv, "div_tmp"),
        Expr::EqualsExpr(_, _) => (OpKind::ICmpEq, "eqcmp_tmp"),
        Expr::LessThanExpr(_, _) => (OpKind::ICmpSlt, "lecmp_tmp"),
        Expr::GreaterThanExpr(_, _) => (OpKind::ICmpSgt, "gtcmp_tmp"),
        _ => (OpKind::ICmpNe, "necmp_tmp"),
    }
}

fn binary_codegen(e: &Expr, ctxt: &mut Context) -> (r: IRBuildingResult)
    requires
        cg_binary(old(ctxt)@, e@) is Some,
    ensures
        cg_binary(old(ctxt)@, e@) == Some((final(ctxt)@, res_v(r))),
    decreases e, 2int, 0int,
{
    let (kind, name) = bin_kind(e);
    match e {
        Expr::AddExpr(a, b) | Expr::SubExpr(a, b) | Expr::MulExpr(a, b) | Expr::DivExpr(a, b)
        | Expr::EqualsExpr(a, b) | Expr::LessThanExpr(a, b) | Expr::GreaterThanExpr(a, b)
        | Expr::NotEqualsExpr(a, b) => {
            let v1 = match expr_codegen(&*a.ptr, ctxt) {
                Ok(v) => v,
                Err(m) => {
                    return Err(m);
                },
            };
            let v2 = match expr_codegen(&*b.ptr, ctxt) {
                Ok(v) => v,
                Err(m) => {
                    return Err(m);
                },
            };
            Ok(ctxt.opn2(kind, name, v1, v2))
        },
        _ => {
            proof {
                assert(false);
            }
            Err(String::new())
        },
    }
}

fn if_codegen(e: &Expr, ctxt: &mut Context) -> (r: IRBuildingResult)
    requires
        cg_if(old(ctxt)@, e@) is Some,
    ensures
        cg_if(old(ctxt)@, e@) == Some((final(ctxt)@, res_v(r))),
    decreases e, 2int, 0int,
{
    match e {
        Expr::IfThenElseExpr(conditional_expr, then_expr, else_expr) => {
            let cond_code = match expr_codegen(&*conditional_expr.ptr, ctxt) {
                Ok(v) => v,
                Err(m) => {
                    return Err(m);
                },
            };
            let ghost s1 = ctxt@;
            let zero = ctxt.const_i32(0);
            let if_cond = ctxt.opn2(OpKind::ICmpNe, "ifcond", cond_code, zero);
            let bb = ctxt.op0(OpKind::GetInsertBlock);
            let function = ctxt.opa1(OpKind::BlockParent, bb);
            let then_block = ctxt.opn1(OpKind::AppendBlock, "thencond", function);
            let else_block = ctxt.opn1(OpKind::AppendBlock, "elsecond", function);
            let ifcont_block = ctxt.opn1(OpKind::AppendBlock, "ifcont", function);
            ctxt.opa3(OpKind::CondBr, if_cond, then_block, else_block);
            ctxt.opa1(OpKind::PositionAtEnd, then_block);
            assert(ctxt@.ops =~= s1.ops + if_head(s1.ops.len(), cond_code as nat));
            let then_code = match expr_codegen(&*then_expr.ptr, ctxt) {
                Ok(v) => v,
                Err(m) => {
                    return Err(m);
                },
            };
            let ghost s3 = ctxt@;
            ctxt.opa1(OpKind::Br, ifcont_block);
            let then_end = ctxt.op0(OpKind::GetInsertBlock);
            ctxt.opa1(OpKind::PositionAtEnd, else_block);
            assert(ctxt@.ops =~= s3.ops + if_mid(s3.ops.len(), s1.ops.len()));
            let else_code = match expr_codegen(&*else_expr.ptr, ctxt) {
                Ok(v) => v,
                Err(m) => {
                    return Err(m);
                },
            };
            let ghost s5 = ctxt@;
            ctxt.opa1(OpKind::Br, ifcont_block);
            let else_end = ctxt.op0(OpKind::GetInsertBlock);
            ctxt.opa1(OpKind::PositionAtEnd, ifcont_block);
            let phi_node = ctxt.op_tys(OpKind::Phi, "ifphi", 0, tys1(LlvmTy::I32));
            ctxt.opa3(OpKind::AddIncoming, phi_node, then_code, then_end);
            ctxt.opa3(OpKind::AddIncoming, phi_node, else_code, else_end);
            assert(ctxt@.ops =~= s5.ops + if_tail(
                s5.ops.len(),
                s1.ops.len(),
                s3.ops.len(),
                then_code as nat,
                else_code as nat,
            ));
            Ok(phi_node)
        },
        _ => {
            proof {
                assert(false);
            }
            Err(String::new())
        },
    }
}

fn for_codegen(e: &Expr, ctxt: &mut Context) -> (r: IRBuildingResult)
    requires
        cg_for(old(ctxt)@, e@) is Some,
    ensures
        cg_for(old(ctxt)@, e@) == Some((final(ctxt)@, res_v(r))),
    decreases e, 2int, 0int,
{
    match e {
        Expr::ForExpr(id, from, to, do_expr) => {
            if id.as_str().is_empty() {
                // "id cannot be empty"
                proof {
                    assert(false);
                }
            }
            let from_code = match expr_codegen(&*from.ptr, ctxt) {
                Ok(v) => v,
                Err(m) => {
                    return Err(m);
                },
            };
            let ghost s1 = ctxt@;
            let bb = ctxt.op0(OpKind::GetInsertBlock);
            let function = ctxt.opa1(OpKind::BlockParent, bb);
            //i := ...
            let from_var = ctxt.alloca(id.as_str(), LlvmTy::I32);
            ctxt.opa2(OpKind::Store, from_code, from_var);
            let preloop_block = ctxt.opn1(OpKind::AppendBlock, "preloop", function);
            ctxt.opa1(OpKind::Br, preloop_block);
            ctxt.opa1(OpKind::PositionAtEnd, preloop_block);
            assert(ctxt@.ops =~= s1.ops + for_head(s1.ops.len(), id@, from_code as nat));
            let to_code = match expr_codegen(&*to.ptr, ctxt) {
                Ok(v) => v,
                Err(m) => {
                    return Err(m);
                },
            };
            let ghost s3 = ctxt@;
            let zero = ctxt.const_i32(0);
            let cur = ctxt.opn1(OpKind::Load, id.as_str(), from_var);
            let end_cond = ctxt.opn2(OpKind::ICmpNe, "loopcond", cur, to_code);
            let afterloop_block = ctxt.opn1(OpKind::AppendBlock, "afterloop", function);
            let loop_block = ctxt.opn1(OpKind::AppendBlock, "loop", function);
            ctxt.opa3(OpKind::CondBr, end_cond, loop_block, afterloop_block);
            ctxt.opa1(OpKind::PositionAtEnd, loop_block);
            assert(ctxt@.ops =~= s3.ops + for_mid(
                s3.ops.len(),
                s1.ops.len(),
                id@,
                to_code as nat,
            ));
            match expr_codegen(&*do_expr.ptr, ctxt) {
                Ok(_) => {},
                Err(m) => {
                    return Err(m);
                },
            };
            let ghost s5 = ctxt@;
            //stepping
            let cur_value = ctxt.opn1(OpKind::Load, id.as_str(), from_var);
            let one = ctxt.const_i32(1);
            let next_value = ctxt.opn2(OpKind::Add, "nextvar", cur_value, one);
            ctxt.opa2(OpKind::Store, next_value, from_var);
            ctxt.opa1(OpKind::Br, preloop_block);
            ctxt.opa1(OpKind::PositionAtEnd, afterloop_block);
            assert(ctxt@.ops =~= s5.ops + for_tail(
                s5.ops.len(),
                s1.ops.len(),
                s3.ops.len(),
                id@,
            ));
            Ok(zero)
        },
        _ => {
            proof {
                assert(false);
            }
            Err(String::new())
        },
    }
}

/// The calls of the built-in functions `print`, `size` and `not`; `None`, and nothing emitted,
/// for any other name.
fn std_functions_call_factory(
    fn_name: &String,
    args: &OptionalTypeExprTupleList,
    ctxt: &mut Context,
) -> (r: Option<ValueRef>)
    requires
        fn_name@ == "print"@ || fn_name@ == "size"@ || fn_name@ == "not"@ ==> cg_std_call(
            old(ctxt)@,
            call_v(fn_name@, *args),
        ) is Some,
    ensures
        fn_name@ == "print"@ || fn_name@ == "size"@ || fn_name@ == "not"@ ==> r is Some && cg_std_call(
            old(ctxt)@,
            call_v(fn_name@, *args),
        ) == Some((final(ctxt)@, Ok::<nat, Seq<char>>(r->0 as nat))),
        !(fn_name@ == "print"@ || fn_name@ == "size"@ || fn_name@ == "not"@) ==> r is None
            && final(ctxt)@ == old(ctxt)@,
    decreases args, 1int, 0int,
{
    let print_s = "print".to_owned();
    let size_s = "size".to_owned();
    let not_s = "not".to_owned();
    if !(*fn_name == print_s || *fn_name == size_s || *fn_name == not_s) {
        return None;
    }
    let lst = match args {
        Some(lst) => lst,
        None => {
            // "No args passed to print()", or to size() or not()
            proof {
                assert(false);
            }
            return None;
        },
    };
    if lst.len() != 1 {
        // "One arg should be passed to print()", or to size() or not()
        proof {
            assert(false);
        }
        return None;
    }
    let arg_type = &lst[0].0;
    let arg_expr = &lst[0].1;
    proof {
        assert(targs_v(lst@)[0] == (lst@[0].0@, (*lst@[0].1.ptr)@));
        assert(decreases_to!(args => *lst));
        assert(decreases_to!(*lst => lst@));
        assert(decreases_to!(lst@ => lst@[0]));
        assert(decreases_to!(lst@[0] => lst@[0].1));
    }
    if *fn_name == print_s {
        if !(*arg_type == TType::TString || *arg_type == TType::TInt32) {
            // "Arg type of print is {0}"
            proof {
                assert(false);
            }
            return None;
        }
        //check if we already have a prototype defined
        let print_function = if !ctxt.has_proto("printf") {
            let f = ctxt.op_tys(OpKind::AddFunction, "printf", 1, tys2(LlvmTy::I32, LlvmTy::I8Ptr));
            ctxt.add_proto("printf");
            f
        } else {
            ctxt.opn0(OpKind::GetNamedFunction, "printf")
        };
        if *arg_type == TType::TString {
            let gstr = match expr_codegen(&*arg_expr.ptr, ctxt) {
                Ok(v) => v,
                Err(_) => {
                    proof {
                        assert(false);
                    }
                    return None;
                },
            };
            Some(ctxt.opn2(OpKind::Call, "call", print_function, gstr))
        } else {
            let gstr = ctxt.opn0(OpKind::GlobalString, "%d\n");
            let l = match expr_codegen(&*arg_expr.ptr, ctxt) {
                Ok(v) => v,
                Err(_) => {
                    // "Error occurred"
                    proof {
                        assert(false);
                    }
                    return None;
                },
            };
            Some(ctxt.opn3(OpKind::Call, "call", print_function, gstr, l))
        }
    } else if *fn_name == size_s {
        if !(*arg_type == TType::TString) {
            // "Arg type of print is {0}"
            proof {
                assert(false);
            }
            return None;
        }
        let size_function = if !ctxt.has_proto("size") {
            let f = ctxt.op_tys(OpKind::AddFunction, "strlen", 0, tys2(LlvmTy::I32, LlvmTy::I8Ptr));
            ctxt.add_proto("size");
            f
        } else {
            ctxt.opn0(OpKind::GetNamedFunction, "printf")
        };
        let gstr = match expr_codegen(&*arg_expr.ptr, ctxt) {
            Ok(v) => v,
            Err(_) => {
                proof {
                    assert(false);
                }
                return None;
            },
        };
        Some(ctxt.opn2(OpKind::Call, "call", size_function, gstr))
    } else {
        if !(*arg_type == TType::TString || *arg_type == TType::TInt32) {
            proof {
                assert(false);
            }
            return None;
        }
        let not_function = ctxt.opn0(OpKind::GetNamedFunction, "not");
        let l = match expr_codegen(&*arg_expr.ptr, ctxt) {
            Ok(v) => v,
            Err(_) => {
                // "Error occurred - {0}"
                proof {
                    assert(false);
                }
                return None;
            },
        };
        Some(ctxt.opn2(OpKind::Call, "call", not_function, l))
    }
}

fn call_codegen(e: &Expr, ctxt: &mut Context) -> (r: IRBuildingResult)
    requires
        cg_call(old(ctxt)@, e@) is Some,
    ensures
        cg_call(old(ctxt)@, e@) == Some((final(ctxt)@, res_v(r))),
    decreases e, 2int, 0int,
{
    proof {
        if e is CallExpr {
            lemma_call_view(*e);
        }
    }
    match e {
        Expr::CallExpr(fn_name, optional_args) => {
            proof {
                assert(decreases_to!(*e => *optional_args));
            }
            match std_functions_call_factory(fn_name, optional_args, ctxt) {
                Some(call) => Ok(call),  //intrinsic function
                _ => {
                    //user defined function call
                    let ghost st0 = ctxt@;
                    let mut pf_args: Vec<ValueRef> = Vec::new();
                    assert(nats(pf_args@) =~= seq![]);
                    match optional_args {
                        Some(lst) => {
                            let mut i: usize = 0;
                            while i < lst.len()
                                invariant
                                    i <= lst@.len(),
                                    e@ == call_v(fn_name@, *optional_args),
                                    *optional_args == Some(*lst),
                                    cg_args(st0, e@, 0, seq![]) == cg_args(
                                        ctxt@,
                                        e@,
                                        i as int,
                                        nats(pf_args@),
                                    ),
                                    cg_args(st0, e@, 0, seq![]) is Some,
                                    *e == Expr::CallExpr(*fn_name, *optional_args),
                                    st0 == old(ctxt)@,
                                    !(fn_name@ == "print"@ || fn_name@ == "size"@ || fn_name@ == "not"@),
                                decreases lst@.len() - i,
                            {
                                proof {
                                    assert(decreases_to!(*optional_args => *lst));
                                    assert(decreases_to!(*lst => lst@));
                                    assert(decreases_to!(lst@ => lst@[i as int]));
                                    assert(decreases_to!(lst@[i as int] => lst@[i as int].1));
                                }
                                assert(targs_v(lst@)[i as int].1 == (*lst@[i as int].1.ptr)@);
                                let c = match expr_codegen(&*lst[i].1.ptr, ctxt) {
                                    Ok(v) => v,
                                    Err(m) => {
                                        return Err(m);
                                    },
                                };
                                let ghost before = pf_args@;
                                pf_args.push(c);
                                assert(nats(pf_args@) =~= nats(before).push(c as nat));
                                i = i + 1;
                            }
                        },
                        None => {},
                    }
                    let slot = match ctxt.find_sym(fn_name) {
                        Some(i) => match &ctxt.sym_tab[i].1 {
                            Some(SymbolInfo::Function(f)) => Some(f.value_ref),
                            _ => None,
                        },
                        None => None,
                    };
                    match slot {
                        Some(f) => {
                            let mut call_args: Vec<ValueRef> = Vec::new();
                            call_args.push(f);
                            let ghost vals = nats(pf_args@);
                            call_args.append(&mut pf_args);
                            assert(nats(call_args@) =~= seq![f as nat] + vals);
                            Ok(ctxt.push_anon(OpKind::Call, call_args, 0, no_tys()))
                        },
                        None => {
                            // "Call to '{0}' not found", or "Invalid reference to function
                            // '{0}'. Different binding found."
                            proof {
                                assert(false);
                            }
                            Err(String::new())
                        },
                    }
                },
            }
        },
        _ => {
            proof {
                assert(false);
            }
            Err(String::new())
        },
    }
}

fn let_codegen(e: &Expr, ctxt: &mut Context) -> (r: IRBuildingResult)
    requires
        cg_let(old(ctxt)@, e@) is Some,
    ensures
        cg_let(old(ctxt)@, e@) == Some((final(ctxt)@, res_v(r))),
    decreases e, 2int, 0int,
{
    proof {
        if e is LetExpr {
            lemma_let_view(*e);
        }
    }
    match e {
        Expr::LetExpr(decls, expr) => {
            if decls.len() == 0 {
                // "Declarations in a let block can't be empty"
                proof {
                    assert(false);
                }
            }
            let b_expr = match expr {
                Some(b) => b,
                None => {
                    // "Expr in a let block can't be empty"
                    proof {
                        assert(false);
                    }
                    return Err(String::new());
                },
            };
            let ghost st0 = ctxt@;
            let mut i: usize = 0;
            while i < decls.len()
                invariant
                    i <= decls@.len(),
                    let_decls(e@) == decls_v(decls@),
                    e@ is Let,
                    cg_decls(st0, e@, 0) == cg_decls(ctxt@, e@, i as int),
                    cg_decls(st0, e@, 0) is Some,
                    *e == Expr::LetExpr(*decls, *expr),
                    st0 == old(ctxt)@,
                    cg_let(old(ctxt)@, e@) is Some,
                decreases decls@.len() - i,
            {
                proof {
                    assert(decreases_to!(*e => *decls));
                    assert(decreases_to!(*decls => decls@));
                    assert(decreases_to!(decls@ => decls@[i as int]));
                }
                assert(decls_v(decls@)[i as int] == decls@[i as int]@);
                match decl_codegen(&decls[i], ctxt) {
                    Ok(()) => {},
                    Err(m) => {
                        return Err(m);
                    },
                }
                i = i + 1;
            }
            //code of the 'in' expr
            let ghost bbs_before = ctxt.bb_stack@;
            let bb = match ctxt.bb_stack.pop() {
                Some(bb) => bb,
                None => {
                    proof {
                        assert(false);
                    }
                    return Err(String::new());
                },
            };
            assert(nats(ctxt.bb_stack@) =~= nats(bbs_before).drop_last());
            ctxt.opa1(OpKind::PositionAtEnd, bb);
            expr_codegen(&*b_expr.ptr, ctxt)
        },
        _ => {
            proof {
                assert(false);
            }
            Err(String::new())
        },
    }
}

fn decl_codegen(d: &Decl, ctxt: &mut Context) -> (r: Result<(), String>)
    requires
        cg_decl(old(ctxt)@, d@) is Some,
    ensures
        cg_decl(old(ctxt)@, d@) == Some((final(ctxt)@, unit_res_v(r))),
    decreases d, 0int, 0int,
{
    match d {
        Decl::FunDec(name, params, ty, body, _) => {
            let ret_ty = match get_llvm_type_for_ttype(ty) {
                Some(t) => t,
                None => {
                    // "Other TTypes not mapped yet to the corresponding LLVM types"
                    proof {
                        assert(false);
                    }
                    return Err(String::new());
                },
            };
            let ghost ps = opt_params(opt_pairs_v(*params));
            let mut type_args: Vec<LlvmTy> = Vec::new();
            type_args.push(ret_ty);
            match params {
                Some(p) => {
                    let mut i: usize = 0;
                    assert(ps.take(0) =~= seq![]);
                    while i < p.len()
                        invariant
                            i <= p@.len(),
                            ps == pairs_v(*p),
                            param_tys(ps) is Some,
                            type_args@.len() == i + 1,
                            type_args@[0] == ret_ty,
                            param_tys(ps.take(i as int)) == Some(type_args@.skip(1)),
                            forall|j: int| 0 <= j < i ==> llvm_ty(#[trigger] ps[j].1) == Some(type_args@[j + 1]),
                        decreases p@.len() - i,
                    {
                        proof {
                            lemma_param_tys_prefix(ps, i + 1);
                            assert(ps.take(i + 1).drop_last() =~= ps.take(i as int));
                        }
                        let t = match get_llvm_type_for_ttype(&p[i].1) {
                            Some(t) => t,
                            None => {
                                proof {
                                    assert(false);
                                }
                                return Err(String::new());
                            },
                        };
                        let ghost before = type_args@;
                        type_args.push(t);
                        assert(type_args@.skip(1) =~= before.skip(1).push(t));
                        i = i + 1;
                    }
                    assert(ps.take(i as int) =~= ps);
                },
                None => {
                    assert(ps =~= seq![]);
                    assert(type_args@.skip(1) =~= seq![]);
                },
            }
            let ghost pts = type_args@.skip(1);
            assert(type_args@ =~= seq![ret_ty] + pts);
            assert(param_tys(ps) == Some(pts));
            let ghost st0 = ctxt@;
            let function = ctxt.op_tys(OpKind::AddFunction, name.as_str(), 0, type_args);
            let bb = ctxt.opn1(OpKind::AppendBlock, "entry", function);
            ctxt.push_sym(
                name.clone(),
                Some(SymbolInfo::Function(Function::new(name.clone(), function))),
            );
            ctxt.opa1(OpKind::PositionAtEnd, bb);
            ctxt.push_sym("<marker>".to_owned(), None);
            //build allocas for params
            let ghost s3 = ctxt@;
            assert(s3.ops =~= st0.ops + seq![
                sop(OpKind::AddFunction, name@, seq![], 0, seq![ret_ty] + pts),
                sopn(OpKind::AppendBlock, "entry"@, seq![function as nat]),
            ] + seq![sopa(OpKind::PositionAtEnd, seq![(function + 1) as nat])]);
            match params {
                Some(p) => {
                    let mut i: usize = 0;
                    while i < p.len()
                        invariant
                            i <= p@.len(),
                            ps == pairs_v(*p),
                            pts.len() == ps.len(),
                            type_args_ok(ps, pts),
                            params_prologue(s3, function as nat, ps, pts, 0) == params_prologue(
                                ctxt@,
                                function as nat,
                                ps,
                                pts,
                                i as int,
                            ),
                        decreases p@.len() - i,
                    {
                        let ghost q = ctxt@;
                        let value_ref = ctxt.opa2(OpKind::Param, function, i);
                        let t = match get_llvm_type_for_ttype(&p[i].1) {
                            Some(t) => t,
                            None => {
                                proof {
                                    assert(false);
                                }
                                return Err(String::new());
                            },
                        };
                        let alloca = ctxt.alloca(p[i].0.as_str(), t);
                        ctxt.opa2(OpKind::Store, value_ref, alloca);
                        ctxt.push_sym(
                            p[i].0.clone(),
                            Some(SymbolInfo::Var(Var::new(p[i].0.clone(), p[i].1.clone(), alloca))),
                        );
                        assert(ctxt@.ops =~= q.ops + seq![
                            sopa(OpKind::Param, seq![function as nat, i as nat]),
                            sop(OpKind::Alloca, ps[i as int].0, seq![], 0, seq![pts[i as int]]),
                            sopa(OpKind::Store, seq![q.ops.len(), (q.ops.len() + 1) as nat]),
                        ]);
                        i = i + 1;
                    }
                },
                None => {
                    assert(params_prologue(s3, function as nat, ps, pts, 0) == s3);
                },
            }
            assert(params_prologue(ctxt@, function as nat, ps, pts, ps.len() as int) == ctxt@);
            let ghost scope_open = push_sym(
                emit(
                    push_sym(
                        emits(
                            st0,
                            seq![
                                sop(OpKind::AddFunction, name@, seq![], 0, seq![ret_ty] + pts),
                                sopn(OpKind::AppendBlock, "entry"@, seq![function as nat]),
                            ],
                        ),
                        name@,
                        Some(SSym::Func(name@, function as nat)),
                    ),
                    sopa(OpKind::PositionAtEnd, seq![(function + 1) as nat]),
                ),
                marker(),
                None,
            );
            assert(s3.ops == scope_open.ops);
            assert(s3.syms == scope_open.syms);
            assert(s3 == scope_open);
            assert(ctxt@ == params_prologue(scope_open, function as nat, ps, pts, 0));
            assert(st0 == old(ctxt)@);
            assert(function == st0.ops.len());
            proof {
                assert(decreases_to!(*d => *body));
            }
            let value_ref = match expr_codegen(&*body.ptr, ctxt) {
                Ok(v) => v,
                Err(m) => {
                    return Err(m);
                },
            };
            if *ty == TType::TVoid {
                ctxt.op0(OpKind::RetVoid);
            } else {
                ctxt.opa1(OpKind::Ret, value_ref);
            }
            //pop all local symbols belonging to the current function
            ctxt.pop_scope();
            Ok(())
        },
        Decl::VarDec(name, ty, rhs) => {
            let ret_ty = match get_llvm_type_for_ttype(ty) {
                Some(t) => t,
                None => {
                    proof {
                        assert(false);
                    }
                    return Err(String::new());
                },
            };
            let alloca = ctxt.alloca(name.as_str(), ret_ty);
            let rhs_value_ref = match expr_codegen(&*rhs.ptr, ctxt) {
                Ok(v) => v,
                Err(m) => {
                    return Err(m);
                },
            };
            ctxt.opa2(OpKind::Store, rhs_value_ref, alloca);
            ctxt.push_sym(
                name.clone(),
                Some(SymbolInfo::Var(Var::new(name.clone(), ty.clone(), alloca))),
            );
            Ok(())
        },
        _ => {
            // "More decl types should be covered"
            proof {
                assert(false);
            }
            Err(String::new())
        },
    }
}

/// The types of the parameters are the ones mapped from their declared types.
pub open spec fn type_args_ok(ps: Seq<(Seq<char>, SType)>, pts: Seq<LlvmTy>) -> bool {
    forall|j: int| 0 <= j < ps.len() ==> llvm_ty(#[trigger] ps[j].1) == Some(pts[j])
}

proof fn lemma_param_tys_prefix(ps: Seq<(Seq<char>, SType)>, n: int)
    requires
        0 <= n <= ps.len(),
        param_tys(ps) is Some,
    ensures
        param_tys(ps.take(n)) is Some,
        n > 0 ==> llvm_ty(ps[n - 1].1) is Some,
    decreases ps.len(),
{
    if n < ps.len() {
        assert(ps.drop_last().take(n) =~= ps.take(n));
        lemma_param_tys_prefix(ps.drop_last(), n);
        if n > 0 {
            assert(ps.drop_last()[n - 1] == ps[n - 1]);
        }
    } else {
        assert(ps.take(n) =~= ps);
    }
}

/// The pass that declares the built-in functions an expression calls, before its code is generated.
trait StdFunctionCodeBuilder {
    spec fn spec_std_fn(&self, st: CgState) -> Option<CgState>;

    fn std_fn_codegen(&self, ctxt: &mut Context)
        requires
            self.spec_std_fn(old(ctxt)@) is Some,
        ensures
            self.spec_std_fn(old(ctxt)@) == Some(final(ctxt)@),
    ;
}

impl StdFunctionCodeBuilder for Expr {
    spec fn spec_std_fn(&self, st: CgState) -> Option<CgState> {
        sfc(st, self@)
    }

    fn std_fn_codegen(&self, ctxt: &mut Context) {
        std_fn_pass(self, ctxt)
    }
}

/// Where `not` is already declared, the pass changes nothing, on every expression it covers.
proof fn lemma_pass_stable(st: CgState, t: CgState, e: SExpr)
    requires
        sfc(st, e) is Some,
        t.protos.contains("not"@),
    ensures
        sfc(t, e) == Some(t),
    decreases e, 1int, 0int,
{
    match e {
        SExpr::Add(a, b) | SExpr::Sub(a, b) | SExpr::Mul(a, b) | SExpr::Div(a, b)
        | SExpr::LessThan(a, b) | SExpr::GreaterThan(a, b) | SExpr::Equals(a, b) => {
            lemma_pass_stable(st, t, *a);
            lemma_pass_stable(sfc(st, *a)->0, t, *b);
        },
        SExpr::IfThenElse(c, x, y) => {
            lemma_pass_stable(st, t, *c);
            let s1 = sfc(st, *c)->0;
            lemma_pass_stable(s1, t, *x);
            lemma_pass_stable(sfc(s1, *x)->0, t, *y);
        },
        SExpr::For(_, f, x, b) => {
            lemma_pass_stable(st, t, *f);
            let s1 = sfc(st, *f)->0;
            lemma_pass_stable(s1, t, *x);
            lemma_pass_stable(sfc(s1, *x)->0, t, *b);
        },
        SExpr::Let(_, _) => {
            lemma_pass_stable_let(st, t, e, 0);
        },
        SExpr::Call(id, _) => {
            let s1 = if id == "not"@ && !st.protos.contains("not"@) {
                not_builder_spec(st)->0
            } else {
                st
            };
            lemma_pass_stable_args(s1, t, e, 0);
        },
        _ => {},
    }
}

proof fn lemma_pass_stable_args(st: CgState, t: CgState, e: SExpr, i: int)
    requires
        sfc_args(st, e, i) is Some,
        t.protos.contains("not"@),
    ensures
        sfc_args(t, e, i) == Some(t),
    decreases e, 0int, call_args(e).len() - i,
{
    if 0 <= i < call_args(e).len() {
        if let SExpr::Call(_, Some(v)) = e {
            assert(decreases_to!(v => v[i]));
            lemma_pass_stable(st, t, v[i].1);
            lemma_pass_stable_args(sfc(st, v[i].1)->0, t, e, i + 1);
        }
    }
}

proof fn lemma_pass_stable_let(st: CgState, t: CgState, e: SExpr, i: int)
    requires
        sfc_let(st, e, i) is Some,
        t.protos.contains("not"@),
    ensures
        sfc_let(t, e, i) == Some(t),
    decreases e, 0int, let_decls(e).len() - i,
{
    if 0 <= i < let_decls(e).len() {
        if let SExpr::Let(ds, body) = e {
            assert(decreases_to!(ds => ds[i]));
            let s1 = match ds[i] {
                SDecl::FunDec(_, _, _, b, _) => {
                    lemma_pass_stable(st, t, b);
                    sfc(st, b)->0
                },
                SDecl::VarDec(_, _, r) => {
                    lemma_pass_stable(st, t, r);
                    sfc(st, r)->0
                },
                SDecl::TypeDec(_, _) => st,
            };
            if let Some(b) = body {
                lemma_pass_stable(s1, t, *b);
                lemma_pass_stable_let(sfc(s1, *b)->0, t, e, i + 1);
            }
        }
    }
}

/// The pass either leaves the state as it was, or leaves `not` declared.
proof fn lemma_pass_declares(st: CgState, e: SExpr)
    ensures
        sfc(st, e) matches Some(s) ==> s == st || s.protos.contains("not"@),
    decreases e, 1int, 0int,
{
    match e {
        SExpr::Add(a, b) | SExpr::Sub(a, b) | SExpr::Mul(a, b) | SExpr::Div(a, b)
        | SExpr::LessThan(a, b) | SExpr::GreaterThan(a, b) | SExpr::Equals(a, b) => {
            lemma_pass_declares(st, *a);
            if let Some(s1) = sfc(st, *a) {
                lemma_pass_declares(s1, *b);
                lemma_pass_step(st, s1, *b);
            }
        },
        SExpr::IfThenElse(c, x, y) => {
            lemma_pass_declares(st, *c);
            if let Some(s1) = sfc(st, *c) {
                lemma_pass_declares(s1, *x);
                lemma_pass_step(st, s1, *x);
                if let Some(s2) = sfc(s1, *x) {
                    lemma_pass_declares(s2, *y);
                    lemma_pass_step(st, s2, *y);
                }
            }
        },
        SExpr::For(_, f, x, b) => {
            lemma_pass_declares(st, *f);
            if let Some(s1) = sfc(st, *f) {
                lemma_pass_declares(s1, *x);
                lemma_pass_step(st, s1, *x);
                if let Some(s2) = sfc(s1, *x) {
                    lemma_pass_declares(s2, *b);
                    lemma_pass_step(st, s2, *b);
                }
            }
        },
        SExpr::Let(_, _) => {
            lemma_pass_declares_let(st, e, 0);
        },
        SExpr::Call(id, _) => {
            if id == "not"@ && !st.protos.contains("not"@) {
                if let Some(s1) = not_builder_spec(st) {
                    assert(s1.protos.last() == "not"@);
                    assert(s1.protos.contains("not"@));
                    if sfc_args(s1, e, 0) is Some {
                        lemma_pass_stable_args(s1, s1, e, 0);
                    }
                }
            } else {
                lemma_pass_declares_args(st, e, 0);
            }
        },
        _ => {},
    }
}

/// One more step of the pass: from a state that is the start state or declares `not`, a step
/// that itself keeps its state or declares `not` ends in the start state or one that declares `not`.
proof fn lemma_pass_step(st: CgState, s1: CgState, e: SExpr)
    requires
        s1 == st || s1.protos.contains("not"@),
        sfc(s1, e) matches Some(s) ==> s == s1 || s.protos.contains("not"@),
    ensures
        sfc(s1, e) matches Some(s) ==> s == st || s.protos.contains("not"@),
{
    if s1 != st && sfc(s1, e) is Some {
        lemma_pass_stable(s1, s1, e);
    }
}

proof fn lemma_pass_declares_args(st: CgState, e: SExpr, i: int)
    ensures
        sfc_args(st, e, i) matches Some(s) ==> s == st || s.protos.contains("not"@),
    decreases e, 0int, call_args(e).len() - i,
{
    if 0 <= i < call_args(e).len() {
        if let SExpr::Call(_, Some(v)) = e {
            assert(decreases_to!(v => v[i]));
            lemma_pass_declares(st, v[i].1);
            if let Some(s1) = sfc(st, v[i].1) {
                lemma_pass_declares_args(s1, e, i + 1);
                if s1 != st && sfc_args(s1, e, i + 1) is Some {
                    lemma_pass_stable_args(s1, s1, e, i + 1);
                }
            }
        }
    }
}

proof fn lemma_pass_declares_let(st: CgState, e: SExpr, i: int)
    ensures
        sfc_let(st, e, i) matches Some(s) ==> s == st || s.protos.contains("not"@),
    decreases e, 0int, let_decls(e).len() - i,
{
    if 0 <= i < let_decls(e).len() {
        if let SExpr::Let(ds, body) = e {
            assert(decreases_to!(ds => ds[i]));
            let s1 = match ds[i] {
                SDecl::FunDec(_, _, _, b, _) => {
                    lemma_pass_declares(st, b);
                    sfc(st, b)
                },
                SDecl::VarDec(_, _, r) => {
                    lemma_pass_declares(st, r);
                    sfc(st, r)
                },
                SDecl::TypeDec(_, _) => Some(st),
            };
            if let (Some(s1), Some(b)) = (s1, body) {
                lemma_pass_declares(s1, *b);
                lemma_pass_step(st, s1, *b);
                if let Some(s2) = sfc(s1, *b) {
                    lemma_pass_declares_let(s2, e, i + 1);
                    if s2 != st && sfc_let(s2, e, i + 1) is Some {
                        lemma_pass_stable_let(s2, s2, e, i + 1);
                    }
                }
            }
        }
    }
}

/// The built-ins pass settles in one run: run again on the state it produced, it leaves that
/// state as it is. So `not` is defined at most once in a code state, however often the pass runs.
pub proof fn law_builtins_pass_settles(st: CgState, e: SExpr)
    requires
        sfc(st, e) is Some,
    ensures
        sfc(sfc(st, e)->0, e) == sfc(st, e),
{
    lemma_pass_declares(st, e);
    let s = sfc(st, e)->0;
    if s != st {
        lemma_pass_stable(st, s, e);
    }
}

fn std_fn_pass(e: &Expr, ctxt: &mut Context)
    requires
        sfc(old(ctxt)@, e@) is Some,
    ensures
        sfc(old(ctxt)@, e@) == Some(final(ctxt)@),
    decreases e, 1int, 0int,
{
    match e {
        Expr::NumExpr(_) | Expr::StringExpr(_) | Expr::IdExpr(_) => {},
        Expr::AddExpr(e1, e2) | Expr::SubExpr(e1, e2) | Expr::MulExpr(e1, e2) | Expr::DivExpr(e1, e2)
        | Expr::LessThanExpr(e1, e2) | Expr::GreaterThanExpr(e1, e2) | Expr::EqualsExpr(e1, e2) => {
            std_fn_pass(&*e1.ptr, ctxt);
            std_fn_pass(&*e2.ptr, ctxt);
        },
        Expr::IfThenElseExpr(cond_expr, then_expr, else_expr) => {
            std_fn_pass(&*cond_expr.ptr, ctxt);
            std_fn_pass(&*then_expr.ptr, ctxt);
            std_fn_pass(&*else_expr.ptr, ctxt);
        },
        Expr::ForExpr(_, from, to, do_expr) => {
            std_fn_pass(&*from.ptr, ctxt);
            std_fn_pass(&*to.ptr, ctxt);
            std_fn_pass(&*do_expr.ptr, ctxt);
        },
        Expr::LetExpr(_, _) => std_fn_pass_let(e, ctxt),
        Expr::CallExpr(_, _) => std_fn_pass_call(e, ctxt),
        _ => {
            // "Expression not covered yet for intrinsic code generation"
            proof {
                assert(false);
            }
        },
    }
}

/// The pass over a let-expression: for each declaration, its expression and then the body.
fn std_fn_pass_let(e: &Expr, ctxt: &mut Context)
    requires
        e is LetExpr,
        sfc_let(old(ctxt)@, e@, 0) is Some,
    ensures
        sfc_let(old(ctxt)@, e@, 0) == Some(final(ctxt)@),
    decreases e, 0int, 0int,
{
    proof {
        lemma_let_view(*e);
    }
    match e {
        Expr::LetExpr(decls, body) => {
            let ghost st0 = ctxt@;
            let mut i: usize = 0;
            while i < decls.len()
                invariant
                    i <= decls@.len(),
                    let_decls(e@) == decls_v(decls@),
                    *e == Expr::LetExpr(*decls, *body),
                    e@ == SExpr::Let(
                        decls_v(decls@),
                        match *body {
                            Some(b) => Some(bx(expr_v(*b.ptr))),
                            None => None,
                        },
                    ),
                    sfc_let(st0, e@, 0) == sfc_let(ctxt@, e@, i as int),
                    sfc_let(st0, e@, 0) is Some,
                decreases decls@.len() - i,
            {
                proof {
                    assert(decreases_to!(*e => *decls));
                    assert(decreases_to!(*decls => decls@));
                    assert(decreases_to!(decls@ => decls@[i as int]));
                    assert(decreases_to!(*e => *body));
                }
                match &decls[i] {
                    Decl::FunDec(_, _, _, b, _) => {
                        std_fn_pass(&*b.ptr, ctxt);
                    },
                    Decl::VarDec(_, _, rhs) => {
                        std_fn_pass(&*rhs.ptr, ctxt);
                    },
                    _ => {},
                }
                match body {
                    Some(b) => {
                        std_fn_pass(&*b.ptr, ctxt);
                    },
                    None => {
                        proof {
                            assert(false);
                        }
                    },
                }
                i = i + 1;
            }
        },
        _ => {},
    }
}

/// The pass over a call: the definition of `not` at its first call, then the arguments.
fn std_fn_pass_call(e: &Expr, ctxt: &mut Context)
    requires
        e is CallExpr,
        sfc(old(ctxt)@, e@) is Some,
    ensures
        sfc(old(ctxt)@, e@) == Some(final(ctxt)@),
    decreases e, 0int, 0int,
{
    proof {
        lemma_call_view(*e);
    }
    match e {
        Expr::CallExpr(id, optional_ty_expr_args) => {
            let not_s = "not".to_owned();
            if *id == not_s {
                if !ctxt.has_proto("not") {
                    not_builder(ctxt);
                }
            }
            match optional_ty_expr_args {
                Some(lst) => {
                    let ghost st1 = ctxt@;
                    let mut i: usize = 0;
                    while i < lst.len()
                        invariant
                            i <= lst@.len(),
                            e@ == call_v(id@, *optional_ty_expr_args),
                            *e == Expr::CallExpr(*id, *optional_ty_expr_args),
                            *optional_ty_expr_args == Some(*lst),
                            sfc_args(st1, e@, 0) == sfc_args(ctxt@, e@, i as int),
                            sfc_args(st1, e@, 0) is Some,
                        decreases lst@.len() - i,
                    {
                        proof {
                            assert(decreases_to!(*e => *optional_ty_expr_args));
                            assert(decreases_to!(*optional_ty_expr_args => *lst));
                            assert(decreases_to!(*lst => lst@));
                            assert(decreases_to!(lst@ => lst@[i as int]));
                            assert(decreases_to!(lst@[i as int] => lst@[i as int].1));
                        }
                        assert(targs_v(lst@)[i as int].1 == (*lst@[i as int].1.ptr)@);
                        std_fn_pass(&*lst[i].1.ptr, ctxt);
                        i = i + 1;
                    }
                    assert(sfc_args(ctxt@, e@, i as int) == Some(ctxt@));
                },
                None => {
                    assert(sfc_args(ctxt@, e@, 0) == Some(ctxt@));
                },
            }
        },
        _ => {},
    }
}

/// Defines the built-in `not` in the module: 1 where its argument is 0, else 0.
fn not_builder(ctxt: &mut Context)
    requires
        not_builder_spec(old(ctxt)@) is Some,
    ensures
        not_builder_spec(old(ctxt)@) == Some(final(ctxt)@),
{
    let ghost st0 = ctxt@;
    let not_function = ctxt.op_tys(OpKind::AddFunction, "not", 0, tys2(LlvmTy::I32, LlvmTy::I32));
    let bb = ctxt.opn1(OpKind::AppendBlock, "entry", not_function);
    let func = Function::new("not".to_owned(), not_function);
    // The builtin is bound in the current scope.
    ctxt.push_sym("not".to_owned(), Some(SymbolInfo::Function(func)));
    let ghost s2 = ctxt@;
    assert(s2.ops =~= st0.ops + seq![
        sop(OpKind::AddFunction, "not"@, seq![], 0, seq![LlvmTy::I32, LlvmTy::I32]),
        sopn(OpKind::AppendBlock, "entry"@, seq![not_function as nat]),
    ]);
    ctxt.opa1(OpKind::PositionAtEnd, bb);
    //build allocas for params
    let param = ctxt.opa2(OpKind::Param, not_function, 0);
    let alloca = ctxt.alloca("a", LlvmTy::I32);
    ctxt.opa2(OpKind::Store, param, alloca);
    assert(ctxt@.ops =~= s2.ops + seq![
        sopa(OpKind::PositionAtEnd, seq![(not_function + 1) as nat]),
        sopa(OpKind::Param, seq![not_function as nat, 0]),
        sop(OpKind::Alloca, "a"@, seq![], 0, seq![LlvmTy::I32]),
        sopa(OpKind::Store, seq![(not_function + 3) as nat, (not_function + 4) as nat]),
    ]);
    ctxt.push_sym(
        "a".to_owned(),
        Some(SymbolInfo::Var(Var::new("a".to_owned(), TType::TInt32, alloca))),
    );
    let id_a = Expr::IdExpr("a".to_owned());
    assert(id_a@ == SExpr::Id("a"@));
    let zero = Expr::NumExpr(0);
    assert(zero@ == SExpr::Num(0));
    let cond = Expr::EqualsExpr(B(id_a), B(zero));
    assert(cond@ == SExpr::Equals(bx(SExpr::Id("a"@)), bx(SExpr::Num(0))));
    let one = Expr::NumExpr(1);
    assert(one@ == SExpr::Num(1));
    let other = Expr::NumExpr(0);
    assert(other@ == SExpr::Num(0));
    let body = Expr::IfThenElseExpr(B(cond), B(one), B(other));
    assert(body@ == not_body());
    let value_ref = match expr_codegen(&body, ctxt) {
        Ok(v_ref) => v_ref,
        Err(_) => {
            // "Error generating code for the body - {0}"
            proof {
                assert(false);
            }
            0
        },
    };
    ctxt.opa1(OpKind::Ret, value_ref);
    let ghost before = ctxt.sym_tab@;
    let _ = ctxt.sym_tab.pop();
    assert(before.len() > 0 ==> syms_v(ctxt.sym_tab@) =~= syms_v(before).drop_last());
    assert(before.len() == 0 ==> syms_v(ctxt.sym_tab@) =~= syms_v(before));
    ctxt.add_proto("not");
}

/// Compiles an expression into the instructions of a module: the built-ins it calls, then a `main` function that
/// evaluates it and returns 0.
pub fn translate(expr: &Expr) -> (r: Option<Context>)
    requires
        translate_spec(expr@) is Some,
    ensures
        r is Some,
        r->0@ == translate_spec(expr@)->0,
{
    let mut ctxt = Context::new("main_mod");
    expr.std_fn_codegen(&mut ctxt);
    //build outer embedding main() fn
    let ghost s1 = ctxt@;
    let function = ctxt.op_tys(OpKind::AddFunction, "main", 0, tys1(LlvmTy::I32));
    let bb = ctxt.opn1(OpKind::AppendBlock, "entry", function);
    ctxt.opa1(OpKind::PositionAtEnd, bb);
    ctxt.bb_stack.push(bb);
    assert(nats(ctxt.bb_stack@) =~= s1.bbs.push((function + 1) as nat));
    assert(ctxt@.ops =~= s1.ops + seq![
        sop(OpKind::AddFunction, "main"@, seq![], 0, seq![LlvmTy::I32]),
        sopn(OpKind::AppendBlock, "entry"@, seq![function as nat]),
        sopa(OpKind::PositionAtEnd, seq![(function + 1) as nat]),
    ]);
    trans_expr(expr, &mut ctxt);
    let ghost s3 = ctxt@;
    let z = ctxt.const_i32(0);
    ctxt.opa1(OpKind::Ret, z);
    assert(ctxt@.ops =~= s3.ops + seq![
        sop(OpKind::ConstI32, seq![], seq![], 0, seq![]),
        sopa(OpKind::Ret, seq![z as nat]),
    ]);
    Some(ctxt)
}

/// Generates the code of an expression whose code generation succeeds (an error panics).
fn trans_expr(expr: &Expr, ctxt: &mut Context)
    requires
        cg_expr(old(ctxt)@, expr@) matches Some((_, Ok(_))),
    ensures
        cg_expr(old(ctxt)@, expr@) matches Some((s, Ok(_))) && s == final(ctxt)@,
{
    let result = expr.codegen(ctxt);  //ctxt is already &mut
    match result {
        Ok(_) => {},
        Err(msg) => {
            proof {
                assert(false);
            }
        },
    }
}

} // verus!
