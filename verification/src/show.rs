use vstd::prelude::*;
use vstd::string::{StrSliceExecFns, StringExecFns};
use crate::ast::{
    Block, Decl, Expr, SBlock, SDecl, SExpr, SStmt, SType, Stmt, TType, pairs_v, expr_v, decl_v,
    block_v, stmt_v,
};
use crate::lexer::string_push;

verus! {

// ---------------------------------------------------------------------------------------------
// The text of a syntax tree, in the notation of `{:?}`: a variant's name and its fields in
// brackets, a struct's fields by name in braces, lists in square brackets, strings quoted.

/// A character inside a quoted string: quotes, backslashes and the control characters `\n`,
/// `\t`, `\r` and NUL are escaped with a backslash.
pub open spec fn esc_char(c: char) -> Seq<char> {
    if c == '"' {
        seq!['\\', '"']
    } else if c == '\\' {
        seq!['\\', '\\']
    } else if c == '\n' {
        seq!['\\', 'n']
    } else if c == '\t' {
        seq!['\\', 't']
    } else if c == '\r' {
        seq!['\\', 'r']
    } else if c == '\0' {
        seq!['\\', '0']
    } else {
        seq![c]
    }
}

pub open spec fn esc(s: Seq<char>) -> Seq<char>
    decreases s.len(),
{
    if s.len() == 0 {
        seq![]
    } else {
        esc(s.drop_last()) + esc_char(s.last())
    }
}

pub open spec fn quoted(s: Seq<char>) -> Seq<char> {
    seq!['"'] + esc(s) + seq!['"']
}

pub open spec fn dig(d: int) -> char {
    if d == 0 {
        '0'
    } else if d == 1 {
        '1'
    } else if d == 2 {
        '2'
    } else if d == 3 {
        '3'
    } else if d == 4 {
        '4'
    } else if d == 5 {
        '5'
    } else if d == 6 {
        '6'
    } else if d == 7 {
        '7'
    } else if d == 8 {
        '8'
    } else {
        '9'
    }
}

/// A natural number in decimal.
pub open spec fn nat_str(n: nat) -> Seq<char>
    decreases n,
{
    if n < 10 {
        seq![dig(n as int)]
    } else {
        nat_str(n / 10).push(dig((n % 10) as int))
    }
}

/// An integer in decimal, with a minus sign where it is negative.
pub open spec fn int_str(n: int) -> Seq<char> {
    if n < 0 {
        seq!['-'] + nat_str((-n) as nat)
    } else {
        nat_str(n as nat)
    }
}

/// Items separated by `, `.
pub open spec fn joined(items: Seq<Seq<char>>) -> Seq<char>
    decreases items.len(),
{
    if items.len() == 0 {
        seq![]
    } else if items.len() == 1 {
        items[0]
    } else {
        joined(items.drop_last()) + ", "@ + items.last()
    }
}

pub open spec fn bx_dbg(s: Seq<char>) -> Seq<char> {
    "B { ptr: "@ + s + " }"@
}

pub open spec fn ty_dbg(t: SType) -> Seq<char>
    decreases t,
{
    match t {
        SType::Int => "TInt32"@,
        SType::Str => "TString"@,
        SType::Array(b) => "TArray("@ + bx_dbg(ty_dbg(*b)) + ")"@,
        SType::Record => "TRecord"@,
        SType::Custom(s) => "TCustom("@ + quoted(s) + ")"@,
        SType::Nil => "TNil"@,
        SType::Void => "TVoid"@,
    }
}

pub open spec fn pair_dbg(p: (Seq<char>, SType)) -> Seq<char> {
    "("@ + quoted(p.0) + ", "@ + ty_dbg(p.1) + ")"@
}

pub open spec fn pairs_dbg(s: Seq<(Seq<char>, SType)>) -> Seq<char> {
    "["@ + joined(s.map_values(|p: (Seq<char>, SType)| pair_dbg(p))) + "]"@
}

pub open spec fn opt_pairs_dbg(o: Option<Seq<(Seq<char>, SType)>>) -> Seq<char> {
    match o {
        Some(s) => "Some("@ + pairs_dbg(s) + ")"@,
        None => "None"@,
    }
}

pub open spec fn strs_dbg(s: Seq<Seq<char>>) -> Seq<char> {
    "["@ + joined(s.map_values(|x: Seq<char>| quoted(x))) + "]"@
}

/// Two boxed operands of a variant called `name`.
pub open spec fn bin_dbg(name: Seq<char>, a: Seq<char>, b: Seq<char>) -> Seq<char> {
    name + "("@ + bx_dbg(a) + ", "@ + bx_dbg(b) + ")"@
}

pub open spec fn expr_dbg(e: SExpr) -> Seq<char>
    decreases e, 2int, 0int,
{
    match e {
        SExpr::Let(ds, body) => "LetExpr(["@ + decls_dbg(e, ds.len() as int) + "], "@ + (match body {
            Some(b) => "Some("@ + bx_dbg(expr_dbg(*b)) + ")"@,
            None => "None"@,
        }) + ")"@,
        SExpr::Id(s) => "IdExpr("@ + quoted(s) + ")"@,
        SExpr::Nil => "NilExpr"@,
        SExpr::Lit => "LitExpr"@,
        SExpr::Str(s) => "StringExpr("@ + quoted(s) + ")"@,
        SExpr::Brk => "BreakExpr"@,
        SExpr::Call(id, args) => "CallExpr("@ + quoted(id) + ", "@ + (match args {
            Some(v) => "Some(["@ + args_dbg(e, v.len() as int) + "])"@,
            None => "None"@,
        }) + ")"@,
        SExpr::Num(n) => "NumExpr("@ + int_str(n as int) + ")"@,
        SExpr::Sequence(o) => "SeqExpr("@ + (match o {
            Some(v) => "Some(["@ + items_dbg(e, v.len() as int) + "])"@,
            None => "None"@,
        }) + ")"@,
        SExpr::Ident(s) => "IdentExpr("@ + quoted(s) + ")"@,
        SExpr::Add(a, b) => bin_dbg("AddExpr"@, expr_dbg(*a), expr_dbg(*b)),
        SExpr::Sub(a, b) => bin_dbg("SubExpr"@, expr_dbg(*a), expr_dbg(*b)),
        SExpr::Mul(a, b) => bin_dbg("MulExpr"@, expr_dbg(*a), expr_dbg(*b)),
        SExpr::Div(a, b) => bin_dbg("DivExpr"@, expr_dbg(*a), expr_dbg(*b)),
        SExpr::Mod(a, b) => bin_dbg("ModExpr"@, expr_dbg(*a), expr_dbg(*b)),
        SExpr::Blk(b) => "BlockExpr("@ + bx_dbg(block_dbg(*b)) + ")"@,
        SExpr::IfThenElse(a, b, c) => "IfThenElseExpr("@ + bx_dbg(expr_dbg(*a)) + ", "@ + bx_dbg(
            expr_dbg(*b),
        ) + ", "@ + bx_dbg(expr_dbg(*c)) + ")"@,
        SExpr::IfThen(a, b) => bin_dbg("IfThenExpr"@, expr_dbg(*a), expr_dbg(*b)),
        SExpr::While(a, b) => bin_dbg("WhileExpr"@, expr_dbg(*a), expr_dbg(*b)),
        SExpr::Assign(s, a) => "AssignExpr("@ + quoted(s) + ", "@ + bx_dbg(expr_dbg(*a)) + ")"@,
        SExpr::Label(s) => "LabelExpr("@ + quoted(s) + ")"@,
        SExpr::Goto(s) => "GotoExpr("@ + quoted(s) + ")"@,
        SExpr::Equals(a, b) => bin_dbg("EqualsExpr"@, expr_dbg(*a), expr_dbg(*b)),
        SExpr::NotEquals(a, b) => bin_dbg("NotEqualsExpr"@, expr_dbg(*a), expr_dbg(*b)),
        SExpr::LessThan(a, b) => bin_dbg("LessThanExpr"@, expr_dbg(*a), expr_dbg(*b)),
        SExpr::GreaterThan(a, b) => bin_dbg("GreaterThanExpr"@, expr_dbg(*a), expr_dbg(*b)),
        SExpr::For(s, a, b, c) => "ForExpr("@ + quoted(s) + ", "@ + bx_dbg(expr_dbg(*a)) + ", "@
            + bx_dbg(expr_dbg(*b)) + ", "@ + bx_dbg(expr_dbg(*c)) + ")"@,
        SExpr::Array(t, a, b) => "ArrayExpr("@ + ty_dbg(t) + ", "@ + bx_dbg(expr_dbg(*a)) + ", "@
            + bx_dbg(expr_dbg(*b)) + ")"@,
        SExpr::Record(o) => "RecordExpr("@ + opt_pairs_dbg(o) + ")"@,
        SExpr::Field(a, b) => "FieldExpr("@ + quoted(a) + ", "@ + quoted(b) + ")"@,
        SExpr::Subscript(s, a) => "SubscriptExpr("@ + quoted(s) + ", "@ + bx_dbg(expr_dbg(*a))
            + ")"@,
    }
}

/// The first `k` declarations of a let-expression.
pub open spec fn decls_dbg(e: SExpr, k: int) -> Seq<char>
    decreases e, 1int, k,
{
    match e {
        SExpr::Let(ds, _) => if k <= 0 || k > ds.len() {
            seq![]
        } else {
            proof {
                assert(decreases_to!(ds => ds[k - 1]));
            }
            if k == 1 {
                decl_dbg(ds[k - 1])
            } else {
                decls_dbg(e, k - 1) + ", "@ + decl_dbg(ds[k - 1])
            }
        },
        _ => seq![],
    }
}

/// The first `k` arguments of a call, each with its type.
pub open spec fn args_dbg(e: SExpr, k: int) -> Seq<char>
    decreases e, 1int, k,
{
    match e {
        SExpr::Call(_, Some(v)) => if k <= 0 || k > v.len() {
            seq![]
        } else {
            proof {
                assert(decreases_to!(v => v[k - 1]));
            }
            let item = "("@ + ty_dbg(v[k - 1].0) + ", "@ + bx_dbg(expr_dbg(v[k - 1].1)) + ")"@;
            if k == 1 {
                item
            } else {
                args_dbg(e, k - 1) + ", "@ + item
            }
        },
        _ => seq![],
    }
}

/// The first `k` expressions of a sequence.
pub open spec fn items_dbg(e: SExpr, k: int) -> Seq<char>
    decreases e, 1int, k,
{
    match e {
        SExpr::Sequence(Some(v)) => if k <= 0 || k > v.len() {
            seq![]
        } else {
            proof {
                assert(decreases_to!(v => v[k - 1]));
            }
            let item = bx_dbg(expr_dbg(v[k - 1]));
            if k == 1 {
                item
            } else {
                items_dbg(e, k - 1) + ", "@ + item
            }
        },
        _ => seq![],
    }
}

pub open spec fn decl_dbg(d: SDecl) -> Seq<char>
    decreases d, 0int, 0int,
{
    match d {
        SDecl::TypeDec(s, t) => "TypeDec("@ + quoted(s) + ", "@ + ty_dbg(t) + ")"@,
        SDecl::VarDec(s, t, x) => "VarDec("@ + quoted(s) + ", "@ + ty_dbg(t) + ", "@ + bx_dbg(
            expr_dbg(x),
        ) + ")"@,
        SDecl::FunDec(s, ps, t, x, bt) => "FunDec("@ + quoted(s) + ", "@ + opt_pairs_dbg(ps) + ", "@
            + ty_dbg(t) + ", "@ + bx_dbg(expr_dbg(x)) + ", "@ + ty_dbg(bt) + ")"@,
    }
}

pub open spec fn block_dbg(b: SBlock) -> Seq<char>
    decreases b, 2int, 0int,
{
    "Block { sym_tab: SymTab { entries: "@ + pairs_dbg(b.syms) + " }, statements: ["@ + stmts_dbg(
        b,
        b.stmts.len() as int,
    ) + "], instructions: "@ + strs_dbg(b.instrs) + ", expr: "@ + (match b.expr {
        Some(x) => "Some("@ + bx_dbg(expr_dbg(x)) + ")"@,
        None => "None"@,
    }) + " }"@
}

/// The first `k` statements of a block, each boxed.
pub open spec fn stmts_dbg(b: SBlock, k: int) -> Seq<char>
    decreases b, 1int, k,
{
    if k <= 0 || k > b.stmts.len() {
        seq![]
    } else {
        proof {
            assert(decreases_to!(b => b.stmts));
            assert(decreases_to!(b.stmts => b.stmts[k - 1]));
        }
        if k == 1 {
            bx_dbg(stmt_dbg(b.stmts[k - 1]))
        } else {
            stmts_dbg(b, k - 1) + ", "@ + bx_dbg(stmt_dbg(b.stmts[k - 1]))
        }
    }
}

pub open spec fn stmt_dbg(s: SStmt) -> Seq<char>
    decreases s, 0int, 0int,
{
    match s {
        SStmt::VarDecl(id, t, x) => "VarDeclStmt(Local { ident: "@ + quoted(id) + ", ty: "@ + ty_dbg(t)
            + ", expr: "@ + bx_dbg(expr_dbg(x)) + " })"@,
        SStmt::ExprS(x) => "ExprStmt("@ + bx_dbg(expr_dbg(x)) + ")"@,
    }
}

// ---------------------------------------------------------------------------------------------
// Printing

fn push_esc_char(out: &mut String, c: char)
    ensures
        final(out)@ == old(out)@ + esc_char(c),
{
    let ghost o = out@;
    if c == '"' {
        string_push(out, '\\');
        string_push(out, '"');
    } else if c == '\\' {
        string_push(out, '\\');
        string_push(out, '\\');
    } else if c == '\n' {
        string_push(out, '\\');
        string_push(out, 'n');
    } else if c == '\t' {
        string_push(out, '\\');
        string_push(out, 't');
    } else if c == '\r' {
        string_push(out, '\\');
        string_push(out, 'r');
    } else if c == '\0' {
        string_push(out, '\\');
        string_push(out, '0');
    } else {
        string_push(out, c);
    }
    assert(out@ =~= o + esc_char(c));
}

/// Appends `s` in quotes, escaped.
fn push_quoted(out: &mut String, s: &str)
    ensures
        final(out)@ == old(out)@ + quoted(s@),
{
    let ghost o = out@;
    string_push(out, '"');
    let n = s.unicode_len();
    let mut i: usize = 0;
    assert(s@.take(0) =~= Seq::<char>::empty());
    while i < n
        invariant
            n == s@.len(),
            i <= n,
            out@ == o + seq!['"'] + esc(s@.take(i as int)),
        decreases n - i,
    {
        let c = s.get_char(i);
        push_esc_char(out, c);
        assert(s@.take(i + 1).drop_last() =~= s@.take(i as int));
        i = i + 1;
    }
    assert(s@.take(n as int) =~= s@);
    string_push(out, '"');
    assert(out@ =~= o + quoted(s@));
}

fn dig_char(d: u64) -> (c: char)
    requires
        d < 10,
    ensures
        c == dig(d as int),
{
    if d == 0 {
        '0'
    } else if d == 1 {
        '1'
    } else if d == 2 {
        '2'
    } else if d == 3 {
        '3'
    } else if d == 4 {
        '4'
    } else if d == 5 {
        '5'
    } else if d == 6 {
        '6'
    } else if d == 7 {
        '7'
    } else if d == 8 {
        '8'
    } else {
        '9'
    }
}

fn push_nat(out: &mut String, n: u64)
    ensures
        final(out)@ == old(out)@ + nat_str(n as nat),
    decreases n,
{
    let ghost o = out@;
    if n >= 10 {
        push_nat(out, n / 10);
    }
    string_push(out, dig_char(n % 10));
    assert(out@ =~= o + nat_str(n as nat));
}

fn push_int(out: &mut String, n: i32)
    ensures
        final(out)@ == old(out)@ + int_str(n as int),
{
    let ghost o = out@;
    if n < 0 {
        string_push(out, '-');
        let m: i64 = n as i64;
        push_nat(out, (0 - m) as u64);
    } else {
        push_nat(out, n as u64);
    }
    assert(out@ =~= o + int_str(n as int));
}

fn push_ty(out: &mut String, t: &TType)
    ensures
        final(out)@ == old(out)@ + ty_dbg(t@),
    decreases t,
{
    let ghost o = out@;
    match t {
        TType::TInt32 => out.append("TInt32"),
        TType::TString => out.append("TString"),
        TType::TArray(b) => {
            out.append("TArray(");
            out.append("B { ptr: ");
            push_ty(out, &b.ptr);
            out.append(" }");
            out.append(")");
        },
        TType::TRecord => out.append("TRecord"),
        TType::TCustom(s) => {
            out.append("TCustom(");
            push_quoted(out, s.as_str());
            out.append(")");
        },
        TType::TNil => out.append("TNil"),
        TType::TVoid => out.append("TVoid"),
    }
    assert(out@ =~= o + ty_dbg(t@));
}

/// `items.take(k + 1)` joined, from `items.take(k)` joined.
proof fn lemma_joined_step(items: Seq<Seq<char>>, k: int)
    requires
        0 <= k < items.len(),
    ensures
        joined(items.take(k + 1)) == if k == 0 {
            items[0]
        } else {
            joined(items.take(k)) + ", "@ + items[k]
        },
{
    assert(items.take(k + 1).drop_last() =~= items.take(k));
}

fn push_pairs(out: &mut String, v: &Vec<(String, TType)>)
    ensures
        final(out)@ == old(out)@ + pairs_dbg(pairs_v(*v)),
{
    let ghost o = out@;
    let ghost items = pairs_v(*v).map_values(|p: (Seq<char>, SType)| pair_dbg(p));
    out.append("[");
    let mut i: usize = 0;
    assert(items.take(0) =~= Seq::<Seq<char>>::empty());
    while i < v.len()
        invariant
            i <= v@.len(),
            items == pairs_v(*v).map_values(|p: (Seq<char>, SType)| pair_dbg(p)),
            out@ == o + "["@ + joined(items.take(i as int)),
        decreases v@.len() - i,
    {
        let ghost before = out@;
        if i > 0 {
            out.append(", ");
        }
        out.append("(");
        push_quoted(out, v[i].0.as_str());
        out.append(", ");
        push_ty(out, &v[i].1);
        out.append(")");
        proof {
            lemma_joined_step(items, i as int);
            assert(items[i as int] == pair_dbg(pairs_v(*v)[i as int]));
            if i > 0 {
                assert(out@ =~= before + ", "@ + items[i as int]);
            } else {
                assert(out@ =~= before + items[i as int]);
            }
        }
        i = i + 1;
    }
    assert(items.take(v@.len() as int) =~= items);
    out.append("]");
    assert(out@ =~= o + pairs_dbg(pairs_v(*v)));
}

fn push_strs(out: &mut String, v: &Vec<String>)
    ensures
        final(out)@ == old(out)@ + strs_dbg(Seq::new(v@.len(), |i: int| v@[i]@)),
{
    let ghost o = out@;
    let ghost sv = Seq::new(v@.len(), |i: int| v@[i]@);
    let ghost items = sv.map_values(|x: Seq<char>| quoted(x));
    out.append("[");
    let mut i: usize = 0;
    assert(items.take(0) =~= Seq::<Seq<char>>::empty());
    while i < v.len()
        invariant
            i <= v@.len(),
            sv == Seq::new(v@.len(), |i: int| v@[i]@),
            items == sv.map_values(|x: Seq<char>| quoted(x)),
            out@ == o + "["@ + joined(items.take(i as int)),
        decreases v@.len() - i,
    {
        let ghost before = out@;
        if i > 0 {
            out.append(", ");
        }
        push_quoted(out, v[i].as_str());
        proof {
            lemma_joined_step(items, i as int);
            if i > 0 {
                assert(out@ =~= before + ", "@ + items[i as int]);
            } else {
                assert(out@ =~= before + items[i as int]);
            }
        }
        i = i + 1;
    }
    assert(items.take(v@.len() as int) =~= items);
    out.append("]");
    assert(out@ =~= o + strs_dbg(sv));
}

fn push_opt_pairs(out: &mut String, o: &Option<Vec<(String, TType)>>)
    ensures
        final(out)@ == old(out)@ + opt_pairs_dbg(crate::ast::opt_pairs_v(*o)),
{
    let ghost start = out@;
    match o {
        Some(v) => {
            out.append("Some(");
            push_pairs(out, v);
            out.append(")");
        },
        None => out.append("None"),
    }
    assert(out@ =~= start + opt_pairs_dbg(crate::ast::opt_pairs_v(*o)));
}

/// Appends a boxed expression.
fn show_bx(b: &crate::ptr::B<Expr>, out: &mut String)
    ensures
        final(out)@ == old(out)@ + bx_dbg(expr_dbg(expr_v(*b.ptr))),
    decreases b, 1int,
{
    let ghost o = out@;
    out.append("B { ptr: ");
    show_expr(&b.ptr, out);
    out.append(" }");
    assert(out@ =~= o + bx_dbg(expr_dbg(expr_v(*b.ptr))));
}

/// Appends the text of an expression.
fn show_expr(e: &Expr, out: &mut String)
    ensures
        final(out)@ == old(out)@ + expr_dbg(e@),
    decreases e, 2int,
{
    match e {
        Expr::LetExpr(_, _) => show_let(e, out),
        Expr::CallExpr(_, _) => show_call(e, out),
        Expr::SeqExpr(_) => show_seq(e, out),
        Expr::IdExpr(_) => show_leaf(e, out),
        Expr::NilExpr => show_leaf(e, out),
        Expr::LitExpr => show_leaf(e, out),
        Expr::StringExpr(_) => show_leaf(e, out),
        Expr::BreakExpr => show_leaf(e, out),
        Expr::NumExpr(_) => show_leaf(e, out),
        Expr::IdentExpr(_) => show_leaf(e, out),
        Expr::LabelExpr(_) => show_leaf(e, out),
        Expr::GotoExpr(_) => show_leaf(e, out),
        Expr::FieldExpr(_, _) => show_leaf(e, out),
        Expr::RecordExpr(_) => show_leaf(e, out),
        Expr::AddExpr(_, _) => show_sum(e, out),
        Expr::SubExpr(_, _) => show_sum(e, out),
        Expr::MulExpr(_, _) => show_sum(e, out),
        Expr::DivExpr(_, _) => show_quot(e, out),
        Expr::ModExpr(_, _) => show_quot(e, out),
        Expr::IfThenExpr(_, _) => show_cond(e, out),
        Expr::WhileExpr(_, _) => show_cond(e, out),
        Expr::EqualsExpr(_, _) => show_cond(e, out),
        Expr::NotEqualsExpr(_, _) => show_order(e, out),
        Expr::LessThanExpr(_, _) => show_order(e, out),
        Expr::GreaterThanExpr(_, _) => show_order(e, out),
        Expr::BlockExpr(_) => show_nested(e, out),
        Expr::IfThenElseExpr(_, _, _) => show_nested(e, out),
        Expr::AssignExpr(_, _) => show_nested(e, out),
        Expr::ForExpr(_, _, _, _) => show_for_like(e, out),
        Expr::ArrayExpr(_, _, _) => show_for_like(e, out),
        Expr::SubscriptExpr(_, _) => show_for_like(e, out),
    }
}

#[verifier::loop_isolation(false)]
fn show_let(e: &Expr, out: &mut String)
    requires
        e is LetExpr,
    ensures
        final(out)@ == old(out)@ + expr_dbg(e@),
    decreases e, 1int,
{
    let ghost o = out@;
    match e {
        Expr::LetExpr(ds, body) => {
            out.append("LetExpr([");
            let ghost start = out@;
            let mut i: usize = 0;
            while i < ds.len()
                invariant
                    i <= ds@.len(),
                    out@ == start + decls_dbg(e@, i as int),
                decreases ds@.len() - i,
            {
                let ghost before = out@;
                if i > 0 {
                    out.append(", ");
                }
                proof {
                    assert(decreases_to!(ds => ds@));
                    assert(decreases_to!(ds@ => ds@[i as int]));
                }
                show_decl(&ds[i], out);
                proof {
                    if i > 0 {
                        assert(out@ =~= before + ", "@ + decl_dbg(decl_v(ds@[i as int])));
                    } else {
                        assert(out@ =~= before + decl_dbg(decl_v(ds@[i as int])));
                    }
                }
                i = i + 1;
            }
            out.append("], ");
            match body {
                Some(b) => {
                    out.append("Some(");
                    show_bx(b, out);
                    out.append(")");
                },
                None => out.append("None"),
            }
            out.append(")");
        },
        _ => {
            proof {
                assert(false);
            }
        },
    }
    assert(out@ =~= o + expr_dbg(e@));
}

#[verifier::loop_isolation(false)]
fn show_call(e: &Expr, out: &mut String)
    requires
        e is CallExpr,
    ensures
        final(out)@ == old(out)@ + expr_dbg(e@),
    decreases e, 1int,
{
    let ghost o = out@;
    match e {
        Expr::CallExpr(id, args) => {
            out.append("CallExpr(");
            push_quoted(out, id.as_str());
            out.append(", ");
            match args {
                Some(v) => {
                    out.append("Some([");
                    let ghost start = out@;
                    let mut i: usize = 0;
                    while i < v.len()
                        invariant
                            i <= v@.len(),
                            out@ == start + args_dbg(e@, i as int),
                        decreases v@.len() - i,
                    {
                        let ghost before = out@;
                        if i > 0 {
                            out.append(", ");
                        }
                        proof {
                            assert(decreases_to!(v => v@));
                            assert(decreases_to!(v@ => v@[i as int]));
                        }
                        out.append("(");
                        push_ty(out, &v[i].0);
                        out.append(", ");
                        show_bx(&v[i].1, out);
                        out.append(")");
                        proof {
                            let item = "("@ + ty_dbg(v@[i as int].0@) + ", "@ + bx_dbg(
                                expr_dbg(expr_v(*v@[i as int].1.ptr)),
                            ) + ")"@;
                            if i > 0 {
                                assert(out@ =~= before + ", "@ + item);
                            } else {
                                assert(out@ =~= before + item);
                            }
                        }
                        i = i + 1;
                    }
                    out.append("])");
                },
                None => out.append("None"),
            }
            out.append(")");
        },
        _ => {
            proof {
                assert(false);
            }
        },
    }
    assert(out@ =~= o + expr_dbg(e@));
}

#[verifier::loop_isolation(false)]
fn show_seq(e: &Expr, out: &mut String)
    requires
        e is SeqExpr,
    ensures
        final(out)@ == old(out)@ + expr_dbg(e@),
    decreases e, 1int,
{
    let ghost o = out@;
    match e {
        Expr::SeqExpr(o2) => {
            out.append("SeqExpr(");
            match o2 {
                Some(v) => {
                    out.append("Some([");
                    let ghost start = out@;
                    let mut i: usize = 0;
                    while i < v.len()
                        invariant
                            i <= v@.len(),
                            out@ == start + items_dbg(e@, i as int),
                        decreases v@.len() - i,
                    {
                        let ghost before = out@;
                        if i > 0 {
                            out.append(", ");
                        }
                        proof {
                            assert(decreases_to!(v => v@));
                            assert(decreases_to!(v@ => v@[i as int]));
                        }
                        show_bx(&v[i], out);
                        proof {
                            let item = bx_dbg(expr_dbg(expr_v(*v@[i as int].ptr)));
                            if i > 0 {
                                assert(out@ =~= before + ", "@ + item);
                            } else {
                                assert(out@ =~= before + item);
                            }
                        }
                        i = i + 1;
                    }
                    out.append("])");
                },
                None => out.append("None"),
            }
            out.append(")");
        },
        _ => {
            proof {
                assert(false);
            }
        },
    }
    assert(out@ =~= o + expr_dbg(e@));
}

fn show_leaf(e: &Expr, out: &mut String)
    requires
        e is IdExpr || e is NilExpr || e is LitExpr || e is StringExpr || e is BreakExpr || e is NumExpr || e is IdentExpr || e is LabelExpr || e is GotoExpr || e is FieldExpr || e is RecordExpr,
    ensures
        final(out)@ == old(out)@ + expr_dbg(e@),
    decreases e, 1int,
{
    let ghost o = out@;
    match e {
        Expr::IdExpr(s) => {
            out.append("IdExpr(");
            push_quoted(out, s.as_str());
            out.append(")");
        },
        Expr::NilExpr => out.append("NilExpr"),
        Expr::LitExpr => out.append("LitExpr"),
        Expr::StringExpr(s) => {
            out.append("StringExpr(");
            push_quoted(out, s.as_str());
            out.append(")");
        },
        Expr::BreakExpr => out.append("BreakExpr"),
        Expr::NumExpr(n) => {
            out.append("NumExpr(");
            push_int(out, *n);
            out.append(")");
        },
        Expr::IdentExpr(s) => {
            out.append("IdentExpr(");
            push_quoted(out, s.as_str());
            out.append(")");
        },
        Expr::LabelExpr(s) => {
            out.append("LabelExpr(");
            push_quoted(out, s.as_str());
            out.append(")");
        },
        Expr::GotoExpr(s) => {
            out.append("GotoExpr(");
            push_quoted(out, s.as_str());
            out.append(")");
        },
        Expr::FieldExpr(a, b) => {
            out.append("FieldExpr(");
            push_quoted(out, a.as_str());
            out.append(", ");
            push_quoted(out, b.as_str());
            out.append(")");
        },
        Expr::RecordExpr(o2) => {
            out.append("RecordExpr(");
            push_opt_pairs(out, o2);
            out.append(")");
        },
        _ => {
            proof {
                assert(false);
            }
        },
    }
    assert(out@ =~= o + expr_dbg(e@));
}

#[verifier::spinoff_prover]
fn show_sum(e: &Expr, out: &mut String)
    requires
        e is AddExpr || e is SubExpr || e is MulExpr,
    ensures
        final(out)@ == old(out)@ + expr_dbg(e@),
    decreases e, 1int,
{
    let ghost o = out@;
    match e {
        Expr::AddExpr(a, b) => {
            out.append("AddExpr");
            out.append("(");
            show_bx(a, out);
            out.append(", ");
            show_bx(b, out);
            out.append(")");
            assert(out@ =~= o + expr_dbg(e@));
        },
        Expr::SubExpr(a, b) => {
            out.append("SubExpr");
            out.append("(");
            show_bx(a, out);
            out.append(", ");
            show_bx(b, out);
            out.append(")");
            assert(out@ =~= o + expr_dbg(e@));
        },
        Expr::MulExpr(a, b) => {
            out.append("MulExpr");
            out.append("(");
            show_bx(a, out);
            out.append(", ");
            show_bx(b, out);
            out.append(")");
            assert(out@ =~= o + expr_dbg(e@));
        },
        _ => {
            proof {
                assert(false);
            }
        },
    }
}
#[verifier::spinoff_prover]
fn show_quot(e: &Expr, out: &mut String)
    requires
        e is DivExpr || e is ModExpr,
    ensures
        final(out)@ == old(out)@ + expr_dbg(e@),
    decreases e, 1int,
{
    let ghost o = out@;
    match e {
        Expr::DivExpr(a, b) => {
            out.append("DivExpr");
            out.append("(");
            show_bx(a, out);
            out.append(", ");
            show_bx(b, out);
            out.append(")");
            assert(out@ =~= o + expr_dbg(e@));
        },
        Expr::ModExpr(a, b) => {
            out.append("ModExpr");
            out.append("(");
            show_bx(a, out);
            out.append(", ");
            show_bx(b, out);
            out.append(")");
            assert(out@ =~= o + expr_dbg(e@));
        },
        _ => {
            proof {
                assert(false);
            }
        },
    }
}
#[verifier::spinoff_prover]
fn show_cond(e: &Expr, out: &mut String)
    requires
        e is IfThenExpr || e is WhileExpr || e is EqualsExpr,
    ensures
        final(out)@ == old(out)@ + expr_dbg(e@),
    decreases e, 1int,
{
    let ghost o = out@;
    match e {
        Expr::IfThenExpr(a, b) => {
            out.append("IfThenExpr");
            out.append("(");
            show_bx(a, out);
            out.append(", ");
            show_bx(b, out);
            out.append(")");
            assert(out@ =~= o + expr_dbg(e@));
        },
        Expr::WhileExpr(a, b) => {
            out.append("WhileExpr");
            out.append("(");
            show_bx(a, out);
            out.append(", ");
            show_bx(b, out);
            out.append(")");
            assert(out@ =~= o + expr_dbg(e@));
        },
        Expr::EqualsExpr(a, b) => {
            out.append("EqualsExpr");
            out.append("(");
            show_bx(a, out);
            out.append(", ");
            show_bx(b, out);
            out.append(")");
            assert(out@ =~= o + expr_dbg(e@));
        },
        _ => {
            proof {
                assert(false);
            }
        },
    }
}
#[verifier::spinoff_prover]
fn show_order(e: &Expr, out: &mut String)
    requires
        e is NotEqualsExpr || e is LessThanExpr || e is GreaterThanExpr,
    ensures
        final(out)@ == old(out)@ + expr_dbg(e@),
    decreases e, 1int,
{
    let ghost o = out@;
    match e {
        Expr::NotEqualsExpr(a, b) => {
            out.append("NotEqualsExpr");
            out.append("(");
            show_bx(a, out);
            out.append(", ");
            show_bx(b, out);
            out.append(")");
            assert(out@ =~= o + expr_dbg(e@));
        },
        Expr::LessThanExpr(a, b) => {
            out.append("LessThanExpr");
            out.append("(");
            show_bx(a, out);
            out.append(", ");
            show_bx(b, out);
            out.append(")");
            assert(out@ =~= o + expr_dbg(e@));
        },
        Expr::GreaterThanExpr(a, b) => {
            out.append("GreaterThanExpr");
            out.append("(");
            show_bx(a, out);
            out.append(", ");
            show_bx(b, out);
            out.append(")");
            assert(out@ =~= o + expr_dbg(e@));
        },
        _ => {
            proof {
                assert(false);
            }
        },
    }
}

fn show_nested(e: &Expr, out: &mut String)
    requires
        e is BlockExpr || e is IfThenElseExpr || e is AssignExpr,
    ensures
        final(out)@ == old(out)@ + expr_dbg(e@),
    decreases e, 1int,
{
    let ghost o = out@;
    match e {
        Expr::BlockExpr(b) => {
            out.append("BlockExpr(");
            out.append("B { ptr: ");
            show_block(&b.ptr, out);
            out.append(" }");
            out.append(")");
            assert(out@ =~= o + expr_dbg(e@));
        },
        Expr::IfThenElseExpr(a, b, c) => {
            out.append("IfThenElseExpr(");
            show_bx(a, out);
            out.append(", ");
            show_bx(b, out);
            out.append(", ");
            show_bx(c, out);
            out.append(")");
            assert(out@ =~= o + expr_dbg(e@));
        },
        Expr::AssignExpr(s, a) => {
            out.append("AssignExpr(");
            push_quoted(out, s.as_str());
            out.append(", ");
            show_bx(a, out);
            out.append(")");
            assert(out@ =~= o + expr_dbg(e@));
        },
        _ => {
            proof {
                assert(false);
            }
        },
    }
}
fn show_for_like(e: &Expr, out: &mut String)
    requires
        e is ForExpr || e is ArrayExpr || e is SubscriptExpr,
    ensures
        final(out)@ == old(out)@ + expr_dbg(e@),
    decreases e, 1int,
{
    let ghost o = out@;
    match e {
        Expr::ForExpr(s, a, b, c) => {
            out.append("ForExpr(");
            push_quoted(out, s.as_str());
            out.append(", ");
            show_bx(a, out);
            out.append(", ");
            show_bx(b, out);
            out.append(", ");
            show_bx(c, out);
            out.append(")");
            assert(out@ =~= o + expr_dbg(e@));
        },
        Expr::ArrayExpr(t, a, b) => {
            out.append("ArrayExpr(");
            push_ty(out, t);
            out.append(", ");
            show_bx(a, out);
            out.append(", ");
            show_bx(b, out);
            out.append(")");
            assert(out@ =~= o + expr_dbg(e@));
        },
        Expr::SubscriptExpr(s, a) => {
            out.append("SubscriptExpr(");
            push_quoted(out, s.as_str());
            out.append(", ");
            show_bx(a, out);
            out.append(")");
            assert(out@ =~= o + expr_dbg(e@));
        },
        _ => {
            proof {
                assert(false);
            }
        },
    }
}

/// Appends the text of a declaration.
fn show_decl(d: &Decl, out: &mut String)
    ensures
        final(out)@ == old(out)@ + decl_dbg(d@),
    decreases d, 0int,
{
    let ghost o = out@;
    match d {
        Decl::TypeDec(s, t) => {
            out.append("TypeDec(");
            push_quoted(out, s.as_str());
            out.append(", ");
            push_ty(out, t);
            out.append(")");
        },
        Decl::VarDec(s, t, x) => {
            out.append("VarDec(");
            push_quoted(out, s.as_str());
            out.append(", ");
            push_ty(out, t);
            out.append(", ");
            show_bx(x, out);
            out.append(")");
        },
        Decl::FunDec(s, ps, t, x, bt) => {
            out.append("FunDec(");
            push_quoted(out, s.as_str());
            out.append(", ");
            push_opt_pairs(out, ps);
            out.append(", ");
            push_ty(out, t);
            out.append(", ");
            show_bx(x, out);
            out.append(", ");
            push_ty(out, bt);
            out.append(")");
        },
    }
    assert(out@ =~= o + decl_dbg(d@));
}

/// Appends the text of a block.
fn show_block(b: &Block, out: &mut String)
    ensures
        final(out)@ == old(out)@ + block_dbg(b@),
    decreases b, 2int,
{
    let ghost o = out@;
    out.append("Block { sym_tab: SymTab { entries: ");
    let entries = b.sym_tab.entries();
    push_pairs(out, entries);
    proof {
        assert(pairs_v(*entries) =~= b@.syms);
    }
    out.append(" }, statements: [");
    show_stmts(b, out);
    out.append("], instructions: ");
    push_strs(out, &b.instructions);
    out.append(", expr: ");
    match &b.expr {
        Some(x) => {
            out.append("Some(");
            show_bx(x, out);
            out.append(")");
        },
        None => out.append("None"),
    }
    out.append(" }");
    assert(out@ =~= o + block_dbg(b@));
}

/// Appends the statements of a block, separated by commas.
#[verifier::loop_isolation(false)]
fn show_stmts(b: &Block, out: &mut String)
    ensures
        final(out)@ == old(out)@ + stmts_dbg(b@, b@.stmts.len() as int),
    decreases b, 1int,
{
    let ghost start = out@;
    let mut i: usize = 0;
    while i < b.statements.len()
        invariant
            i <= b.statements@.len(),
            out@ == start + stmts_dbg(b@, i as int),
        decreases b.statements@.len() - i,
    {
        let ghost before = out@;
        if i > 0 {
            out.append(", ");
        }
        proof {
            assert(decreases_to!(b => b.statements));
            assert(decreases_to!(b.statements => b.statements@));
            assert(decreases_to!(b.statements@ => b.statements@[i as int]));
            assert(decreases_to!(b.statements@[i as int] => b.statements@[i as int].ptr));
        }
        out.append("B { ptr: ");
        show_stmt(&b.statements[i].ptr, out);
        out.append(" }");
        proof {
            let item = bx_dbg(stmt_dbg(stmt_v(*b.statements@[i as int].ptr)));
            if i > 0 {
                assert(out@ =~= before + ", "@ + item);
            } else {
                assert(out@ =~= before + item);
            }
        }
        i = i + 1;
    }
}

/// Appends the text of a statement.
fn show_stmt(s: &Stmt, out: &mut String)
    ensures
        final(out)@ == old(out)@ + stmt_dbg(stmt_v(*s)),
    decreases s, 0int,
{
    let ghost o = out@;
    match s {
        Stmt::VarDeclStmt(l) => {
            out.append("VarDeclStmt(Local { ident: ");
            push_quoted(out, l.ident.as_str());
            out.append(", ty: ");
            push_ty(out, &l.ty);
            out.append(", expr: ");
            show_bx(&l.expr, out);
            out.append(" })");
        },
        Stmt::ExprStmt(x) => {
            out.append("ExprStmt(");
            show_bx(x, out);
            out.append(")");
        },
    }
    assert(out@ =~= o + stmt_dbg(stmt_v(*s)));
}

impl Expr {
    /// The text of the expression, in the notation of `{:?}`.
    pub fn debug_string(&self) -> (s: String)
        ensures
            s@ == expr_dbg(self@),
    {
        let mut s = String::new();
        show_expr(self, &mut s);
        assert(s@ =~= expr_dbg(self@));
        s
    }
}

} // verus!
