use vstd::prelude::*;
use crate::ptr::{B, unbox};

verus! {

pub type OptionalExprList = Option<Vec<B<Expr>>>;

pub type OptionalExpr = Option<B<Expr>>;

pub type OptionalTypeExprTupleList = Option<Vec<(TType, B<Expr>)>>;

pub type OptionalParamInfoList = Option<Vec<(String, TType)>>;

pub type OptionalIdTypePairs = Option<Vec<(String, TType)>>;

/// The types of the language.
#[derive(Debug)]
pub enum TType {
    TInt32,
    TString,
    TArray(B<TType>),
    TRecord,
    TCustom(String),
    TNil,
    TVoid,
}

/// The mathematical model of a `TType`.
pub enum SType {
    Int,
    Str,
    Array(Box<SType>),
    Record,
    Custom(Seq<char>),
    Nil,
    Void,
}

pub open spec fn ty_v(t: TType) -> SType
    decreases t,
{
    match t {
        TType::TInt32 => SType::Int,
        TType::TString => SType::Str,
        TType::TArray(b) => SType::Array(Box::new(ty_v(*b.ptr))),
        TType::TRecord => SType::Record,
        TType::TCustom(s) => SType::Custom(s@),
        TType::TNil => SType::Nil,
        TType::TVoid => SType::Void,
    }
}

impl View for TType {
    type V = SType;

    open spec fn view(&self) -> SType {
        ty_v(*self)
    }
}

/// Compares two types by their models.
pub fn ttype_eq(a: &TType, b: &TType) -> (r: bool)
    ensures
        r == (a@ == b@),
    decreases a,
{
    match (a, b) {
        (TType::TInt32, TType::TInt32) => true,
        (TType::TString, TType::TString) => true,
        (TType::TArray(x), TType::TArray(y)) => ttype_eq(&x.ptr, &y.ptr),
        (TType::TRecord, TType::TRecord) => true,
        (TType::TCustom(x), TType::TCustom(y)) => *x == *y,
        (TType::TNil, TType::TNil) => true,
        (TType::TVoid, TType::TVoid) => true,
        _ => false,
    }
}

/// Copies a type.
pub fn ttype_clone(a: &TType) -> (r: TType)
    ensures
        r@ == a@,
    decreases a,
{
    match a {
        TType::TInt32 => TType::TInt32,
        TType::TString => TType::TString,
        TType::TArray(x) => TType::TArray(B(ttype_clone(&x.ptr))),
        TType::TRecord => TType::TRecord,
        TType::TCustom(x) => TType::TCustom(x.clone()),
        TType::TNil => TType::TNil,
        TType::TVoid => TType::TVoid,
    }
}

impl PartialEq for TType {
    fn eq(&self, other: &TType) -> (r: bool) {
        ttype_eq(self, other)
    }
}

impl vstd::std_specs::cmp::PartialEqSpecImpl for TType {
    open spec fn obeys_eq_spec() -> bool {
        true
    }

    open spec fn eq_spec(&self, other: &TType) -> bool {
        self@ == other@
    }
}

impl Clone for TType {
    fn clone(&self) -> (r: TType)
        ensures
            r@ == self@,
    {
        ttype_clone(self)
    }
}

/// The name under which a type is displayed.
pub open spec fn ty_display(t: SType) -> Seq<char> {
    match t {
        SType::Int => "Number"@,
        SType::Str => "String"@,
        SType::Array(_) => "Array of some type"@,
        SType::Record => "Record"@,
        SType::Custom(_) => "Custom"@,
        SType::Nil => "Nil"@,
        SType::Void => "Void"@,
    }
}

impl TType {
    /// The text under which this type is displayed in messages.
    pub fn display_name(&self) -> (s: String)
        ensures
            s@ == ty_display(self@),
    {
        match self {
            TType::TInt32 => "Number".to_owned(),
            TType::TString => "String".to_owned(),
            TType::TArray(_) => "Array of some type".to_owned(),
            TType::TRecord => "Record".to_owned(),
            TType::TCustom(_) => "Custom".to_owned(),
            TType::TNil => "Nil".to_owned(),
            TType::TVoid => "Void".to_owned(),
        }
    }
}

pub enum TypeValue {
    TInt32(i32),
    TString(String),
    TIdent(String),
}

/// What a name is bound to in a scope.
#[derive(Debug)]
pub enum Binding {
    TypeBinding(TType),
    VarBinding(TType),
    FuncBinding(TType),
}

pub enum SBinding {
    Type(SType),
    Var(SType),
    Func(SType),
}

impl View for Binding {
    type V = SBinding;

    open spec fn view(&self) -> SBinding {
        match *self {
            Binding::TypeBinding(t) => SBinding::Type(t@),
            Binding::VarBinding(t) => SBinding::Var(t@),
            Binding::FuncBinding(t) => SBinding::Func(t@),
        }
    }
}

pub trait Statement {
    fn generate_code(&self) -> Vec<String>;
}

/// A table from names to types in which each name occurs once, in the order the names were
/// first bound.
#[derive(Debug)]
pub struct SymTab {
    entries: Vec<(String, TType)>,
}

pub open spec fn entries_v(s: Seq<(String, TType)>) -> Seq<(Seq<char>, SType)> {
    Seq::new(s.len(), |i: int| (s[i].0@, s[i].1@))
}

pub open spec fn keys_distinct(s: Seq<(Seq<char>, SType)>) -> bool {
    forall|i: int, j: int| 0 <= i < s.len() && 0 <= j < s.len() && i != j ==> s[i].0 != s[j].0
}

/// Whether `k` is bound in the table `s`.
pub open spec fn tab_has(s: Seq<(Seq<char>, SType)>, k: Seq<char>) -> bool {
    exists|i: int| 0 <= i < s.len() && s[i].0 == k
}

/// The position of `k`'s entry in `s`, where it has one.
pub open spec fn tab_index(s: Seq<(Seq<char>, SType)>, k: Seq<char>) -> int {
    choose|i: int| 0 <= i < s.len() && s[i].0 == k
}

/// The type bound to `k` in `s`, where it is bound.
pub open spec fn tab_get(s: Seq<(Seq<char>, SType)>, k: Seq<char>) -> SType {
    s[tab_index(s, k)].1
}

/// Binds `k` to `v`: an entry of `k` keeps its place and takes the new type; a new name goes last.
pub open spec fn tab_insert(s: Seq<(Seq<char>, SType)>, k: Seq<char>, v: SType) -> Seq<
    (Seq<char>, SType),
> {
    if tab_has(s, k) {
        s.update(tab_index(s, k), (k, v))
    } else {
        s.push((k, v))
    }
}

/// In a table whose names are distinct, the entry found at position `i` is `k`'s entry.
proof fn lemma_tab_index(s: Seq<(Seq<char>, SType)>, k: Seq<char>, i: int)
    requires
        keys_distinct(s),
        0 <= i < s.len(),
        s[i].0 == k,
    ensures
        tab_has(s, k),
        tab_index(s, k) == i,
{
    assert(tab_has(s, k));
}

impl View for SymTab {
    type V = Seq<(Seq<char>, SType)>;

    closed spec fn view(&self) -> Seq<(Seq<char>, SType)> {
        entries_v(self.entries@)
    }
}

impl SymTab {
    #[verifier::type_invariant]
    closed spec fn inv(self) -> bool {
        keys_distinct(entries_v(self.entries@))
    }

    /// An empty table.
    pub fn new() -> (t: SymTab)
        ensures
            t@ == Seq::<(Seq<char>, SType)>::empty(),
    {
        let t = SymTab { entries: Vec::new() };
        assert(entries_v(t.entries@) =~= Seq::<(Seq<char>, SType)>::empty());
        t
    }

    fn find(&self, k: &String) -> (r: Option<usize>)
        ensures
            r matches Some(i) ==> i < self.entries@.len() && self.entries@[i as int].0@ == k@,
            r is None ==> forall|i: int| 0 <= i < self.entries@.len() ==> self.entries@[i].0@ != k@,
    {
        let mut i: usize = 0;
        while i < self.entries.len()
            invariant
                i <= self.entries@.len(),
                forall|j: int| 0 <= j < i ==> self.entries@[j].0@ != k@,
            decreases self.entries@.len() - i,
        {
            if self.entries[i].0 == *k {
                return Some(i);
            }
            i = i + 1;
        }
        None
    }

    /// Binds `k` to `v`, replacing an earlier binding of `k` in its place.
    pub fn insert(&mut self, k: String, v: TType)
        ensures
            final(self)@ == tab_insert(old(self)@, k@, v@),
    {
        proof {
            use_type_invariant(&*self);
        }
        let ghost old_e = entries_v(self.entries@);
        match self.find(&k) {
            Some(i) => {
                proof {
                    lemma_tab_index(old_e, k@, i as int);
                }
                let mut entries = Vec::new();
                std::mem::swap(&mut entries, &mut self.entries);
                let ghost kv = k@;
                let ghost vv = v@;
                entries.set(i, (k, v));
                proof {
                    assert(entries_v(entries@) =~= old_e.update(i as int, (kv, vv)));
                    assert forall|a: int, b: int|
                        0 <= a < entries@.len() && 0 <= b < entries@.len() && a != b implies entries_v(
                        entries@,
                    )[a].0 != entries_v(entries@)[b].0 by {
                        assert(old_e[a].0 == entries_v(entries@)[a].0);
                        assert(old_e[b].0 == entries_v(entries@)[b].0);
                    }
                }
                self.entries = entries;
            },
            None => {
                proof {
                    assert(!tab_has(old_e, k@)) by {
                        if tab_has(old_e, k@) {
                            let j = choose|j: int| 0 <= j < old_e.len() && old_e[j].0 == k@;
                            assert(self.entries@[j].0@ == k@);
                        }
                    }
                }
                let mut entries = Vec::new();
                std::mem::swap(&mut entries, &mut self.entries);
                let ghost kv = k@;
                let ghost vv = v@;
                entries.push((k, v));
                proof {
                    assert(entries_v(entries@) =~= old_e.push((kv, vv)));
                }
                self.entries = entries;
            },
        }
    }

    /// The type bound to `k`, if any.
    pub fn get(&self, k: &String) -> (r: Option<&TType>)
        ensures
            r is Some <==> tab_has(self@, k@),
            r matches Some(t) ==> t@ == tab_get(self@, k@),
    {
        proof {
            use_type_invariant(self);
        }
        match self.find(k) {
            Some(i) => {
                proof {
                    lemma_tab_index(self@, k@, i as int);
                }
                Some(&self.entries[i].1)
            },
            None => {
                proof {
                    if tab_has(self@, k@) {
                        let j = choose|j: int| 0 <= j < self@.len() && self@[j].0 == k@;
                        assert(self.entries@[j].0@ == k@);
                    }
                }
                None
            },
        }
    }

    /// The entries, in order.
    pub fn entries(&self) -> (r: &Vec<(String, TType)>)
        ensures
            entries_v(r@) == self@,
            keys_distinct(self@),
    {
        proof {
            use_type_invariant(self);
        }
        &self.entries
    }

    /// The number of bound names.
    pub fn len(&self) -> (n: usize)
        ensures
            n == self@.len(),
    {
        self.entries.len()
    }
}

/// Expressions of the language.
#[derive(Debug)]
pub enum Expr {
    LetExpr(Vec<Decl>, OptionalExpr),
    IdExpr(String),
    NilExpr,
    LitExpr,
    StringExpr(String),
    BreakExpr,
    CallExpr(String, OptionalTypeExprTupleList),
    NumExpr(i32),
    SeqExpr(OptionalExprList),
    IdentExpr(String),
    AddExpr(B<Expr>, B<Expr>),
    SubExpr(B<Expr>, B<Expr>),
    MulExpr(B<Expr>, B<Expr>),
    DivExpr(B<Expr>, B<Expr>),
    ModExpr(B<Expr>, B<Expr>),
    BlockExpr(B<Block>),
    IfThenElseExpr(B<Expr>, B<Expr>, B<Expr>),
    IfThenExpr(B<Expr>, B<Expr>),
    WhileExpr(B<Expr>, B<Expr>),
    AssignExpr(String, B<Expr>),
    LabelExpr(String),
    GotoExpr(String),
    EqualsExpr(B<Expr>, B<Expr>),
    NotEqualsExpr(B<Expr>, B<Expr>),
    LessThanExpr(B<Expr>, B<Expr>),
    GreaterThanExpr(B<Expr>, B<Expr>),
    ForExpr(String, B<Expr>, B<Expr>, B<Expr>),
    ArrayExpr(TType, B<Expr>, B<Expr>),
    RecordExpr(OptionalIdTypePairs),
    FieldExpr(String, String),
    SubscriptExpr(String, B<Expr>),
}

#[derive(Debug)]
pub struct FieldDec {
    id: String,
    ty: TType,
}

/// Declarations of a let-expression.
#[derive(Debug)]
pub enum Decl {
    //type tyId = ty
    TypeDec(String, TType),
    //var a : int := 1
    VarDec(String, TType, B<Expr>),
    //function id ( fieldDec; ) : tyId = exp, followed by the type of the body
    FunDec(String, OptionalParamInfoList, TType, B<Expr>, TType),
}

/// A scope: its symbol table and the main expression parsed in it.
#[derive(Debug)]
pub struct Block {
    pub sym_tab: SymTab,
    pub statements: Vec<B<Stmt>>,
    pub instructions: Vec<String>,
    pub expr: Option<B<Expr>>,
}

#[derive(Debug)]
pub struct Local {
    pub ident: String,
    pub ty: TType,
    pub expr: B<Expr>,
}

#[derive(Debug)]
pub enum Stmt {
    VarDeclStmt(Local),
    ExprStmt(B<Expr>),
}

/// The mathematical model of an `Expr`.
pub enum SExpr {
    Let(Seq<SDecl>, Option<Box<SExpr>>),
    Id(Seq<char>),
    Nil,
    Lit,
    Str(Seq<char>),
    Brk,
    Call(Seq<char>, Option<Seq<(SType, SExpr)>>),
    Num(i32),
    Sequence(Option<Seq<SExpr>>),
    Ident(Seq<char>),
    Add(Box<SExpr>, Box<SExpr>),
    Sub(Box<SExpr>, Box<SExpr>),
    Mul(Box<SExpr>, Box<SExpr>),
    Div(Box<SExpr>, Box<SExpr>),
    Mod(Box<SExpr>, Box<SExpr>),
    Blk(Box<SBlock>),
    IfThenElse(Box<SExpr>, Box<SExpr>, Box<SExpr>),
    IfThen(Box<SExpr>, Box<SExpr>),
    While(Box<SExpr>, Box<SExpr>),
    Assign(Seq<char>, Box<SExpr>),
    Label(Seq<char>),
    Goto(Seq<char>),
    Equals(Box<SExpr>, Box<SExpr>),
    NotEquals(Box<SExpr>, Box<SExpr>),
    LessThan(Box<SExpr>, Box<SExpr>),
    GreaterThan(Box<SExpr>, Box<SExpr>),
    For(Seq<char>, Box<SExpr>, Box<SExpr>, Box<SExpr>),
    Array(SType, Box<SExpr>, Box<SExpr>),
    Record(Option<Seq<(Seq<char>, SType)>>),
    Field(Seq<char>, Seq<char>),
    Subscript(Seq<char>, Box<SExpr>),
}

pub enum SDecl {
    TypeDec(Seq<char>, SType),
    VarDec(Seq<char>, SType, SExpr),
    FunDec(Seq<char>, Option<Seq<(Seq<char>, SType)>>, SType, SExpr, SType),
}

pub struct SBlock {
    pub syms: Seq<(Seq<char>, SType)>,
    pub stmts: Seq<SStmt>,
    pub instrs: Seq<Seq<char>>,
    pub expr: Option<SExpr>,
}

pub enum SStmt {
    VarDecl(Seq<char>, SType, SExpr),
    ExprS(SExpr),
}

/// The model of a scope with nothing in it.
pub open spec fn empty_block() -> SBlock {
    SBlock { syms: seq![], stmts: seq![], instrs: seq![], expr: None }
}

pub open spec fn pairs_v(v: Vec<(String, TType)>) -> Seq<(Seq<char>, SType)> {
    Seq::new(v@.len(), |i: int| (v@[i].0@, v@[i].1@))
}

pub open spec fn opt_pairs_v(o: OptionalIdTypePairs) -> Option<Seq<(Seq<char>, SType)>> {
    match o {
        Some(v) => Some(pairs_v(v)),
        None => None,
    }
}

pub open spec fn bx(e: SExpr) -> Box<SExpr> {
    Box::new(e)
}

pub open spec fn expr_v(e: Expr) -> SExpr
    decreases e,
{
    match e {
        Expr::LetExpr(ds, o) => SExpr::Let(
            Seq::new(ds@.len(), |i: int| if 0 <= i < ds@.len() { decl_v(ds@[i]) } else { SDecl::TypeDec(seq![], SType::Nil) }),
            match o { Some(b) => Some(bx(expr_v(*b.ptr))), None => None },
        ),
        Expr::IdExpr(s) => SExpr::Id(s@),
        Expr::NilExpr => SExpr::Nil,
        Expr::LitExpr => SExpr::Lit,
        Expr::StringExpr(s) => SExpr::Str(s@),
        Expr::BreakExpr => SExpr::Brk,
        Expr::CallExpr(s, o) => SExpr::Call(s@, match o {
            Some(v) => Some(Seq::new(v@.len(), |i: int| if 0 <= i < v@.len() { (v@[i].0@, expr_v(*v@[i].1.ptr)) } else { (SType::Nil, SExpr::Nil) })),
            None => None,
        }),
        Expr::NumExpr(n) => SExpr::Num(n),
        Expr::SeqExpr(o) => SExpr::Sequence(match o {
            Some(v) => Some(Seq::new(v@.len(), |i: int| if 0 <= i < v@.len() { expr_v(*v@[i].ptr) } else { SExpr::Nil })),
            None => None,
        }),
        Expr::IdentExpr(s) => SExpr::Ident(s@),
        Expr::AddExpr(a, b) => SExpr::Add(bx(expr_v(*a.ptr)), bx(expr_v(*b.ptr))),
        Expr::SubExpr(a, b) => SExpr::Sub(bx(expr_v(*a.ptr)), bx(expr_v(*b.ptr))),
        Expr::MulExpr(a, b) => SExpr::Mul(bx(expr_v(*a.ptr)), bx(expr_v(*b.ptr))),
        Expr::DivExpr(a, b) => SExpr::Div(bx(expr_v(*a.ptr)), bx(expr_v(*b.ptr))),
        Expr::ModExpr(a, b) => SExpr::Mod(bx(expr_v(*a.ptr)), bx(expr_v(*b.ptr))),
        Expr::BlockExpr(b) => SExpr::Blk(Box::new(block_v(*b.ptr))),
        Expr::IfThenElseExpr(a, b, c) => SExpr::IfThenElse(bx(expr_v(*a.ptr)), bx(expr_v(*b.ptr)), bx(expr_v(*c.ptr))),
        Expr::IfThenExpr(a, b) => SExpr::IfThen(bx(expr_v(*a.ptr)), bx(expr_v(*b.ptr))),
        Expr::WhileExpr(a, b) => SExpr::While(bx(expr_v(*a.ptr)), bx(expr_v(*b.ptr))),
        Expr::AssignExpr(s, a) => SExpr::Assign(s@, bx(expr_v(*a.ptr))),
        Expr::LabelExpr(s) => SExpr::Label(s@),
        Expr::GotoExpr(s) => SExpr::Goto(s@),
        Expr::EqualsExpr(a, b) => SExpr::Equals(bx(expr_v(*a.ptr)), bx(expr_v(*b.ptr))),
        Expr::NotEqualsExpr(a, b) => SExpr::NotEquals(bx(expr_v(*a.ptr)), bx(expr_v(*b.ptr))),
        Expr::LessThanExpr(a, b) => SExpr::LessThan(bx(expr_v(*a.ptr)), bx(expr_v(*b.ptr))),
        Expr::GreaterThanExpr(a, b) => SExpr::GreaterThan(bx(expr_v(*a.ptr)), bx(expr_v(*b.ptr))),
        Expr::ForExpr(s, a, b, c) => SExpr::For(s@, bx(expr_v(*a.ptr)), bx(expr_v(*b.ptr)), bx(expr_v(*c.ptr))),
        Expr::ArrayExpr(t, a, b) => SExpr::Array(t@, bx(expr_v(*a.ptr)), bx(expr_v(*b.ptr))),
        Expr::RecordExpr(o) => SExpr::Record(opt_pairs_v(o)),
        Expr::FieldExpr(a, b) => SExpr::Field(a@, b@),
        Expr::SubscriptExpr(s, a) => SExpr::Subscript(s@, bx(expr_v(*a.ptr))),
    }
}

pub open spec fn decl_v(d: Decl) -> SDecl
    decreases d,
{
    match d {
        Decl::TypeDec(s, t) => SDecl::TypeDec(s@, t@),
        Decl::VarDec(s, t, e) => SDecl::VarDec(s@, t@, expr_v(*e.ptr)),
        Decl::FunDec(s, ps, t, e, bt) => SDecl::FunDec(s@, opt_pairs_v(ps), t@, expr_v(*e.ptr), bt@),
    }
}

pub open spec fn block_v(b: Block) -> SBlock
    decreases b,
{
    SBlock {
        syms: b.sym_tab@,
        stmts: Seq::new(b.statements@.len(), |i: int| if 0 <= i < b.statements@.len() { stmt_v(*b.statements@[i].ptr) } else { SStmt::ExprS(SExpr::Nil) }),
        instrs: Seq::new(b.instructions@.len(), |i: int| b.instructions@[i]@),
        expr: match b.expr { Some(e) => Some(expr_v(*e.ptr)), None => None },
    }
}

pub open spec fn stmt_v(s: Stmt) -> SStmt
    decreases s,
{
    match s {
        Stmt::VarDeclStmt(l) => SStmt::VarDecl(l.ident@, l.ty@, expr_v(*l.expr.ptr)),
        Stmt::ExprStmt(e) => SStmt::ExprS(expr_v(*e.ptr)),
    }
}

impl View for Expr {
    type V = SExpr;

    open spec fn view(&self) -> SExpr {
        expr_v(*self)
    }
}

impl View for Decl {
    type V = SDecl;

    open spec fn view(&self) -> SDecl {
        decl_v(*self)
    }
}

impl View for Block {
    type V = SBlock;

    open spec fn view(&self) -> SBlock {
        block_v(*self)
    }
}

impl Block {
    /// An empty scope.
    pub fn new() -> (b: Block)
        ensures
            b@ == empty_block(),
    {
        let b = Block {
            sym_tab: SymTab::new(),
            statements: Vec::new(),
            instructions: Vec::new(),
            expr: None,
        };
        assert(b@.stmts =~= seq![]);
        assert(b@.instrs =~= seq![]);
        b
    }

    /// Binds `sym_id` to `ty` in this scope.
    pub fn add_sym(&mut self, sym_id: String, ty: TType)
        ensures
            final(self)@.syms == tab_insert(old(self)@.syms, sym_id@, ty@),
            keys_distinct(old(self)@.syms),
            keys_distinct(final(self)@.syms),
            tab_has(final(self)@.syms, sym_id@),
            tab_get(final(self)@.syms, sym_id@) == ty@,
            forall|k: Seq<char>|
                k != sym_id@ ==> (tab_has(final(self)@.syms, k) == tab_has(old(self)@.syms, k)
                    && (tab_has(old(self)@.syms, k) ==> tab_get(final(self)@.syms, k) == tab_get(
                    old(self)@.syms,
                    k,
                ))),
            final(self)@.stmts == old(self)@.stmts,
            final(self)@.instrs == old(self)@.instrs,
            final(self)@.expr == old(self)@.expr,
    {
        let ghost old_b = self@;
        let ghost k0 = sym_id@;
        let ghost t0 = ty@;
        let _ = self.sym_tab.entries();
        self.sym_tab.insert(sym_id, ty);
        proof {
            assert(k0.push('x').len() != k0.len());
            law_add_sym_then_contains(old_b, k0, t0, k0.push('x'));
            assert forall|k: Seq<char>| k != k0 implies (tab_has(self@.syms, k) == tab_has(
                old_b.syms,
                k,
            ) && (tab_has(old_b.syms, k) ==> tab_get(self@.syms, k) == tab_get(old_b.syms, k))) by {
                law_add_sym_then_contains(old_b, k0, t0, k);
            }
        }
    }

    /// Whether `sym_id` is bound in this scope.
    pub fn contains(&self, sym_id: &String) -> (r: bool)
        ensures
            r == tab_has(self@.syms, sym_id@),
            keys_distinct(self@.syms),
    {
        let _ = self.sym_tab.entries();
        match self.sym_tab.get(sym_id) {
            Some(_) => true,
            _ => false,
        }
    }

    /// Generates the code of the scope's statements; statements generate no code yet.
    pub fn generate(&mut self)
        ensures
            final(self)@ == old(self)@,
    {
    }
}

/// Binding a name in a scope makes it visible there with that type, and leaves every other
/// name as it was, bound or not and to the same type.
pub proof fn law_add_sym_then_contains(b: SBlock, k: Seq<char>, t: SType, other: Seq<char>)
    requires
        keys_distinct(b.syms),
        other != k,
    ensures
        keys_distinct(tab_insert(b.syms, k, t)),
        tab_has(tab_insert(b.syms, k, t), k),
        tab_get(tab_insert(b.syms, k, t), k) == t,
        tab_has(tab_insert(b.syms, k, t), other) == tab_has(b.syms, other),
        tab_has(b.syms, other) ==> tab_get(tab_insert(b.syms, k, t), other) == tab_get(b.syms, other),
{
    let s = b.syms;
    let n = tab_insert(s, k, t);
    let ik = if tab_has(s, k) { tab_index(s, k) } else { s.len() as int };
    if tab_has(s, k) {
        let i = tab_index(s, k);
        assert forall|a: int, c: int| 0 <= a < n.len() && 0 <= c < n.len() && a != c implies n[a].0
            != n[c].0 by {
            assert(n[a].0 == s[a].0);
            assert(n[c].0 == s[c].0);
        }
    } else {
        assert forall|a: int, c: int| 0 <= a < n.len() && 0 <= c < n.len() && a != c implies n[a].0
            != n[c].0 by {
            if a < s.len() && c < s.len() {
                assert(n[a] == s[a] && n[c] == s[c]);
            } else if a < s.len() {
                assert(n[a] == s[a]);
            } else {
                assert(n[c] == s[c]);
            }
        }
        assert(n[s.len() as int].0 == k);
    }
    lemma_tab_index(n, k, ik);
    if tab_has(s, other) {
        let j = tab_index(s, other);
        assert(n[j] == s[j]);
        lemma_tab_index(n, other, j);
    }
    if tab_has(n, other) {
        let j = tab_index(n, other);
        if j < s.len() {
            assert(n[j].0 == s[j].0);
        }
    }
}

impl Local {
    pub fn new(ident: String, ty: TType, expr: B<Expr>) -> (l: Local)
        ensures
            l.ident@ == ident@,
            l.ty@ == ty@,
            l.expr == expr,
    {
        Local { ident: ident, ty: ty, expr: expr }
    }
}


pub open spec fn exprs_v(v: Seq<B<Expr>>) -> Seq<SExpr> {
    Seq::new(v.len(), |i: int| expr_v(*v[i].ptr))
}

pub open spec fn decls_v(v: Seq<Decl>) -> Seq<SDecl> {
    Seq::new(v.len(), |i: int| decl_v(v[i]))
}

pub open spec fn targs_v(v: Seq<(TType, B<Expr>)>) -> Seq<(SType, SExpr)> {
    Seq::new(v.len(), |i: int| (v[i].0@, expr_v(*v[i].1.ptr)))
}

/// The model of a call, by the models of its arguments.
pub proof fn lemma_call_view(e: Expr)
    requires
        e is CallExpr,
    ensures
        expr_v(e) == SExpr::Call(
            e->CallExpr_0@,
            match e->CallExpr_1 {
                Some(v) => Some(targs_v(v@)),
                None => None,
            },
        ),
{
    if let Expr::CallExpr(s, Some(v)) = e {
        assert(expr_v(e)->Call_1.unwrap() =~= targs_v(v@));
    }
}

/// The model of a sequence expression, by the models of its expressions.
pub proof fn lemma_seq_view(e: Expr)
    requires
        e is SeqExpr,
    ensures
        expr_v(e) == SExpr::Sequence(
            match e->SeqExpr_0 {
                Some(v) => Some(exprs_v(v@)),
                None => None,
            },
        ),
{
    if let Expr::SeqExpr(Some(v)) = e {
        assert(expr_v(e)->Sequence_0.unwrap() =~= exprs_v(v@));
    }
}

/// The model of a let-expression, by the models of its declarations.
pub proof fn lemma_let_view(e: Expr)
    requires
        e is LetExpr,
    ensures
        expr_v(e) == SExpr::Let(
            decls_v(e->LetExpr_0@),
            match e->LetExpr_1 {
                Some(b) => Some(bx(expr_v(*b.ptr))),
                None => None,
            },
        ),
{
    assert(expr_v(e)->Let_0 =~= decls_v(e->LetExpr_0@));
}

} // verus!
