use vstd::prelude::*;
use crate::lexer::string_push;
use vstd::string::StringExecFns;
use crate::lua::block::Block;
use crate::lua::expressions::{IdentExpression, LuaExpr};
use crate::lua::traits::{Statement, strs_v};

verus! {

/// The model of a statement: its line, and what it holds that its code depends on.
pub enum SLuaStmt {
    Assign(int),
    FuncCall(int, Seq<char>),
    Label(int, Seq<char>),
    Break(int),
    Goto(int, Seq<char>),
    Do(int, Seq<SLuaStmt>),
    While(int, Seq<SLuaStmt>),
}

/// The instructions that a statement stands for.
pub open spec fn scode(s: SLuaStmt) -> Seq<Seq<char>>
    decreases s, 1int,
{
    match s {
        SLuaStmt::Assign(_) => seq!["MOV 1,2"@],
        SLuaStmt::FuncCall(_, _) => seq!["MOV 1,2"@],
        SLuaStmt::Label(_, name) => seq![name.push(':')],
        SLuaStmt::Break(_) => seq!["jmp"@],
        SLuaStmt::Goto(_, label) => seq!["bra "@ + label],
        SLuaStmt::Do(_, ss) => scodes(ss),
        SLuaStmt::While(_, ss) => scodes(ss),
    }
}

/// The instructions of a list of statements, one after the other.
pub open spec fn scodes(ss: Seq<SLuaStmt>) -> Seq<Seq<char>>
    decreases ss, 0int,
{
    if ss.len() == 0 {
        seq![]
    } else {
        scodes(ss.drop_last()) + scode(ss.last())
    }
}

/// The instructions of a list of statements grow one statement at a time: a `break` adds `jmp`,
/// `goto l` adds `bra l`, a label `n` adds `n:`, and an assignment or a call adds `MOV 1,2`.
pub proof fn law_statement_code(ss: Seq<SLuaStmt>, line: int, name: Seq<char>)
    ensures
        scodes(ss.push(SLuaStmt::Break(line))) == scodes(ss).push("jmp"@),
        scodes(ss.push(SLuaStmt::Goto(line, name))) == scodes(ss).push("bra "@ + name),
        scodes(ss.push(SLuaStmt::Label(line, name))) == scodes(ss).push(name.push(':')),
        scodes(ss.push(SLuaStmt::Assign(line))) == scodes(ss).push("MOV 1,2"@),
        scodes(ss.push(SLuaStmt::FuncCall(line, name))) == scodes(ss).push("MOV 1,2"@),
{
    assert(scodes(ss.push(SLuaStmt::Break(line))) == scodes(ss).push("jmp"@)) by {
        let x = SLuaStmt::Break(line);
        assert(ss.push(x).drop_last() =~= ss);
        assert(scode(x) == seq!["jmp"@]);
        assert(scodes(ss.push(x)) == scodes(ss) + scode(x));
        assert(scodes(ss) + seq!["jmp"@] =~= scodes(ss).push("jmp"@));
    }
    assert(scodes(ss.push(SLuaStmt::Goto(line, name))) == scodes(ss).push("bra "@ + name)) by {
        let x = SLuaStmt::Goto(line, name);
        assert(ss.push(x).drop_last() =~= ss);
        assert(scode(x) == seq!["bra "@ + name]);
        assert(scodes(ss.push(x)) == scodes(ss) + scode(x));
        assert(scodes(ss) + seq!["bra "@ + name] =~= scodes(ss).push("bra "@ + name));
    }
    assert(scodes(ss.push(SLuaStmt::Label(line, name))) == scodes(ss).push(name.push(':'))) by {
        let x = SLuaStmt::Label(line, name);
        assert(ss.push(x).drop_last() =~= ss);
        assert(scode(x) == seq![name.push(':')]);
        assert(scodes(ss.push(x)) == scodes(ss) + scode(x));
        assert(scodes(ss) + seq![name.push(':')] =~= scodes(ss).push(name.push(':')));
    }
    assert(scodes(ss.push(SLuaStmt::Assign(line))) == scodes(ss).push("MOV 1,2"@)) by {
        let x = SLuaStmt::Assign(line);
        assert(ss.push(x).drop_last() =~= ss);
        assert(scode(x) == seq!["MOV 1,2"@]);
        assert(scodes(ss.push(x)) == scodes(ss) + scode(x));
        assert(scodes(ss) + seq!["MOV 1,2"@] =~= scodes(ss).push("MOV 1,2"@));
    }
    assert(scodes(ss.push(SLuaStmt::FuncCall(line, name))) == scodes(ss).push("MOV 1,2"@)) by {
        let x = SLuaStmt::FuncCall(line, name);
        assert(ss.push(x).drop_last() =~= ss);
        assert(scode(x) == seq!["MOV 1,2"@]);
        assert(scodes(ss.push(x)) == scodes(ss) + scode(x));
        assert(scodes(ss) + seq!["MOV 1,2"@] =~= scodes(ss).push("MOV 1,2"@));
    }
}

/// An assignment `name = expr`.
pub struct AssignStatement {
    pub line_pos: usize,
    pub lhs_sym: IdentExpression,
    pub rhs_expr: Box<LuaExpr>,
}

impl AssignStatement {
    pub fn new(line_pos: usize, lhs_sym: IdentExpression, rhs_expr: Box<LuaExpr>) -> (s: Self)
        ensures
            s.line_pos == line_pos,
            s.lhs_sym == lhs_sym,
            s.rhs_expr == rhs_expr,
    {
        AssignStatement { line_pos: line_pos, lhs_sym: lhs_sym, rhs_expr: rhs_expr }
    }
}

/// The one instruction that moves a value.
fn mov_code() -> (r: Vec<String>)
    ensures
        strs_v(r@) == seq!["MOV 1,2"@],
{
    let mut r: Vec<String> = Vec::new();
    r.push("MOV 1,2".to_owned());
    assert(strs_v(r@) =~= seq!["MOV 1,2"@]);
    r
}

impl Statement for AssignStatement {
    open spec fn code(&self) -> Seq<Seq<char>> {
        seq!["MOV 1,2"@]
    }

    fn generate_code(&self) -> (r: Vec<String>) {
        mov_code()
    }
}

/// A call of a function by name.
pub struct FuncCallStatement {
    pub line_pos: usize,
    pub name: String,
}

impl FuncCallStatement {
    pub fn new(line_pos: usize, name: String) -> (s: Self)
        ensures
            s.line_pos == line_pos,
            s.name == name,
    {
        FuncCallStatement { line_pos: line_pos, name: name }
    }
}

impl Statement for FuncCallStatement {
    open spec fn code(&self) -> Seq<Seq<char>> {
        seq!["MOV 1,2"@]
    }

    fn generate_code(&self) -> (r: Vec<String>) {
        mov_code()
    }
}

/// A label `::name::`.
pub struct LabelStatement {
    pub line_pos: usize,
    pub name: String,
}

impl LabelStatement {
    pub fn new(line_pos: usize, name: String) -> (s: Self)
        ensures
            s.line_pos == line_pos,
            s.name == name,
    {
        LabelStatement { line_pos: line_pos, name: name }
    }
}

impl Statement for LabelStatement {
    open spec fn code(&self) -> Seq<Seq<char>> {
        seq![self.name@.push(':')]
    }

    /// The label's name followed by a colon.
    fn generate_code(&self) -> (r: Vec<String>) {
        let mut s = self.name.clone();
        string_push(&mut s, ':');
        let mut r: Vec<String> = Vec::new();
        r.push(s);
        assert(strs_v(r@) =~= seq![self.name@.push(':')]);
        r
    }
}

/// `break`.
pub struct BreakStatement {
    pub line_pos: usize,
}

impl BreakStatement {
    pub fn new(line_pos: usize) -> (s: Self)
        ensures
            s.line_pos == line_pos,
    {
        BreakStatement { line_pos: line_pos }
    }
}

impl Statement for BreakStatement {
    open spec fn code(&self) -> Seq<Seq<char>> {
        seq!["jmp"@]
    }

    fn generate_code(&self) -> (r: Vec<String>) {
        // A break leaves the loop by a jump.
        let mut r: Vec<String> = Vec::new();
        r.push("jmp".to_owned());
        assert(strs_v(r@) =~= seq!["jmp"@]);
        r
    }
}

/// `goto label`.
pub struct GotoStatement {
    pub line_pos: usize,
    pub label: String,
}

impl GotoStatement {
    pub fn new(line_pos: usize, label: String) -> (s: Self)
        ensures
            s.line_pos == line_pos,
            s.label == label,
    {
        GotoStatement { line_pos: line_pos, label: label }
    }
}

impl Statement for GotoStatement {
    open spec fn code(&self) -> Seq<Seq<char>> {
        seq!["bra "@ + self.label@]
    }

    /// A branch to the label.
    fn generate_code(&self) -> (r: Vec<String>) {
        let mut s = "bra ".to_owned();
        s.append(self.label.as_str());
        let mut r: Vec<String> = Vec::new();
        r.push(s);
        assert(strs_v(r@) =~= seq!["bra "@ + self.label@]);
        r
    }
}

/// `do block end`.
pub struct DoStatement {
    pub line_pos: usize,
    pub block: Block,
}

impl DoStatement {
    pub fn new(line_pos: usize) -> (s: Self)
        ensures
            s.line_pos == line_pos,
            s.block@.statements == Seq::<SLuaStmt>::empty(),
            s.block@.instructions == Seq::<Seq<char>>::empty(),
    {
        DoStatement { line_pos: line_pos, block: Block::new() }
    }
}

impl Statement for DoStatement {
    open spec fn code(&self) -> Seq<Seq<char>> {
        scodes(self.block@.statements)
    }

    /// The code of the statements of the block, in order.
    fn generate_code(&self) -> (r: Vec<String>) {
        stmts_code(&self.block.statements)
    }
}

/// `while expr do block end`.
pub struct WhileStatement {
    pub line_pos: usize,
    pub expr: Box<LuaExpr>,
    pub do_stat: DoStatement,
}

impl WhileStatement {
    fn new(line_pos: usize, expr: Box<LuaExpr>) -> (s: Self)
        ensures
            s.line_pos == line_pos,
            s.expr == expr,
            s.do_stat.line_pos == line_pos,
            s.do_stat.block@.statements == Seq::<SLuaStmt>::empty(),
    {
        WhileStatement { line_pos: line_pos, expr: expr, do_stat: DoStatement::new(line_pos) }
    }
}

impl Statement for WhileStatement {
    open spec fn code(&self) -> Seq<Seq<char>> {
        scodes(self.do_stat.block@.statements)
    }

    /// The code of the statements of the loop's body, in order.
    fn generate_code(&self) -> (r: Vec<String>) {
        stmts_code(&self.do_stat.block.statements)
    }
}

/// `repeat block until expr`; not parsed yet.
pub struct RepeatUntilStatement;

/// The statements that a block holds.
pub enum LuaStatement {
    Assign(AssignStatement),
    FuncCall(FuncCallStatement),
    Label(LabelStatement),
    Break(BreakStatement),
    Goto(GotoStatement),
    Do(DoStatement),
    While(WhileStatement),
}

pub open spec fn lstmt_v(s: LuaStatement) -> SLuaStmt
    decreases s,
{
    match s {
        LuaStatement::Assign(a) => SLuaStmt::Assign(a.line_pos as int),
        LuaStatement::FuncCall(f) => SLuaStmt::FuncCall(f.line_pos as int, f.name@),
        LuaStatement::Label(l) => SLuaStmt::Label(l.line_pos as int, l.name@),
        LuaStatement::Break(b) => SLuaStmt::Break(b.line_pos as int),
        LuaStatement::Goto(g) => SLuaStmt::Goto(g.line_pos as int, g.label@),
        LuaStatement::Do(d) => SLuaStmt::Do(
            d.line_pos as int,
            Seq::new(d.block.statements@.len(), |i: int| if 0 <= i < d.block.statements@.len() { lstmt_v(d.block.statements@[i]) } else { SLuaStmt::Break(0) }),
        ),
        LuaStatement::While(w) => SLuaStmt::While(
            w.line_pos as int,
            Seq::new(w.do_stat.block.statements@.len(), |i: int| if 0 <= i < w.do_stat.block.statements@.len() { lstmt_v(w.do_stat.block.statements@[i]) } else { SLuaStmt::Break(0) }),
        ),
    }
}

pub open spec fn lstmts_v(v: Seq<LuaStatement>) -> Seq<SLuaStmt> {
    v.map_values(|s: LuaStatement| lstmt_v(s))
}

impl View for LuaStatement {
    type V = SLuaStmt;

    open spec fn view(&self) -> SLuaStmt {
        lstmt_v(*self)
    }
}

/// The code of one statement.
fn stmt_code(s: &LuaStatement) -> (r: Vec<String>)
    ensures
        strs_v(r@) == scode(s@),
    decreases s, 1int,
{
    match s {
        LuaStatement::Assign(a) => a.generate_code(),
        LuaStatement::FuncCall(f) => f.generate_code(),
        LuaStatement::Label(l) => l.generate_code(),
        LuaStatement::Break(b) => b.generate_code(),
        LuaStatement::Goto(g) => g.generate_code(),
        LuaStatement::Do(d) => {
            proof {
                assert(lstmts_v(d.block.statements@) =~= s@->Do_1);
            }
            stmts_code(&d.block.statements)
        },
        LuaStatement::While(w) => {
            proof {
                assert(lstmts_v(w.do_stat.block.statements@) =~= s@->While_1);
            }
            stmts_code(&w.do_stat.block.statements)
        },
    }
}

/// The code of a list of statements, one after the other.
pub(crate) fn stmts_code(ss: &Vec<LuaStatement>) -> (r: Vec<String>)
    ensures
        strs_v(r@) == scodes(lstmts_v(ss@)),
    decreases ss, 0int,
{
    let mut r: Vec<String> = Vec::new();
    let mut i: usize = 0;
    assert(lstmts_v(ss@.take(0)) =~= seq![]);
    assert(strs_v(r@) =~= seq![]);
    while i < ss.len()
        invariant
            i <= ss@.len(),
            strs_v(r@) == scodes(lstmts_v(ss@.take(i as int))),
        decreases ss@.len() - i,
    {
        proof {
            assert(decreases_to!(ss => ss@));
            assert(decreases_to!(ss@ => ss@[i as int]));
        }
        let c = stmt_code(&ss[i]);
        let ghost before = r@;
        let mut c2 = c;
        r.append(&mut c2);
        proof {
            let t = lstmts_v(ss@.take(i + 1));
            assert(t.drop_last() =~= lstmts_v(ss@.take(i as int)));
            assert(t.last() == ss@[i as int]@);
            assert(strs_v(r@) =~= strs_v(before) + strs_v(c@));
        }
        i = i + 1;
    }
    assert(ss@.take(i as int) =~= ss@);
    r
}

} // verus!
