use vstd::prelude::*;
use crate::lua::lua_types::LuaType;
use crate::lua::statements::{LuaStatement, SLuaStmt, lstmts_v, scodes, stmts_code};
use crate::lua::traits::strs_v;

verus! {

/// The model of a block: its statements and the instructions generated so far.
pub struct SLuaBlock {
    pub statements: Seq<SLuaStmt>,
    pub instructions: Seq<Seq<char>>,
}

/// A block of statements, with the instructions generated for them.
pub struct Block {
    pub sym_tab: Vec<(String, LuaType)>,
    pub statements: Vec<LuaStatement>,
    pub instructions: Vec<String>,
}

impl View for Block {
    type V = SLuaBlock;

    open spec fn view(&self) -> SLuaBlock {
        SLuaBlock { statements: lstmts_v(self.statements@), instructions: strs_v(self.instructions@) }
    }
}

impl Block {
    /// An empty block.
    pub fn new() -> (b: Self)
        ensures
            b@.statements == Seq::<SLuaStmt>::empty(),
            b@.instructions == Seq::<Seq<char>>::empty(),
            b.sym_tab@.len() == 0,
    {
        let b = Block { sym_tab: Vec::new(), statements: Vec::new(), instructions: Vec::new() };
        assert(b@.statements =~= Seq::<SLuaStmt>::empty());
        assert(b@.instructions =~= Seq::<Seq<char>>::empty());
        b
    }

    /// Appends the code of each statement, in order, to the instructions.
    pub fn generate(&mut self)
        ensures
            final(self)@.statements == old(self)@.statements,
            final(self)@.instructions == old(self)@.instructions + scodes(old(self)@.statements),
    {
        let mut code = stmts_code(&self.statements);
        let ghost before = self.instructions@;
        let ghost code_v = code@;
        self.instructions.append(&mut code);
        assert(strs_v(self.instructions@) =~= strs_v(before) + strs_v(code_v));
    }
}

} // verus!
