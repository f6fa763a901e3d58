use vstd::prelude::*;

verus! {

/// The types of Lua values.
pub enum LuaType {
    LString(String),
    LNumber(i32),
    LFunction,
    LBool,
    LThread,
    LTable,
    LNil,
}

} // verus!
