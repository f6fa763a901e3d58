use vstd::prelude::*;

verus! {

/// The text of each string of a list.
pub open spec fn strs_v(v: Seq<String>) -> Seq<Seq<char>> {
    v.map_values(|s: String| s@)
}

/// A statement that emits instructions.
pub trait Statement {
    /// The instructions that the statement stands for.
    spec fn code(&self) -> Seq<Seq<char>>;

    fn generate_code(&self) -> (r: Vec<String>)
        ensures
            strs_v(r@) == self.code(),
    ;
}

} // verus!
