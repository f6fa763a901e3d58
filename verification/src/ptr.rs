use vstd::prelude::*;

verus! {

/// An owning pointer used throughout the syntax tree.
#[derive(Debug)]
pub struct B<T> {
    pub ptr: Box<T>,
}

/// Builds a `B<T>` holding `value`.
#[allow(non_snake_case)]
pub fn B<T>(value: T) -> (b: B<T>)
    ensures
        *b.ptr == value,
{
    B { ptr: Box::new(value) }
}

impl<T> core::ops::Deref for B<T> {
    type Target = T;

    fn deref(&self) -> (r: &T)
        ensures
            *r == *self.ptr,
    {
        &self.ptr
    }
}

/// Moves the value out of a `B<T>`.
pub fn unbox<T>(b: B<T>) -> (r: T)
    ensures
        r == *b.ptr,
{
    *b.ptr
}

} // verus!
