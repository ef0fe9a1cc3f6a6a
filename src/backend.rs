use vstd::prelude::*;

verus! {

/// The sample function that a native code generator is asked to compile:
/// it returns its argument plus one.
pub fn add_one(x: i64) -> (r: i64)
    requires
        x < i64::MAX,
    ensures
        r == x + 1,
{
    x + 1
}

} // verus!
