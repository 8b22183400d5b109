use vstd::prelude::*;

verus! {

/// Sum of two `i32` values; the sum must fit in an `i32`.
pub fn add(a: i32, b: i32) -> (sum: i32)
    requires
        i32::MIN <= a + b <= i32::MAX,
    ensures
        sum == a + b,
{
    a + b
}

/// Consumes its argument and hands back the string `"3"`, whatever it was given.
pub fn printer(value: String) -> (out: String)
    ensures
        out@ == "3"@,
{
    String::from_str("3")
}

} // verus!
