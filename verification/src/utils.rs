use vstd::prelude::*;

verus! {

/// The distance between two channel values, `|x - y|`.
pub open spec fn abs_diff_spec(x: int, y: int) -> int {
    if x > y {
        x - y
    } else {
        y - x
    }
}

/// `|x - y|` for two 8-bit channel values.
pub fn abs_diff(x: u8, y: u8) -> (d: u8)
    ensures
        d as int == abs_diff_spec(x as int, y as int),
{
    if x > y {
        return x - y;
    }
    return y - x;
}

} // verus!
