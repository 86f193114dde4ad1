use vstd::prelude::*;

verus! {

/// The check a shape makes before it is filled: a polygon needs at least
/// three corners.
pub fn check_shape_points(count: usize) -> (r: Result<(), &'static str>)
    ensures
        count >= 3 ==> r is Ok,
        count < 3 ==> r == Err::<(), &'static str>("Shape must have at least three points"),
{
    if count < 3 {
        return Err("Shape must have at least three points");
    }
    Ok(())
}

} // verus!
