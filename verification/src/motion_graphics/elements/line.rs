use vstd::prelude::*;

verus! {

/// The check a line makes before it is stroked: a line needs at least two
/// points.
pub fn check_line_points(count: usize) -> (r: Result<(), &'static str>)
    ensures
        count >= 2 ==> r is Ok,
        count < 2 ==> r == Err::<(), &'static str>("Line must have at least two points"),
{
    if count < 2 {
        return Err("Line must have at least two points");
    }
    Ok(())
}

} // verus!
