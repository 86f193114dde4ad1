use vstd::prelude::*;

verus! {

/// A value that can change from frame to frame.
pub trait Attribute<T> {
    /// The value at `frame`.
    spec fn value_at(&self, frame: usize) -> T;

    fn get_frame(&self, frame: usize) -> (r: T)
        ensures
            r == self.value_at(frame),
    ;
}

} // verus!
