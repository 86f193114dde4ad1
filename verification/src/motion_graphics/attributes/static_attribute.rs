use vstd::prelude::*;
use crate::motion_graphics::attributes::attribute::Attribute;

verus! {

/// An attribute that keeps one value on every frame.
#[derive(Clone, Copy)]
pub struct StaticAttribute<T: Copy> {
    value: T,
}

impl<T: Copy> StaticAttribute<T> {
    /// The value the attribute keeps.
    pub closed spec fn kept(&self) -> T {
        self.value
    }

    pub fn new(value: T) -> (a: StaticAttribute<T>)
        ensures
            a.kept() == value,
    {
        StaticAttribute { value }
    }
}

impl<T: Copy> Attribute<T> for StaticAttribute<T> {
    open spec fn value_at(&self, frame: usize) -> T {
        self.kept()
    }

    fn get_frame(&self, _frame: usize) -> (r: T) {
        self.value
    }
}

} // verus!
