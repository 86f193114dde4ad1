pub mod attributes;
pub mod elements;
