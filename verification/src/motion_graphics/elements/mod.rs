pub mod line;
pub mod shape;
