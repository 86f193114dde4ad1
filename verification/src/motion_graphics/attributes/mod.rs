pub mod attribute;
pub mod static_attribute;
pub mod interpolated_attribute;
