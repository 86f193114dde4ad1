pub mod map_generator;
pub mod style;
pub mod pos_builder;
pub mod map_io;
