pub mod chunk;
pub mod cords;
pub mod level;
pub mod math;
pub mod registry;
pub mod text;
