pub mod ascii;
pub mod boundary;
pub mod cases;
pub mod convert;
pub mod laws;
pub mod names;
pub mod segment;
pub mod render;
