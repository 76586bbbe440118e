pub mod config;
pub mod rand;
pub mod result;
pub mod text;
pub mod theme;
pub mod value;
pub mod ui;
pub mod words;

pub use rand::Rng;
