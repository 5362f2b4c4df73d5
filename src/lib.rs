pub mod color;
pub mod parse;
pub mod text;
pub mod input;
pub mod solver;
pub mod scene;
pub mod render;
pub mod document;
pub mod stdlib;
pub mod engine;
