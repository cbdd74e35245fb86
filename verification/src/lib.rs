pub mod config;
pub mod menu;
mod ordering;
pub mod shapes;
pub mod spectrum;
pub mod text;
