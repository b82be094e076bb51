pub mod json;
pub mod pandoc;
pub mod laws;
pub mod text;
pub mod renderer;
pub mod filter;
pub mod cli;
