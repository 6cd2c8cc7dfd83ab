pub mod arena;
pub mod expr;
pub mod laws;
pub mod plan;
pub mod types;
