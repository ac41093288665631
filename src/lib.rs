//! A saved list of project directories, and the rules that pick one of them
//! from a position or a free-text query.

pub mod config;
pub mod resolve;
pub mod score;
pub mod text;
