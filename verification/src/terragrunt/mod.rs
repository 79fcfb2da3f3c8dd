//! Terragrunt configurations: their blocks, include chains and the path
//! arithmetic of their functions.
pub mod config;
pub mod dag;
pub mod eval;
pub mod evaluate;
pub mod includes;
