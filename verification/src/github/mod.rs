//! What is asked of GitHub, and what is made of its answers.
pub mod client;
pub mod query;
pub mod types;
