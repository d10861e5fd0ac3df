//! Git data model and the decisions made on data read from a repository.

pub mod types;
pub mod provider;
