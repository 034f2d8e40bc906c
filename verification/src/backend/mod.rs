pub mod config;
pub mod domain;
pub mod infrastructure;
