pub mod generations;
pub mod motorcycle;
