pub mod csv_repo;
pub mod json_repo;
