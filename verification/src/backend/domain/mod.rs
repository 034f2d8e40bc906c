pub mod services;
pub mod value_objects;
