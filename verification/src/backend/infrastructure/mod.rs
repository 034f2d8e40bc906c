pub mod notify;
pub mod scrapers;
pub mod store;
