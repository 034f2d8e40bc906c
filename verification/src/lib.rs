use vstd::prelude::*;

pub mod text;
pub mod models;
pub mod stats;
pub mod backend;
pub mod scoring;
pub mod store;
pub mod notify;
pub mod config;
pub mod scrapers;

verus! {

} // verus!
