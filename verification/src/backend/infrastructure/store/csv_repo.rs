//! The listing table in a CSV file.
use vstd::prelude::*;

verus! {

pub struct CsvListingRepository {
    pub db_path: String,
}

impl CsvListingRepository {
    pub fn new(db_path: &str) -> (r: Self)
        ensures
            r.db_path@ == db_path@,
    {
        CsvListingRepository { db_path: db_path.to_owned() }
    }
}

} // verus!
