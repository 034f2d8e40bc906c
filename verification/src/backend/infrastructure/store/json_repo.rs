//! The listing table in a JSON file.
use vstd::prelude::*;

verus! {

pub struct JsonListingRepository {
    pub path: String,
}

impl JsonListingRepository {
    pub fn new(path: &str) -> (r: Self)
        ensures
            r.path@ == path@,
    {
        JsonListingRepository { path: path.to_owned() }
    }
}

} // verus!
