//! Generation buckets for the category keys that the scraper derives.
use vstd::prelude::*;
use crate::text::str_eq;

verus! {

/// The bucket of `(category, year)`: a small generation number for the models
/// whose generations are known, the year itself otherwise.
pub open spec fn generation_bucket_spec(category: Seq<char>, year: u16) -> u16 {
    if category == "mt-09"@ {
        if 2013 <= year <= 2016 { 1 }
        else if 2017 <= year <= 2020 { 2 }
        else if 2021 <= year <= 2023 { 3 }
        else if 2024 <= year { 4 }
        else { year }
    } else if category == "tenere-700"@ {
        if 2019 <= year <= 2021 { 1 }
        else if 2022 <= year <= 2024 { 2 }
        else if 2025 <= year { 3 }
        else { year }
    } else {
        year
    }
}

/// Maps a (category, year) pair to a generation bucket.
pub fn generation_bucket(category: &str, year: u16) -> (r: u16)
    ensures
        r == generation_bucket_spec(category@, year),
{
    if str_eq(category, "mt-09") {
        if 2013 <= year && year <= 2016 { 1 }
        else if 2017 <= year && year <= 2020 { 2 }
        else if 2021 <= year && year <= 2023 { 3 }
        else if 2024 <= year { 4 }
        else { year }
    } else if str_eq(category, "tenere-700") {
        if 2019 <= year && year <= 2021 { 1 }
        else if 2022 <= year && year <= 2024 { 2 }
        else if 2025 <= year { 3 }
        else { year }
    } else {
        year
    }
}

/// Law: a bucket is either a generation number (below 100) or the year
/// itself; generation numbers and real model years never share a value.
pub proof fn law_bucket_is_generation_or_year(category: Seq<char>, year: u16)
    ensures
        generation_bucket_spec(category, year) < 100 || generation_bucket_spec(category, year) == year,
{
}

/// Law: the generation table. MT-09 ("mt-09"): 2013–2016 is generation 1, 2017–2020
/// generation 2, 2021–2023 generation 3, 2024 on generation 4. Ténéré 700 ("tenere-700"):
/// 2019–2021 is generation 1, 2022–2024 generation 2, 2025 on generation 3.
/// Earlier years of these models, and every year of any other model, keep the
/// year itself as bucket.
pub proof fn law_generation_table(category: Seq<char>, year: u16)
    ensures
        category == "mt-09"@ && 2013 <= year <= 2016 ==> generation_bucket_spec(category, year) == 1,
        category == "mt-09"@ && 2017 <= year <= 2020 ==> generation_bucket_spec(category, year) == 2,
        category == "mt-09"@ && 2021 <= year <= 2023 ==> generation_bucket_spec(category, year) == 3,
        category == "mt-09"@ && 2024 <= year ==> generation_bucket_spec(category, year) == 4,
        category == "mt-09"@ && year < 2013 ==> generation_bucket_spec(category, year) == year,
        category == "tenere-700"@ && 2019 <= year <= 2021 ==> generation_bucket_spec(category, year) == 1,
        category == "tenere-700"@ && 2022 <= year <= 2024 ==> generation_bucket_spec(category, year) == 2,
        category == "tenere-700"@ && 2025 <= year ==> generation_bucket_spec(category, year) == 3,
        category == "tenere-700"@ && year < 2019 ==> generation_bucket_spec(category, year) == year,
        category != "mt-09"@ && category != "tenere-700"@ ==> generation_bucket_spec(category, year) == year,
{
    reveal_strlit("mt-09");
    reveal_strlit("tenere-700");
    assert("mt-09"@[0] == 'm');
    assert("tenere-700"@[0] == 't');
}

/// Law: two years of one model share a bucket exactly when they fall in the
/// same generation of the table; in particular 2020 and 2021 of the
/// MT-09 ("mt-09") are two generations.
pub proof fn law_generation_boundaries(category: Seq<char>, y1: u16, y2: u16)
    requires
        category == "mt-09"@,
        2013 <= y1,
        2013 <= y2,
    ensures
        generation_bucket_spec(category, y1) == generation_bucket_spec(category, y2) <==> (
            (y1 <= 2016 && y2 <= 2016)
            || (2017 <= y1 <= 2020 && 2017 <= y2 <= 2020)
            || (2021 <= y1 <= 2023 && 2021 <= y2 <= 2023)
            || (2024 <= y1 && 2024 <= y2)),
{
    law_generation_table(category, y1);
    law_generation_table(category, y2);
    reveal_strlit("tenere-700");
    reveal_strlit("mt-09");
    assert("mt-09"@[0] == 'm');
    assert("tenere-700"@[0] == 't');
}

} // verus!
