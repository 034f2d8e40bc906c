//! Scrapers, and the stamping of generations onto what they find.
pub mod motorradhandel;
pub mod motoscout;

use vstd::prelude::*;
use crate::backend::config::GenerationRule;
use crate::models::motorcycle::MotorcycleListing;
use crate::text::{contains_seq, contains_str, lower, to_lowercase};

verus! {

/// Whether rule `r` names a keyword that the title contains (case-insensitively).
pub open spec fn keyword_rule_hits(r: GenerationRule, title: Seq<char>) -> bool {
    r.title_contains matches Some(kw) && contains_seq(lower(title), lower(kw@))
}

/// Whether rule `r` is a year rule (no keyword) whose bounds admit `year`.
pub open spec fn year_rule_hits(r: GenerationRule, year: u16) -> bool {
    &&& r.title_contains is None
    &&& (r.year_from matches Some(y) ==> year >= y)
    &&& (r.year_to matches Some(y) ==> year <= y)
}

pub open spec fn first_keyword_rule(rules: Seq<GenerationRule>, title: Seq<char>, i: int) -> bool {
    &&& 0 <= i < rules.len()
    &&& keyword_rule_hits(rules[i], title)
    &&& forall|j: int| 0 <= j < i ==> !keyword_rule_hits(#[trigger] rules[j], title)
}

pub open spec fn first_year_rule(rules: Seq<GenerationRule>, year: u16, i: int) -> bool {
    &&& 0 <= i < rules.len()
    &&& year_rule_hits(rules[i], year)
    &&& forall|j: int| 0 <= j < i ==> !year_rule_hits(#[trigger] rules[j], year)
}

/// The generation that the rules give a listing: the first keyword rule whose
/// keyword the title contains; failing that, the first year rule admitting
/// the year; failing that, none.
pub open spec fn generation_of(rules: Seq<GenerationRule>, year: u16, title: Seq<char>) -> Option<Seq<char>> {
    if exists|i: int| first_keyword_rule(rules, title, i) {
        Some(rules[choose|i: int| first_keyword_rule(rules, title, i)].name@)
    } else if exists|i: int| first_year_rule(rules, year, i) {
        Some(rules[choose|i: int| first_year_rule(rules, year, i)].name@)
    } else {
        None
    }
}

pub open spec fn opt_view(o: Option<String>) -> Option<Seq<char>> {
    match o {
        Some(s) => Some(s@),
        None => None,
    }
}

pub fn detect_generation(rules: &Vec<GenerationRule>, year: u16, title: &str) -> (r: Option<String>)
    ensures
        opt_view(r) == generation_of(rules@, year, title@),
{
    let title_lower = to_lowercase(title);
    let mut i: usize = 0;
    while i < rules.len()
        invariant
            i <= rules.len(),
            title_lower@ == lower(title@),
            forall|j: int| 0 <= j < i ==> !keyword_rule_hits(#[trigger] rules@[j], title@),
        decreases rules.len() - i,
    {
        match &rules[i].title_contains {
            Some(kw) => {
                let kl = to_lowercase(kw.as_str());
                if contains_str(title_lower.as_str(), kl.as_str()) {
                    proof {
                        assert(first_keyword_rule(rules@, title@, i as int));
                        let c = choose|c: int| first_keyword_rule(rules@, title@, c);
                        assert(c == i) by {
                            if c < i {
                            } else if c > i {
                                assert(!keyword_rule_hits(rules@[i as int], title@));
                            }
                        }
                    }
                    return Some(rules[i].name.clone());
                }
            },
            None => {},
        }
        i = i + 1;
    }
    let mut i: usize = 0;
    while i < rules.len()
        invariant
            i <= rules.len(),
            forall|j: int| 0 <= j < rules.len() ==> !keyword_rule_hits(#[trigger] rules@[j], title@),
            forall|j: int| 0 <= j < i ==> !year_rule_hits(#[trigger] rules@[j], year),
        decreases rules.len() - i,
    {
        let r = &rules[i];
        if r.title_contains.is_none() {
            let from_ok = match r.year_from {
                Some(y) => year >= y,
                None => true,
            };
            let to_ok = match r.year_to {
                Some(y) => year <= y,
                None => true,
            };
            if from_ok && to_ok {
                proof {
                    assert(first_year_rule(rules@, year, i as int));
                    let c = choose|c: int| first_year_rule(rules@, year, c);
                    assert(c == i) by {
                        if c > i {
                            assert(!year_rule_hits(rules@[i as int], year));
                        }
                    }
                }
                return Some(r.name.clone());
            }
        }
        i = i + 1;
    }
    None
}

/// Stamps onto each listing the generation that the rules give it.
pub fn stamp_generations(listings: &mut Vec<MotorcycleListing>, rules: &Vec<GenerationRule>)
    ensures
        final(listings).len() == old(listings).len(),
        forall|i: int| 0 <= i < old(listings).len() ==> {
            let before = old(listings)@[i];
            &&& #[trigger] final(listings)@[i] == MotorcycleListing { generation: final(listings)@[i].generation, ..before }
            &&& opt_view(final(listings)@[i].generation) == generation_of(rules@, before.year, before.title@)
        },
{
    let mut i: usize = 0;
    while i < listings.len()
        invariant
            listings.len() == old(listings).len(),
            i <= listings.len(),
            forall|j: int| 0 <= j < i ==> {
                let before = old(listings)@[j];
                &&& #[trigger] listings@[j] == MotorcycleListing { generation: listings@[j].generation, ..before }
                &&& opt_view(listings@[j].generation) == generation_of(rules@, before.year, before.title@)
            },
            forall|j: int| i <= j < listings.len() ==> #[trigger] listings@[j] == old(listings)@[j],
        decreases listings.len() - i,
    {
        let mut l = listings[i].duplicate();
        l.generation = detect_generation(rules, l.year, l.title.as_str());
        listings.set(i, l);
        i = i + 1;
    }
}

} // verus!
