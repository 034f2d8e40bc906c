//! Merging a fresh scrape into the listing history.
pub mod report;
use vstd::prelude::*;
use std::collections::HashMap;
use crate::models::motorcycle::{ListingStatus, MotorcycleListing};

verus! {

broadcast use vstd::std_specs::hash::group_hash_axioms;

/// The keys of a listing table, each once.
pub fn key_list(db: &HashMap<u64, MotorcycleListing>) -> (r: Vec<u64>)
    ensures
        forall|k: u64| db@.contains_key(k) <==> r@.contains(k),
        r@.no_duplicates(),
{
    let mut r: Vec<u64> = Vec::new();
    for k in it: db.keys()
        invariant
            it.seq().unref().to_set() == db@.dom(),
            it.seq().no_duplicates(),
            r@.len() == it.index(),
            it.index() <= it.seq().len(),
            forall|j: int| 0 <= j < it.index() ==> r@[j] == *it.seq()[j],
            forall|q: u64| db@.contains_key(q) ==> r@.contains(q)
                || exists|j: int| it.index() <= j < it.seq().len() && *it.seq()[j] == q,
            forall|q: u64| r@.contains(q) ==> db@.contains_key(q),
            r@.no_duplicates(),
    {
        proof {
            assert(it.seq().unref()[it.index() as int] == *k);
            assert(it.seq().unref().contains(*k));
            assert(it.seq().unref().to_set().contains(*k));
            assert(db@.contains_key(*k));
            assert forall|j: int| 0 <= j < r@.len() implies r@[j] != *k by {
                assert(it.seq()[j] != it.seq()[it.index() as int]);
            }
        }
        let ghost before = r@;
        assert(forall|q: u64| before.contains(q) ==> db@.contains_key(q));
        r.push(*k);
        proof {
            assert forall|q: u64| r@.contains(q) implies db@.contains_key(q) by {
                let a = choose|a: int| 0 <= a < r@.len() && r@[a] == q;
                if a < before.len() {
                    assert(before[a] == q);
                    assert(before.contains(q));
                } else {
                    assert(r@[a] == *k);
                }
            }
            assert forall|q: u64| db@.contains_key(q) implies r@.contains(q)
                || exists|j: int| it.index() + 1 <= j < it.seq().len() && *it.seq()[j] == q by {
                if !before.contains(q) {
                    let j = choose|j: int| it.index() <= j < it.seq().len() && *it.seq()[j] == q;
                    if j == it.index() {
                        assert(r@[r@.len() - 1] == q);
                    }
                } else {
                    let a = choose|a: int| 0 <= a < before.len() && before[a] == q;
                    assert(r@[a] == q);
                }
            }
        }
    }
    r
}

/// A price seen to change in a scrape: the listing as it stood before, and
/// its price then.
#[derive(Clone, Debug)]
pub struct PriceChange {
    pub listing: MotorcycleListing,
    pub old_price: u32,
}

/// What a merge found.
#[derive(Clone, Debug)]
pub struct StoreSummary {
    pub new: Vec<MotorcycleListing>,
    pub updated: usize,
    pub sold: Vec<MotorcycleListing>,
    pub relisted: Vec<MotorcycleListing>,
    pub price_changes: Vec<PriceChange>,
    pub total_tracked: usize,
}

/// Whether some scraped listing has ad ID `k`.
pub open spec fn id_in(scraped: Seq<MotorcycleListing>, k: u64) -> bool {
    exists|i: int| 0 <= i < scraped.len() && (#[trigger] scraped[i]).listing_id == k
}

/// Whether some scraped listing is in category `c`.
pub open spec fn category_in(scraped: Seq<MotorcycleListing>, c: Seq<char>) -> bool {
    exists|i: int| 0 <= i < scraped.len() && (#[trigger] scraped[i]).category@ == c
}

/// Whether the stored listing `k` may be the earlier advert of a bike with
/// fingerprint `fp`: it has that fingerprint and is not itself in the scrape.
pub open spec fn may_precede(db0: Map<u64, MotorcycleListing>, scraped: Seq<MotorcycleListing>, fp: Seq<char>, k: u64) -> bool {
    &&& db0.contains_key(k)
    &&& db0[k].fingerprint@ == fp
    &&& !id_in(scraped, k)
}

/// The stored listing that a new advert with fingerprint `fp` relists: the
/// only stored listing with that fingerprint that is absent from the scrape.
/// With none, or with several (an ambiguous case), there is none.
pub open spec fn relist_source(db0: Map<u64, MotorcycleListing>, scraped: Seq<MotorcycleListing>, fp: Seq<char>) -> Option<u64> {
    if exists|k: u64| #[trigger] may_precede(db0, scraped, fp, k)
        && forall|k2: u64| #[trigger] may_precede(db0, scraped, fp, k2) ==> k2 == k {
        Some(choose|k: u64| #[trigger] may_precede(db0, scraped, fp, k)
            && forall|k2: u64| #[trigger] may_precede(db0, scraped, fp, k2) ==> k2 == k)
    } else {
        None
    }
}

/// A stored listing seen again in scrape entry `s`: last seen, price, seller
/// type and seller name come from the scrape, and it is active again.
pub open spec fn refreshed(e: MotorcycleListing, s: MotorcycleListing) -> MotorcycleListing {
    MotorcycleListing {
        last_seen: s.last_seen,
        price_chf: s.price_chf,
        status: ListingStatus::Active,
        is_private: s.is_private,
        seller_name: s.seller_name,
        ..e
    }
}

/// A scrape entry stored for the first time: as scraped, or marked as the
/// relist of `source`.
pub open spec fn admitted(s: MotorcycleListing, source: Option<u64>) -> MotorcycleListing {
    match source {
        Some(p) => MotorcycleListing { status: ListingStatus::Relisted, previous_listing_id: Some(p), ..s },
        None => s,
    }
}

/// The table after taking in scrape entry `s`.
pub open spec fn absorb(
    m: Map<u64, MotorcycleListing>,
    s: MotorcycleListing,
    db0: Map<u64, MotorcycleListing>,
    scraped: Seq<MotorcycleListing>,
) -> Map<u64, MotorcycleListing> {
    if m.contains_key(s.listing_id) {
        m.insert(s.listing_id, refreshed(m[s.listing_id], s))
    } else {
        m.insert(s.listing_id, admitted(s, relist_source(db0, scraped, s.fingerprint@)))
    }
}

/// The table after taking in the first `n` scrape entries, in order.
pub open spec fn absorb_first(db0: Map<u64, MotorcycleListing>, scraped: Seq<MotorcycleListing>, n: nat) -> Map<u64, MotorcycleListing>
    decreases n,
{
    if n == 0 {
        db0
    } else {
        absorb(absorb_first(db0, scraped, (n - 1) as nat), scraped[n - 1], db0, scraped)
    }
}

/// Whether a stored listing is now sold: it was active, its category was
/// scraped, and the scrape no longer holds it.
pub open spec fn goes_sold(l: MotorcycleListing, scraped: Seq<MotorcycleListing>) -> bool {
    &&& l.status == ListingStatus::Active
    &&& category_in(scraped, l.category@)
    &&& !id_in(scraped, l.listing_id)
}

pub open spec fn settled(l: MotorcycleListing, scraped: Seq<MotorcycleListing>) -> MotorcycleListing {
    if goes_sold(l, scraped) {
        MotorcycleListing { status: ListingStatus::Sold, ..l }
    } else {
        l
    }
}

/// The listing table after a merge of `scraped` into `db0`.
pub open spec fn merged(db0: Map<u64, MotorcycleListing>, scraped: Seq<MotorcycleListing>) -> Map<u64, MotorcycleListing> {
    let m = absorb_first(db0, scraped, scraped.len());
    Map::new(|k: u64| m.contains_key(k), |k: u64| settled(m[k], scraped))
}

/// Whether entry `n` of the scrape meets a listing already in the table.
pub open spec fn meets_stored(db0: Map<u64, MotorcycleListing>, scraped: Seq<MotorcycleListing>, n: nat) -> bool {
    absorb_first(db0, scraped, n).contains_key(scraped[n as int].listing_id)
}

/// The new listings among the first `n` scrape entries, in scrape order.
pub open spec fn new_first(db0: Map<u64, MotorcycleListing>, scraped: Seq<MotorcycleListing>, n: nat) -> Seq<MotorcycleListing>
    decreases n,
{
    if n == 0 {
        Seq::empty()
    } else {
        let prev = new_first(db0, scraped, (n - 1) as nat);
        let s = scraped[n - 1];
        if !meets_stored(db0, scraped, (n - 1) as nat) && relist_source(db0, scraped, s.fingerprint@) is None {
            prev.push(s)
        } else {
            prev
        }
    }
}

/// The relists among the first `n` scrape entries, in scrape order.
pub open spec fn relisted_first(db0: Map<u64, MotorcycleListing>, scraped: Seq<MotorcycleListing>, n: nat) -> Seq<MotorcycleListing>
    decreases n,
{
    if n == 0 {
        Seq::empty()
    } else {
        let prev = relisted_first(db0, scraped, (n - 1) as nat);
        let s = scraped[n - 1];
        let src = relist_source(db0, scraped, s.fingerprint@);
        if !meets_stored(db0, scraped, (n - 1) as nat) && src is Some {
            prev.push(admitted(s, src))
        } else {
            prev
        }
    }
}

/// How many of the first `n` scrape entries met a stored listing.
pub open spec fn updated_first(db0: Map<u64, MotorcycleListing>, scraped: Seq<MotorcycleListing>, n: nat) -> nat
    decreases n,
{
    if n == 0 {
        0
    } else {
        updated_first(db0, scraped, (n - 1) as nat) + if meets_stored(db0, scraped, (n - 1) as nat) { 1nat } else { 0nat }
    }
}

/// The price changes among the first `n` scrape entries: entries meeting a
/// stored listing at another price, with the listing as it stood.
pub open spec fn changes_first(db0: Map<u64, MotorcycleListing>, scraped: Seq<MotorcycleListing>, n: nat) -> Seq<PriceChange>
    decreases n,
{
    if n == 0 {
        Seq::empty()
    } else {
        let prev = changes_first(db0, scraped, (n - 1) as nat);
        let m = absorb_first(db0, scraped, (n - 1) as nat);
        let s = scraped[n - 1];
        if m.contains_key(s.listing_id) && m[s.listing_id].price_chf != s.price_chf {
            prev.push(PriceChange { listing: m[s.listing_id], old_price: m[s.listing_id].price_chf })
        } else {
            prev
        }
    }
}

/// Whether some scraped listing has ad ID `k`.
pub fn scraped_has_id(scraped: &Vec<MotorcycleListing>, k: u64) -> (r: bool)
    ensures
        r == id_in(scraped@, k),
{
    let mut i: usize = 0;
    while i < scraped.len()
        invariant
            i <= scraped.len(),
            forall|j: int| 0 <= j < i ==> (#[trigger] scraped@[j]).listing_id != k,
        decreases scraped.len() - i,
    {
        if scraped[i].listing_id == k {
            assert(scraped@[i as int].listing_id == k);
            return true;
        }
        i = i + 1;
    }
    false
}

/// Whether `c` is among `cats`.
pub fn has_category(cats: &Vec<String>, c: &String) -> (r: bool)
    ensures
        r == exists|j: int| 0 <= j < cats.len() && (#[trigger] cats@[j])@ == c@,
{
    let mut i: usize = 0;
    while i < cats.len()
        invariant
            i <= cats.len(),
            forall|j: int| 0 <= j < i ==> (#[trigger] cats@[j])@ != c@,
        decreases cats.len() - i,
    {
        if cats[i] == *c {
            assert(cats@[i as int]@ == c@);
            return true;
        }
        i = i + 1;
    }
    false
}

/// Whether one of the first `n` scraped listings is in category `c`.
pub open spec fn category_in_first(scraped: Seq<MotorcycleListing>, n: int, c: Seq<char>) -> bool {
    exists|q: int| 0 <= q < n && (#[trigger] scraped[q]).category@ == c
}

/// Whether `c` is one of the strings of `v`.
pub open spec fn listed(v: Seq<String>, c: Seq<char>) -> bool {
    exists|j: int| 0 <= j < v.len() && (#[trigger] v[j])@ == c
}

/// The categories of the scraped listings, each once, in order of first appearance.
pub fn scraped_categories(scraped: &Vec<MotorcycleListing>) -> (r: Vec<String>)
    ensures
        forall|c: Seq<char>| #[trigger] category_in(scraped@, c) <==> listed(r@, c),
        forall|a: int, b: int| 0 <= a < b < r.len() ==> (#[trigger] r@[a])@ != (#[trigger] r@[b])@,
{
    let mut out: Vec<String> = Vec::new();
    let mut i: usize = 0;
    while i < scraped.len()
        invariant
            i <= scraped.len(),
            forall|c: Seq<char>| #[trigger] category_in_first(scraped@, i as int, c) <==> listed(out@, c),
            forall|a: int, b: int| 0 <= a < b < out.len() ==> (#[trigger] out@[a])@ != (#[trigger] out@[b])@,
        decreases scraped.len() - i,
    {
        let c = scraped[i].category.clone();
        let ghost before = out@;
        let present = has_category(&out, &c);
        if !present {
            out.push(c);
            assert(out@[out.len() - 1] == c);
        }
        proof {
            assert forall|d: Seq<char>| #[trigger] category_in_first(scraped@, i + 1, d) <==> listed(out@, d) by {
                if category_in_first(scraped@, i + 1, d) {
                    let q = choose|q: int| 0 <= q < i + 1 && (#[trigger] scraped@[q]).category@ == d;
                    if q == i {
                        if present {
                            let j = choose|j: int| 0 <= j < before.len() && (#[trigger] before[j])@ == d;
                            assert(out@[j] == before[j]);
                        } else {
                            assert(out@[out.len() - 1]@ == d);
                        }
                    } else {
                        assert(category_in_first(scraped@, i as int, d));
                        let j = choose|j: int| 0 <= j < before.len() && (#[trigger] before[j])@ == d;
                        assert(out@[j] == before[j]);
                    }
                }
                if listed(out@, d) {
                    let j = choose|j: int| 0 <= j < out.len() && (#[trigger] out@[j])@ == d;
                    if j < before.len() {
                        assert(before[j] == out@[j]);
                        assert(listed(before, d));
                        assert(category_in_first(scraped@, i as int, d));
                        let q = choose|q: int| 0 <= q < i && (#[trigger] scraped@[q]).category@ == d;
                    } else {
                        assert(scraped@[i as int].category@ == d);
                    }
                }
            }
            assert forall|a: int, b: int| 0 <= a < b < out.len() implies (#[trigger] out@[a])@ != (#[trigger] out@[b])@ by {
                if b == before.len() {
                    assert(out@[a] == before[a]);
                }
            }
        }
        i = i + 1;
    }
    proof {
        assert forall|c: Seq<char>| #[trigger] category_in(scraped@, c) <==> listed(out@, c) by {
            assert(category_in(scraped@, c) <==> category_in_first(scraped@, scraped.len() as int, c));
        }
    }
    out
}

/// The stored listings that a new advert could relist: every stored listing
/// absent from the scrape, with its fingerprint.
pub fn relist_pool(db: &HashMap<u64, MotorcycleListing>, scraped: &Vec<MotorcycleListing>) -> (r: Vec<(u64, String)>)
    ensures
        forall|j: int| 0 <= j < r.len() ==> {
            &&& db@.contains_key((#[trigger] r@[j]).0)
            &&& r@[j].1@ == db@[r@[j].0].fingerprint@
            &&& !id_in(scraped@, r@[j].0)
        },
        forall|k: u64| db@.contains_key(k) && !id_in(scraped@, k) ==> exists|j: int| 0 <= j < r.len() && (#[trigger] r@[j]).0 == k,
        forall|a: int, b: int| 0 <= a < b < r.len() ==> (#[trigger] r@[a]).0 != (#[trigger] r@[b]).0,
{
    let keys = key_list(db);
    let mut out: Vec<(u64, String)> = Vec::new();
    let mut i: usize = 0;
    while i < keys.len()
        invariant
            i <= keys.len(),
            forall|k: u64| db@.contains_key(k) <==> keys@.contains(k),
            keys@.no_duplicates(),
            forall|j: int| 0 <= j < out.len() ==> {
                &&& db@.contains_key((#[trigger] out@[j]).0)
                &&& out@[j].1@ == db@[out@[j].0].fingerprint@
                &&& !id_in(scraped@, out@[j].0)
                &&& exists|q: int| 0 <= q < i && keys@[q] == out@[j].0
            },
            forall|q: int| 0 <= q < i && !id_in(scraped@, #[trigger] keys@[q]) ==> exists|j: int| 0 <= j < out.len() && (#[trigger] out@[j]).0 == keys@[q],
            forall|a: int, b: int| 0 <= a < b < out.len() ==> (#[trigger] out@[a]).0 != (#[trigger] out@[b]).0,
        decreases keys.len() - i,
    {
        let k = keys[i];
        assert(keys@.contains(k));
        if !scraped_has_id(scraped, k) {
            let fp = match db.get(&k) {
                Some(l) => l.fingerprint.clone(),
                None => String::new(),
            };
            let ghost before = out@;
            proof {
                assert forall|j: int| 0 <= j < before.len() implies before[j].0 != k by {
                    let q = choose|q: int| 0 <= q < i && keys@[q] == before[j].0;
                    assert(keys@[q] != keys@[i as int]);
                }
            }
            out.push((k, fp));
            proof {
                assert forall|q: int| 0 <= q < i + 1 && !id_in(scraped@, #[trigger] keys@[q]) implies exists|j: int| 0 <= j < out.len() && (#[trigger] out@[j]).0 == keys@[q] by {
                    if q == i {
                        assert(out@[out.len() - 1].0 == keys@[q]);
                    } else {
                        let j = choose|j: int| 0 <= j < before.len() && (#[trigger] before[j]).0 == keys@[q];
                        assert(out@[j] == before[j]);
                    }
                }
                assert forall|j: int| 0 <= j < out.len() implies exists|q: int| 0 <= q < i + 1 && keys@[q] == (#[trigger] out@[j]).0 by {
                    if j < before.len() {
                        assert(out@[j] == before[j]);
                        let q = choose|q: int| 0 <= q < i && keys@[q] == before[j].0;
                    } else {
                        assert(keys@[i as int] == out@[j].0);
                    }
                }
            }
        }
        i = i + 1;
    }
    proof {
        assert forall|k: u64| db@.contains_key(k) && !id_in(scraped@, k) implies exists|j: int| 0 <= j < out.len() && (#[trigger] out@[j]).0 == k by {
            assert(keys@.contains(k));
            let q = choose|q: int| 0 <= q < keys.len() && keys@[q] == k;
            assert(!id_in(scraped@, keys@[q]));
        }
    }
    out
}

/// Whether `pool` holds exactly the stored listings that are absent from the
/// scrape, each once, with their fingerprints.
pub open spec fn pool_of(pool: Seq<(u64, String)>, db0: Map<u64, MotorcycleListing>, scraped: Seq<MotorcycleListing>) -> bool {
    &&& forall|j: int| 0 <= j < pool.len() ==> {
        &&& db0.contains_key((#[trigger] pool[j]).0)
        &&& pool[j].1@ == db0[pool[j].0].fingerprint@
        &&& !id_in(scraped, pool[j].0)
    }
    &&& forall|k: u64| db0.contains_key(k) && !id_in(scraped, k) ==> exists|j: int| 0 <= j < pool.len() && (#[trigger] pool[j]).0 == k
    &&& forall|a: int, b: int| 0 <= a < b < pool.len() ==> (#[trigger] pool[a]).0 != (#[trigger] pool[b]).0
}

/// The stored listing that a new advert with fingerprint `fp` relists, if any.
fn find_relist_source(
    pool: &Vec<(u64, String)>,
    fp: &String,
    Ghost(db0): Ghost<Map<u64, MotorcycleListing>>,
    Ghost(scraped): Ghost<Seq<MotorcycleListing>>,
) -> (r: Option<u64>)
    requires
        pool_of(pool@, db0, scraped),
    ensures
        r == relist_source(db0, scraped, fp@),
{
    let mut first: Option<usize> = None;
    let mut ambiguous = false;
    let mut i: usize = 0;
    while i < pool.len()
        invariant
            pool_of(pool@, db0, scraped),
            i <= pool.len(),
            !ambiguous && first is None ==> forall|q: int| 0 <= q < i ==> (#[trigger] pool@[q]).1@ != fp@,
            !ambiguous && first is Some ==> {
                let f = first->0 as int;
                &&& 0 <= f < i
                &&& pool@[f].1@ == fp@
                &&& forall|q: int| 0 <= q < i && q != f ==> (#[trigger] pool@[q]).1@ != fp@
            },
            ambiguous ==> exists|a: int, b: int| 0 <= a < b < pool.len() && (#[trigger] pool@[a]).1@ == fp@ && (#[trigger] pool@[b]).1@ == fp@,
        decreases pool.len() - i,
    {
        if pool[i].1 == *fp {
            match first {
                None => {
                    first = Some(i);
                },
                Some(f) => {
                    if !ambiguous {
                        assert(pool@[f as int].1@ == fp@ && pool@[i as int].1@ == fp@);
                    }
                    ambiguous = true;
                },
            }
        }
        i = i + 1;
    }
    if ambiguous {
        proof {
            let (a, b) = choose|a: int, b: int| 0 <= a < b < pool.len() && (#[trigger] pool@[a]).1@ == fp@ && (#[trigger] pool@[b]).1@ == fp@;
            let ka = pool@[a].0;
            let kb = pool@[b].0;
            assert(may_precede(db0, scraped, fp@, ka));
            assert(may_precede(db0, scraped, fp@, kb));
            assert(ka != kb);
            assert(!(exists|k: u64| #[trigger] may_precede(db0, scraped, fp@, k)
                && forall|k2: u64| #[trigger] may_precede(db0, scraped, fp@, k2) ==> k2 == k));
        }
        None
    } else {
        match first {
            None => {
                proof {
                    assert forall|k: u64| !#[trigger] may_precede(db0, scraped, fp@, k) by {
                        if may_precede(db0, scraped, fp@, k) {
                            let j = choose|j: int| 0 <= j < pool.len() && (#[trigger] pool@[j]).0 == k;
                            assert(pool@[j].1@ == fp@);
                        }
                    }
                }
                None
            },
            Some(f) => {
                let k = pool[f].0;
                proof {
                    assert(may_precede(db0, scraped, fp@, k));
                    assert forall|k2: u64| #[trigger] may_precede(db0, scraped, fp@, k2) implies k2 == k by {
                        let j = choose|j: int| 0 <= j < pool.len() && (#[trigger] pool@[j]).0 == k2;
                        assert(pool@[j].1@ == fp@);
                        assert(j == f);
                    }
                    let c = choose|c: u64| #[trigger] may_precede(db0, scraped, fp@, c)
                        && forall|k2: u64| #[trigger] may_precede(db0, scraped, fp@, k2) ==> k2 == c;
                    assert(c == k);
                }
                Some(k)
            },
        }
    }
}

/// What taking in a scrape yields besides the table: the new listings, the
/// relists, how many entries met a stored listing, and the price changes.
pub struct Absorbed {
    pub new: Vec<MotorcycleListing>,
    pub relisted: Vec<MotorcycleListing>,
    pub updated: usize,
    pub price_changes: Vec<PriceChange>,
}

/// Takes the scraped listings into the table one by one, in scrape order.
fn absorb_scraped(db: &mut HashMap<u64, MotorcycleListing>, scraped: &Vec<MotorcycleListing>, pool: &Vec<(u64, String)>) -> (r: Absorbed)
    requires
        pool_of(pool@, old(db)@, scraped@),
    ensures
        final(db)@ == absorb_first(old(db)@, scraped@, scraped.len() as nat),
        r.new@ == new_first(old(db)@, scraped@, scraped.len() as nat),
        r.relisted@ == relisted_first(old(db)@, scraped@, scraped.len() as nat),
        r.updated == updated_first(old(db)@, scraped@, scraped.len() as nat),
        r.price_changes@ == changes_first(old(db)@, scraped@, scraped.len() as nat),
{
    let ghost db0 = db@;
    let mut new: Vec<MotorcycleListing> = Vec::new();
    let mut relisted: Vec<MotorcycleListing> = Vec::new();
    let mut updated: usize = 0;
    let mut changes: Vec<PriceChange> = Vec::new();
    let mut i: usize = 0;
    while i < scraped.len()
        invariant
            i <= scraped.len(),
            db0 == old(db)@,
            pool_of(pool@, db0, scraped@),
            db@ == absorb_first(db0, scraped@, i as nat),
            new@ == new_first(db0, scraped@, i as nat),
            relisted@ == relisted_first(db0, scraped@, i as nat),
            updated == updated_first(db0, scraped@, i as nat),
            updated <= i,
            changes@ == changes_first(db0, scraped@, i as nat),
        decreases scraped.len() - i,
    {
        let s = scraped[i].duplicate();
        let id = s.listing_id;
        let found = match db.get(&id) {
            Some(e) => Some(e.duplicate()),
            None => None,
        };
        match found {
            Some(e) => {
                if s.price_chf != e.price_chf {
                    let old_price = e.price_chf;
                    changes.push(PriceChange { listing: e.duplicate(), old_price });
                }
                let upd = MotorcycleListing {
                    last_seen: s.last_seen,
                    price_chf: s.price_chf,
                    status: ListingStatus::Active,
                    is_private: s.is_private,
                    seller_name: s.seller_name,
                    ..e
                };
                db.insert(id, upd);
                updated = updated + 1;
            },
            None => {
                let src = find_relist_source(pool, &s.fingerprint, Ghost(db0), Ghost(scraped@));
                match src {
                    Some(p) => {
                        let mut l = s;
                        l.status = ListingStatus::Relisted;
                        l.previous_listing_id = Some(p);
                        relisted.push(l.duplicate());
                        db.insert(id, l);
                    },
                    None => {
                        new.push(s.duplicate());
                        db.insert(id, s);
                    },
                }
            },
        }
        i = i + 1;
    }
    Absorbed { new, relisted, updated, price_changes: changes }
}

/// Whether every listing of the table is stored under its own ad ID.
pub open spec fn keyed_by_id(m: Map<u64, MotorcycleListing>) -> bool {
    forall|k: u64| m.contains_key(k) ==> (#[trigger] m[k]).listing_id == k
}

/// Whether `sold` lists exactly the listings of `m` that are now sold, each
/// once, as they stand once marked sold.
pub open spec fn sold_from(sold: Seq<MotorcycleListing>, m: Map<u64, MotorcycleListing>, scraped: Seq<MotorcycleListing>) -> bool {
    &&& forall|i: int| 0 <= i < sold.len() ==> {
        &&& m.contains_key((#[trigger] sold[i]).listing_id)
        &&& goes_sold(m[sold[i].listing_id], scraped)
        &&& sold[i] == settled(m[sold[i].listing_id], scraped)
    }
    &&& forall|k: u64| m.contains_key(k) && goes_sold(m[k], scraped) ==> exists|i: int| 0 <= i < sold.len() && (#[trigger] sold[i]).listing_id == k
    &&& forall|a: int, b: int| 0 <= a < b < sold.len() ==> (#[trigger] sold[a]).listing_id != (#[trigger] sold[b]).listing_id
}

/// Marks as sold every active listing of a scraped category that the scrape
/// no longer holds, and returns those listings.
fn mark_sold(db: &mut HashMap<u64, MotorcycleListing>, scraped: &Vec<MotorcycleListing>, cats: &Vec<String>) -> (sold: Vec<MotorcycleListing>)
    requires
        forall|c: Seq<char>| #[trigger] category_in(scraped@, c) <==> listed(cats@, c),
        keyed_by_id(old(db)@),
    ensures
        final(db)@ == Map::new(|k: u64| old(db)@.contains_key(k), |k: u64| settled(old(db)@[k], scraped@)),
        sold_from(sold@, old(db)@, scraped@),
{
    let ghost m0 = db@;
    let keys = key_list(db);
    let mut sold: Vec<MotorcycleListing> = Vec::new();
    let mut i: usize = 0;
    while i < keys.len()
        invariant
            m0 == old(db)@,
            keyed_by_id(m0),
            i <= keys.len(),
            forall|k: u64| m0.contains_key(k) <==> keys@.contains(k),
            keys@.no_duplicates(),
            forall|c: Seq<char>| #[trigger] category_in(scraped@, c) <==> listed(cats@, c),
            db@.dom() == m0.dom(),
            forall|q: int| 0 <= q < i ==> db@[#[trigger] keys@[q]] == settled(m0[keys@[q]], scraped@),
            forall|k: u64| db@.contains_key(k) && !keys@.take(i as int).contains(k) ==> db@[k] == m0[k],
            forall|j: int| 0 <= j < sold.len() ==> {
                &&& m0.contains_key((#[trigger] sold@[j]).listing_id)
                &&& goes_sold(m0[sold@[j].listing_id], scraped@)
                &&& sold@[j] == settled(m0[sold@[j].listing_id], scraped@)
                &&& keys@.take(i as int).contains(sold@[j].listing_id)
            },
            forall|q: int| 0 <= q < i && goes_sold(m0[#[trigger] keys@[q]], scraped@) ==> exists|j: int| 0 <= j < sold.len() && (#[trigger] sold@[j]).listing_id == keys@[q],
            forall|a: int, b: int| 0 <= a < b < sold.len() ==> (#[trigger] sold@[a]).listing_id != (#[trigger] sold@[b]).listing_id,
        decreases keys.len() - i,
    {
        let k = keys[i];
        assert(keys@.contains(k));
        assert(!keys@.take(i as int).contains(k)) by {
            if keys@.take(i as int).contains(k) {
                let q = choose|q: int| 0 <= q < i && keys@.take(i as int)[q] == k;
                assert(keys@[q] == keys@[i as int]);
            }
        }
        assert(keys@.take(i + 1) =~= keys@.take(i as int).push(k));
        let e = match db.get(&k) {
            Some(l) => l.duplicate(),
            None => MotorcycleListing::new(k, 0, String::new(), String::new(), 0, 0, 0, String::new(), String::new(), String::new(), false, String::new()),
        };
        assert(e == m0[k]);
        let active = e.status == ListingStatus::Active;
        let ghost before = sold@;
        let ghost pushed = false;
        if active && has_category(cats, &e.category) && !scraped_has_id(scraped, k) {
            assert(category_in(scraped@, e.category@));
            assert(goes_sold(m0[k], scraped@));
            let gone = MotorcycleListing { status: ListingStatus::Sold, ..e };
            sold.push(gone.duplicate());
            db.insert(k, gone);
            proof {
                pushed = true;
                assert forall|a: int, b: int| 0 <= a < b < sold.len() implies (#[trigger] sold@[a]).listing_id != (#[trigger] sold@[b]).listing_id by {
                    if b == before.len() {
                        assert(sold@[a] == before[a]);
                        assert(keys@.take(i as int).contains(before[a].listing_id));
                    } else {
                        assert(sold@[a] == before[a]);
                        assert(sold@[b] == before[b]);
                    }
                }
                assert(db@[k] == settled(m0[k], scraped@));
            }
        } else {
            proof {
                if active && category_in(scraped@, e.category@) && !id_in(scraped@, k) {
                    assert(listed(cats@, e.category@));
                }
            }
            db.insert(k, e);
            assert(!goes_sold(m0[k], scraped@));
            assert(db@[k] == settled(m0[k], scraped@));
        }
        proof {
            assert(pushed <==> goes_sold(m0[k], scraped@));
            assert(!pushed ==> sold@ == before);
            assert forall|q: int| 0 <= q < i + 1 implies db@[#[trigger] keys@[q]] == settled(m0[keys@[q]], scraped@) by {
                if q < i {
                    assert(keys@[q] != k);
                }
            }
            assert forall|q: int| 0 <= q < i + 1 && goes_sold(m0[#[trigger] keys@[q]], scraped@) implies exists|j: int| 0 <= j < sold.len() && (#[trigger] sold@[j]).listing_id == keys@[q] by {
                if q == i {
                    assert(pushed);
                    assert(sold@[sold.len() - 1].listing_id == k);
                } else {
                    let j = choose|j: int| 0 <= j < before.len() && (#[trigger] before[j]).listing_id == keys@[q];
                    assert(sold@[j] == before[j]);
                }
            }
            assert forall|j: int| 0 <= j < sold.len() implies keys@.take(i + 1).contains((#[trigger] sold@[j]).listing_id) by {
                if j < before.len() {
                    assert(sold@[j] == before[j]);
                    assert(keys@.take(i as int).contains(before[j].listing_id));
                    let q = choose|q: int| 0 <= q < i && keys@.take(i as int)[q] == before[j].listing_id;
                    assert(keys@.take(i + 1)[q] == before[j].listing_id);
                } else {
                    assert(keys@.take(i + 1)[i as int] == k);
                }
            }
        }
        i = i + 1;
    }
    proof {
        assert(keys@.take(keys.len() as int) =~= keys@);
        assert(db@ =~= Map::new(|k: u64| m0.contains_key(k), |k: u64| settled(m0[k], scraped@))) by {
            assert forall|k: u64| db@.contains_key(k) implies db@[k] == settled(m0[k], scraped@) by {
                assert(keys@.contains(k));
                let q = choose|q: int| 0 <= q < keys.len() && keys@[q] == k;
            }
        }
        assert forall|k: u64| m0.contains_key(k) && goes_sold(m0[k], scraped@) implies exists|i: int| 0 <= i < sold.len() && (#[trigger] sold@[i]).listing_id == k by {
            assert(keys@.contains(k));
            let q = choose|q: int| 0 <= q < keys.len() && keys@[q] == k;
            assert(goes_sold(m0[keys@[q]], scraped@));
        }
    }
    sold
}

/// Taking in scrape entries keeps every listing stored under its own ad ID.
pub proof fn lemma_absorb_keyed(db0: Map<u64, MotorcycleListing>, scraped: Seq<MotorcycleListing>, n: nat)
    requires
        keyed_by_id(db0),
        n <= scraped.len(),
    ensures
        keyed_by_id(absorb_first(db0, scraped, n)),
    decreases n,
{
    if n > 0 {
        lemma_absorb_keyed(db0, scraped, (n - 1) as nat);
    }
}

/// Merges a scrape into the listing table.
///
/// Each scraped listing is taken in, in scrape order: one already stored is
/// refreshed (last seen, price, seller type and name; active again), and a
/// price that differs from the stored one is reported as a price change; one
/// not yet stored is added, as the relist of a stored listing when exactly one
/// stored listing absent from the scrape has its fingerprint, and as new
/// otherwise. Then every active stored listing of a scraped category that the
/// scrape no longer holds is marked sold. Scores are not touched here.
pub fn merge_scraped(db: &mut HashMap<u64, MotorcycleListing>, scraped: Vec<MotorcycleListing>) -> (r: StoreSummary)
    requires
        keyed_by_id(old(db)@),
    ensures
        final(db)@ == merged(old(db)@, scraped@),
        keyed_by_id(final(db)@),
        r.new@ == new_first(old(db)@, scraped@, scraped.len() as nat),
        r.relisted@ == relisted_first(old(db)@, scraped@, scraped.len() as nat),
        r.updated == updated_first(old(db)@, scraped@, scraped.len() as nat),
        r.price_changes@ == changes_first(old(db)@, scraped@, scraped.len() as nat),
        sold_from(r.sold@, absorb_first(old(db)@, scraped@, scraped.len() as nat), scraped@),
        r.total_tracked == final(db)@.len(),
{
    let ghost db0 = db@;
    let pool = relist_pool(db, &scraped);
    let cats = scraped_categories(&scraped);
    let absorbed = absorb_scraped(db, &scraped, &pool);
    proof {
        lemma_absorb_keyed(db0, scraped@, scraped.len() as nat);
    }
    let sold = mark_sold(db, &scraped, &cats);
    proof {
        let m = absorb_first(db0, scraped@, scraped.len() as nat);
        assert(db@ =~= merged(db0, scraped@));
        assert forall|k: u64| db@.contains_key(k) implies (#[trigger] db@[k]).listing_id == k by {
            assert(m.contains_key(k));
        }
    }
    let total_tracked = db.len();
    StoreSummary {
        new: absorbed.new,
        updated: absorbed.updated,
        sold,
        relisted: absorbed.relisted,
        price_changes: absorbed.price_changes,
        total_tracked,
    }
}

/// The active listings of category `cat`, each once.
pub fn active_in_category(db: &HashMap<u64, MotorcycleListing>, cat: &String) -> (r: Vec<MotorcycleListing>)
    requires
        keyed_by_id(db@),
    ensures
        forall|i: int| 0 <= i < r.len() ==> {
            &&& db@.contains_key((#[trigger] r@[i]).listing_id)
            &&& r@[i] == db@[r@[i].listing_id]
            &&& r@[i].category@ == cat@
            &&& r@[i].status == ListingStatus::Active
        },
        forall|k: u64| db@.contains_key(k) && db@[k].category@ == cat@ && db@[k].status == ListingStatus::Active
            ==> exists|i: int| 0 <= i < r.len() && (#[trigger] r@[i]).listing_id == k,
        forall|a: int, b: int| 0 <= a < b < r.len() ==> (#[trigger] r@[a]).listing_id != (#[trigger] r@[b]).listing_id,
{
    let keys = key_list(db);
    let mut out: Vec<MotorcycleListing> = Vec::new();
    let mut i: usize = 0;
    while i < keys.len()
        invariant
            keyed_by_id(db@),
            i <= keys.len(),
            forall|k: u64| db@.contains_key(k) <==> keys@.contains(k),
            keys@.no_duplicates(),
            forall|j: int| 0 <= j < out.len() ==> {
                &&& db@.contains_key((#[trigger] out@[j]).listing_id)
                &&& out@[j] == db@[out@[j].listing_id]
                &&& out@[j].category@ == cat@
                &&& out@[j].status == ListingStatus::Active
                &&& keys@.take(i as int).contains(out@[j].listing_id)
            },
            forall|q: int| 0 <= q < i && db@[#[trigger] keys@[q]].category@ == cat@ && db@[keys@[q]].status == ListingStatus::Active
                ==> exists|j: int| 0 <= j < out.len() && (#[trigger] out@[j]).listing_id == keys@[q],
            forall|a: int, b: int| 0 <= a < b < out.len() ==> (#[trigger] out@[a]).listing_id != (#[trigger] out@[b]).listing_id,
        decreases keys.len() - i,
    {
        let k = keys[i];
        assert(keys@.contains(k));
        assert(!keys@.take(i as int).contains(k)) by {
            if keys@.take(i as int).contains(k) {
                let q = choose|q: int| 0 <= q < i && keys@.take(i as int)[q] == k;
                assert(keys@[q] == keys@[i as int]);
            }
        }
        assert(keys@.take(i + 1) =~= keys@.take(i as int).push(k));
        let ghost before = out@;
        let ghost pushed = false;
        match db.get(&k) {
            Some(l) => {
                if l.status == ListingStatus::Active && l.category == *cat {
                    out.push(l.duplicate());
                    proof {
                        pushed = true;
                        assert forall|a: int, b: int| 0 <= a < b < out.len() implies (#[trigger] out@[a]).listing_id != (#[trigger] out@[b]).listing_id by {
                            assert(out@[a] == before[a]);
                            if b == before.len() {
                                assert(keys@.take(i as int).contains(before[a].listing_id));
                            } else {
                                assert(out@[b] == before[b]);
                            }
                        }
                    }
                }
            },
            None => {},
        }
        proof {
            assert(pushed <==> (db@[k].category@ == cat@ && db@[k].status == ListingStatus::Active));
            assert(!pushed ==> out@ == before);
            assert forall|j: int| 0 <= j < out.len() implies keys@.take(i + 1).contains((#[trigger] out@[j]).listing_id) by {
                if j < before.len() {
                    assert(out@[j] == before[j]);
                    let q = choose|q: int| 0 <= q < i && keys@.take(i as int)[q] == before[j].listing_id;
                    assert(keys@.take(i + 1)[q] == before[j].listing_id);
                } else {
                    assert(keys@.take(i + 1)[i as int] == k);
                }
            }
            assert forall|q: int| 0 <= q < i + 1 && db@[#[trigger] keys@[q]].category@ == cat@ && db@[keys@[q]].status == ListingStatus::Active
                implies exists|j: int| 0 <= j < out.len() && (#[trigger] out@[j]).listing_id == keys@[q] by {
                if q == i {
                    assert(out@[out.len() - 1].listing_id == k);
                } else {
                    let j = choose|j: int| 0 <= j < before.len() && (#[trigger] before[j]).listing_id == keys@[q];
                    assert(out@[j] == before[j]);
                }
            }
        }
        i = i + 1;
    }
    proof {
        assert forall|k: u64| db@.contains_key(k) && db@[k].category@ == cat@ && db@[k].status == ListingStatus::Active
            implies exists|i: int| 0 <= i < out.len() && (#[trigger] out@[i]).listing_id == k by {
            assert(keys@.contains(k));
            let q = choose|q: int| 0 <= q < keys.len() && keys@[q] == k;
            assert(db@[keys@[q]].category@ == cat@);
        }
    }
    out
}

/// `l` with the score, label and peer count of `g`.
pub open spec fn with_scores_of(l: MotorcycleListing, g: MotorcycleListing) -> MotorcycleListing {
    MotorcycleListing { price_score: g.price_score, price_label: g.price_label, score_peers: g.score_peers, ..l }
}

/// Copies the scores of `scored` into the stored listings with the same ad IDs.
pub fn store_scores(db: &mut HashMap<u64, MotorcycleListing>, scored: &Vec<MotorcycleListing>)
    requires
        forall|a: int, b: int| 0 <= a < b < scored.len() ==> (#[trigger] scored@[a]).listing_id != (#[trigger] scored@[b]).listing_id,
    ensures
        final(db)@.dom() == old(db)@.dom(),
        forall|i: int| 0 <= i < scored.len() && old(db)@.contains_key((#[trigger] scored@[i]).listing_id) ==>
            final(db)@[scored@[i].listing_id] == with_scores_of(old(db)@[scored@[i].listing_id], scored@[i]),
        forall|k: u64| old(db)@.contains_key(k) && (forall|i: int| 0 <= i < scored.len() ==> (#[trigger] scored@[i]).listing_id != k)
            ==> final(db)@[k] == old(db)@[k],
{
    let ghost m0 = db@;
    let mut i: usize = 0;
    while i < scored.len()
        invariant
            m0 == old(db)@,
            i <= scored.len(),
            forall|a: int, b: int| 0 <= a < b < scored.len() ==> (#[trigger] scored@[a]).listing_id != (#[trigger] scored@[b]).listing_id,
            db@.dom() == m0.dom(),
            forall|j: int| 0 <= j < i && m0.contains_key((#[trigger] scored@[j]).listing_id) ==>
                db@[scored@[j].listing_id] == with_scores_of(m0[scored@[j].listing_id], scored@[j]),
            forall|k: u64| m0.contains_key(k) && (forall|j: int| 0 <= j < i ==> (#[trigger] scored@[j]).listing_id != k)
                ==> db@[k] == m0[k],
        decreases scored.len() - i,
    {
        let g = &scored[i];
        let k = g.listing_id;
        let current = match db.get(&k) {
            Some(l) => Some(l.duplicate()),
            None => None,
        };
        match current {
            Some(l) => {
                assert(forall|j: int| 0 <= j < i ==> (#[trigger] scored@[j]).listing_id != k);
                assert(l == m0[k]);
                let updated = MotorcycleListing {
                    price_score: g.price_score,
                    price_label: g.price_label.clone(),
                    score_peers: g.score_peers,
                    ..l
                };
                db.insert(k, updated);
            },
            None => {},
        }
        i = i + 1;
    }
}

/// The summary entries of new listings, relists and price changes brought up
/// to date with the table: scores, labels and peer counts (and, for price
/// changes, the current price) as stored.
pub fn refresh_summary(summary: &mut StoreSummary, db: &HashMap<u64, MotorcycleListing>)
    ensures
        final(summary).updated == old(summary).updated,
        final(summary).sold == old(summary).sold,
        final(summary).total_tracked == old(summary).total_tracked,
        final(summary).new.len() == old(summary).new.len(),
        forall|i: int| 0 <= i < old(summary).new.len() ==> #[trigger] final(summary).new@[i] == {
            let l = old(summary).new@[i];
            if db@.contains_key(l.listing_id) { with_scores_of(l, db@[l.listing_id]) } else { l }
        },
        final(summary).relisted.len() == old(summary).relisted.len(),
        forall|i: int| 0 <= i < old(summary).relisted.len() ==> #[trigger] final(summary).relisted@[i] == {
            let l = old(summary).relisted@[i];
            if db@.contains_key(l.listing_id) { with_scores_of(l, db@[l.listing_id]) } else { l }
        },
        final(summary).price_changes.len() == old(summary).price_changes.len(),
        forall|i: int| 0 <= i < old(summary).price_changes.len() ==> #[trigger] final(summary).price_changes@[i] == {
            let pc = old(summary).price_changes@[i];
            if db@.contains_key(pc.listing.listing_id) {
                let s = db@[pc.listing.listing_id];
                PriceChange {
                    listing: MotorcycleListing { price_chf: s.price_chf, price_score: s.price_score, price_label: s.price_label, ..pc.listing },
                    old_price: pc.old_price,
                }
            } else {
                pc
            }
        },
{
    let new = refreshed_entries(&summary.new, db);
    let relisted = refreshed_entries(&summary.relisted, db);
    let mut changes: Vec<PriceChange> = Vec::new();
    let mut i: usize = 0;
    while i < summary.price_changes.len()
        invariant
            i <= summary.price_changes.len(),
            changes.len() == i,
            forall|j: int| 0 <= j < i ==> #[trigger] changes@[j] == {
                let pc = summary.price_changes@[j];
                if db@.contains_key(pc.listing.listing_id) {
                    let s = db@[pc.listing.listing_id];
                    PriceChange {
                        listing: MotorcycleListing { price_chf: s.price_chf, price_score: s.price_score, price_label: s.price_label, ..pc.listing },
                        old_price: pc.old_price,
                    }
                } else {
                    pc
                }
            },
        decreases summary.price_changes.len() - i,
    {
        let pc = &summary.price_changes[i];
        let entry = match db.get(&pc.listing.listing_id) {
            Some(s) => PriceChange {
                listing: MotorcycleListing {
                    price_chf: s.price_chf,
                    price_score: s.price_score,
                    price_label: s.price_label.clone(),
                    ..pc.listing.duplicate()
                },
                old_price: pc.old_price,
            },
            None => PriceChange { listing: pc.listing.duplicate(), old_price: pc.old_price },
        };
        changes.push(entry);
        i = i + 1;
    }
    summary.new = new;
    summary.relisted = relisted;
    summary.price_changes = changes;
}

fn refreshed_entries(v: &Vec<MotorcycleListing>, db: &HashMap<u64, MotorcycleListing>) -> (r: Vec<MotorcycleListing>)
    ensures
        r.len() == v.len(),
        forall|i: int| 0 <= i < v.len() ==> #[trigger] r@[i] == {
            let l = v@[i];
            if db@.contains_key(l.listing_id) { with_scores_of(l, db@[l.listing_id]) } else { l }
        },
{
    let mut out: Vec<MotorcycleListing> = Vec::new();
    let mut i: usize = 0;
    while i < v.len()
        invariant
            i <= v.len(),
            out.len() == i,
            forall|j: int| 0 <= j < i ==> #[trigger] out@[j] == {
                let l = v@[j];
                if db@.contains_key(l.listing_id) { with_scores_of(l, db@[l.listing_id]) } else { l }
            },
        decreases v.len() - i,
    {
        let l = &v[i];
        let entry = match db.get(&l.listing_id) {
            Some(s) => MotorcycleListing {
                price_score: s.price_score,
                price_label: s.price_label.clone(),
                score_peers: s.score_peers,
                ..l.duplicate()
            },
            None => l.duplicate(),
        };
        out.push(entry);
        i = i + 1;
    }
    out
}

/// A listing table keyed by ad ID; of two listings with one ad ID the later one stays.
pub fn table_from(listings: Vec<MotorcycleListing>) -> (r: HashMap<u64, MotorcycleListing>)
    ensures
        keyed_by_id(r@),
        forall|k: u64| r@.contains_key(k) <==> id_in(listings@, k),
        forall|i: int| 0 <= i < listings.len()
            && (forall|j: int| i < j < listings.len() ==> (#[trigger] listings@[j]).listing_id != listings@[i].listing_id)
            ==> r@[(#[trigger] listings@[i]).listing_id] == listings@[i],
{
    let mut m: HashMap<u64, MotorcycleListing> = HashMap::new();
    let mut i: usize = 0;
    while i < listings.len()
        invariant
            i <= listings.len(),
            keyed_by_id(m@),
            forall|k: u64| m@.contains_key(k) <==> exists|q: int| 0 <= q < i && (#[trigger] listings@[q]).listing_id == k,
            forall|q: int| 0 <= q < i
                && (forall|j: int| q < j < i ==> (#[trigger] listings@[j]).listing_id != listings@[q].listing_id)
                ==> m@[(#[trigger] listings@[q]).listing_id] == listings@[q],
        decreases listings.len() - i,
    {
        let l = listings[i].duplicate();
        m.insert(l.listing_id, l);
        i = i + 1;
    }
    m
}

/// Whether one of the first `n` scrape entries has ad ID `k`.
pub open spec fn id_in_first(scraped: Seq<MotorcycleListing>, n: int, k: u64) -> bool {
    exists|i: int| 0 <= i < n && (#[trigger] scraped[i]).listing_id == k
}

proof fn lemma_absorb_dom(db0: Map<u64, MotorcycleListing>, scraped: Seq<MotorcycleListing>, n: nat, k: u64)
    requires
        n <= scraped.len(),
    ensures
        absorb_first(db0, scraped, n).contains_key(k) <==> db0.contains_key(k) || id_in_first(scraped, n as int, k),
    decreases n,
{
    if n > 0 {
        lemma_absorb_dom(db0, scraped, (n - 1) as nat, k);
        if id_in_first(scraped, n as int, k) && !id_in_first(scraped, n - 1, k) {
            let i = choose|i: int| 0 <= i < n && (#[trigger] scraped[i]).listing_id == k;
            assert(i == n - 1);
        }
        if id_in_first(scraped, n - 1, k) {
            let i = choose|i: int| 0 <= i < n - 1 && (#[trigger] scraped[i]).listing_id == k;
            assert(0 <= i < n && scraped[i].listing_id == k);
        }
    }
}

proof fn lemma_absorb_stored(db0: Map<u64, MotorcycleListing>, scraped: Seq<MotorcycleListing>, n: nat, k: u64)
    requires
        n <= scraped.len(),
        db0.contains_key(k),
    ensures
        absorb_first(db0, scraped, n).contains_key(k),
        absorb_first(db0, scraped, n)[k].original_price_chf == db0[k].original_price_chf,
        absorb_first(db0, scraped, n)[k].first_seen == db0[k].first_seen,
        absorb_first(db0, scraped, n)[k].fingerprint == db0[k].fingerprint,
        absorb_first(db0, scraped, n)[k].listing_id == db0[k].listing_id,
    decreases n,
{
    if n > 0 {
        lemma_absorb_stored(db0, scraped, (n - 1) as nat, k);
    }
}

proof fn lemma_absorb_untouched(db0: Map<u64, MotorcycleListing>, scraped: Seq<MotorcycleListing>, n: nat, k: u64)
    requires
        n <= scraped.len(),
        db0.contains_key(k),
        !id_in_first(scraped, n as int, k),
    ensures
        absorb_first(db0, scraped, n)[k] == db0[k],
    decreases n,
{
    if n > 0 {
        assert(scraped[n - 1].listing_id != k);
        assert(!id_in_first(scraped, n - 1, k)) by {
            if id_in_first(scraped, n - 1, k) {
                let i = choose|i: int| 0 <= i < n - 1 && (#[trigger] scraped[i]).listing_id == k;
                assert(0 <= i < n && scraped[i].listing_id == k);
            }
        }
        lemma_absorb_untouched(db0, scraped, (n - 1) as nat, k);
    }
}

proof fn lemma_absorb_last(db0: Map<u64, MotorcycleListing>, scraped: Seq<MotorcycleListing>, n: nat, i: int)
    requires
        n <= scraped.len(),
        0 <= i < n,
        forall|j: int| i < j < n ==> (#[trigger] scraped[j]).listing_id != scraped[i].listing_id,
        scraped[i].status == ListingStatus::Active,
    ensures
        absorb_first(db0, scraped, n).contains_key(scraped[i].listing_id),
        absorb_first(db0, scraped, n)[scraped[i].listing_id].price_chf == scraped[i].price_chf,
        absorb_first(db0, scraped, n)[scraped[i].listing_id].last_seen == scraped[i].last_seen,
        absorb_first(db0, scraped, n)[scraped[i].listing_id].status != ListingStatus::Sold,
    decreases n,
{
    if i < n - 1 {
        lemma_absorb_last(db0, scraped, (n - 1) as nat, i);
    }
}

proof fn lemma_absorb_price(db0: Map<u64, MotorcycleListing>, scraped: Seq<MotorcycleListing>, n: nat, i: int)
    requires
        n <= scraped.len(),
        0 <= i < n,
        forall|j: int| i < j < n ==> (#[trigger] scraped[j]).listing_id != scraped[i].listing_id,
    ensures
        absorb_first(db0, scraped, n).contains_key(scraped[i].listing_id),
        absorb_first(db0, scraped, n)[scraped[i].listing_id].price_chf == scraped[i].price_chf,
    decreases n,
{
    if i < n - 1 {
        lemma_absorb_price(db0, scraped, (n - 1) as nat, i);
    }
}

/// The first `k` entries of a scrape, merged a second time into the table
/// that the first merge left: all meet a stored listing at its price.
/// Whether `b` is the table `a` with, at most, other scores, labels and peer
/// counts.
pub open spec fn differs_in_scores_only(a: Map<u64, MotorcycleListing>, b: Map<u64, MotorcycleListing>) -> bool {
    &&& b.dom() == a.dom()
    &&& forall|k: u64| a.contains_key(k) ==> #[trigger] b[k] == with_scores_of(a[k], b[k])
}

/// Copying in the scores of re-scored groups changes scores only.
pub proof fn lemma_rescoring_changes_scores_only(m: Map<u64, MotorcycleListing>, groups: Seq<Vec<MotorcycleListing>>)
    ensures
        differs_in_scores_only(m, with_all_scores(m, groups)),
    decreases groups.len(),
{
    if groups.len() == 0 {
        assert(m.dom() =~= with_all_scores(m, groups).dom());
    } else {
        lemma_rescoring_changes_scores_only(m, groups.drop_last());
        let x = with_all_scores(m, groups.drop_last());
        let y = with_all_scores(m, groups);
        assert(y.dom() =~= x.dom());
        assert forall|k: u64| m.contains_key(k) implies #[trigger] y[k] == with_scores_of(m[k], y[k]) by {
            assert(x[k] == with_scores_of(m[k], x[k]));
        }
    }
}

/// The first `k` entries of a scrape, merged a second time into the table
/// that the first merge left (possibly re-scored in between): all meet a
/// stored listing at its price.
proof fn lemma_second_pass(db0: Map<u64, MotorcycleListing>, scraped: Seq<MotorcycleListing>, db1: Map<u64, MotorcycleListing>, k: nat)
    requires
        k <= scraped.len(),
        forall|a: int, b: int| 0 <= a < b < scraped.len() ==> (#[trigger] scraped[a]).listing_id != (#[trigger] scraped[b]).listing_id,
        differs_in_scores_only(merged(db0, scraped), db1),
    ensures
        new_first(db1, scraped, k).len() == 0,
        relisted_first(db1, scraped, k).len() == 0,
        changes_first(db1, scraped, k).len() == 0,
        updated_first(db1, scraped, k) == k,
    decreases k,
{
    if k > 0 {
        let n = scraped.len();
        let i = k - 1;
        let id = scraped[i].listing_id;
        lemma_second_pass(db0, scraped, db1, (k - 1) as nat);
        law_merge_keeps_every_listing(db0, scraped, id);
        assert(id_in(scraped, id));
        assert(merged(db0, scraped).contains_key(id));
        assert(db1.dom().contains(id));
        assert(!id_in_first(scraped, i, id)) by {
            if id_in_first(scraped, i, id) {
                let j = choose|j: int| 0 <= j < i && (#[trigger] scraped[j]).listing_id == id;
                assert(scraped[j].listing_id != scraped[i].listing_id);
            }
        }
        lemma_absorb_dom(db1, scraped, i as nat, id);
        lemma_absorb_untouched(db1, scraped, i as nat, id);
        lemma_absorb_price(db0, scraped, n, i);
        assert(db1[id] == with_scores_of(merged(db0, scraped)[id], db1[id]));
        assert(meets_stored(db1, scraped, i as nat));
        assert(absorb_first(db1, scraped, i as nat)[id].price_chf == scraped[i].price_chf);
    }
}

/// After one merge (and any re-scoring), no listing of the table is left to
/// go sold by a second merge of the same scrape.
proof fn lemma_second_pass_sells_nothing(
    db0: Map<u64, MotorcycleListing>,
    scraped: Seq<MotorcycleListing>,
    db1: Map<u64, MotorcycleListing>,
    k: u64,
)
    requires
        keyed_by_id(db0),
        differs_in_scores_only(merged(db0, scraped), db1),
        absorb_first(db1, scraped, scraped.len()).contains_key(k),
    ensures
        !goes_sold(absorb_first(db1, scraped, scraped.len())[k], scraped),
{
    let n = scraped.len();
    let m1 = absorb_first(db0, scraped, n);
    let db = merged(db0, scraped);
    let m2 = absorb_first(db1, scraped, n);
    lemma_absorb_keyed(db0, scraped, n);
    assert(keyed_by_id(db1)) by {
        assert forall|q: u64| db1.contains_key(q) implies (#[trigger] db1[q]).listing_id == q by {
            assert(db.dom().contains(q));
            assert(m1[q].listing_id == q);
            assert(db1[q] == with_scores_of(db[q], db1[q]));
        }
    }
    lemma_absorb_keyed(db1, scraped, n);
    assert(m2[k].listing_id == k);
    assert(id_in_first(scraped, n as int, k) == id_in(scraped, k));
    if !id_in(scraped, k) {
        lemma_absorb_dom(db1, scraped, n, k);
        lemma_absorb_untouched(db1, scraped, n, k);
        assert(db.dom().contains(k));
        assert(db1[k] == with_scores_of(db[k], db1[k]));
        assert(m2[k] == db1[k]);
        assert(db[k] == settled(m1[k], scraped));
    }
}

/// What a second merge of a scrape into `db1` reports, when `db1` is the table
/// that the first merge of it into `db0` left, re-scored or not.
proof fn lemma_second_merge(db0: Map<u64, MotorcycleListing>, scraped: Seq<MotorcycleListing>, db1: Map<u64, MotorcycleListing>)
    requires
        keyed_by_id(db0),
        forall|a: int, b: int| 0 <= a < b < scraped.len() ==> (#[trigger] scraped[a]).listing_id != (#[trigger] scraped[b]).listing_id,
        differs_in_scores_only(merged(db0, scraped), db1),
    ensures
        new_first(db1, scraped, scraped.len()).len() == 0,
        relisted_first(db1, scraped, scraped.len()).len() == 0,
        changes_first(db1, scraped, scraped.len()).len() == 0,
        updated_first(db1, scraped, scraped.len()) == scraped.len(),
        forall|sold: Seq<MotorcycleListing>|
            #[trigger] sold_from(sold, absorb_first(db1, scraped, scraped.len()), scraped) ==> sold.len() == 0,
        merged(db1, scraped).dom() == merged(db0, scraped).dom(),
        merged(db1, scraped).len() == merged(db0, scraped).len(),
{
    lemma_second_pass(db0, scraped, db1, scraped.len());
    let m2 = absorb_first(db1, scraped, scraped.len());
    assert forall|sold: Seq<MotorcycleListing>| #[trigger] sold_from(sold, m2, scraped) implies sold.len() == 0 by {
        if sold.len() > 0 {
            let k = sold[0].listing_id;
            assert(m2.contains_key(k));
            lemma_second_pass_sells_nothing(db0, scraped, db1, k);
        }
    }
    assert(merged(db1, scraped).dom() =~= merged(db0, scraped).dom()) by {
        assert forall|k: u64| merged(db1, scraped).dom().contains(k) <==> merged(db0, scraped).dom().contains(k) by {
            law_merge_keeps_every_listing(db1, scraped, k);
            law_merge_keeps_every_listing(db0, scraped, k);
        }
    }
}

/// Law: merging the same scrape (one entry per ad ID) a second time reports
/// nothing: every entry meets a stored listing, none is new or a relist, no
/// price changed, nothing is marked sold, and the table holds the same ad IDs
/// (so the same number of listings).
pub proof fn law_same_scrape_twice_reports_nothing(db0: Map<u64, MotorcycleListing>, scraped: Seq<MotorcycleListing>)
    requires
        keyed_by_id(db0),
        forall|a: int, b: int| 0 <= a < b < scraped.len() ==> (#[trigger] scraped[a]).listing_id != (#[trigger] scraped[b]).listing_id,
    ensures
        new_first(merged(db0, scraped), scraped, scraped.len()).len() == 0,
        relisted_first(merged(db0, scraped), scraped, scraped.len()).len() == 0,
        changes_first(merged(db0, scraped), scraped, scraped.len()).len() == 0,
        updated_first(merged(db0, scraped), scraped, scraped.len()) == scraped.len(),
        forall|sold: Seq<MotorcycleListing>|
            #[trigger] sold_from(sold, absorb_first(merged(db0, scraped), scraped, scraped.len()), scraped) ==> sold.len() == 0,
        merged(merged(db0, scraped), scraped).dom() == merged(db0, scraped).dom(),
        merged(merged(db0, scraped), scraped).len() == merged(db0, scraped).len(),
{
    let db1 = merged(db0, scraped);
    assert forall|k: u64| db1.contains_key(k) implies #[trigger] db1[k] == with_scores_of(db1[k], db1[k]) by {}
    lemma_second_merge(db0, scraped, db1);
}

/// Law: a full run (merge, then re-scoring of any groups) repeated with the
/// same scrape (one entry per ad ID) reports nothing the second time: every
/// entry meets a stored listing, none is new or a relist, no price changed,
/// nothing is marked sold, and the table keeps the same ad IDs and size.
pub proof fn law_same_run_twice_reports_nothing(
    db0: Map<u64, MotorcycleListing>,
    scraped: Seq<MotorcycleListing>,
    groups: Seq<Vec<MotorcycleListing>>,
)
    requires
        keyed_by_id(db0),
        forall|a: int, b: int| 0 <= a < b < scraped.len() ==> (#[trigger] scraped[a]).listing_id != (#[trigger] scraped[b]).listing_id,
    ensures
        ({
            let db1 = with_all_scores(merged(db0, scraped), groups);
            &&& new_first(db1, scraped, scraped.len()).len() == 0
            &&& relisted_first(db1, scraped, scraped.len()).len() == 0
            &&& changes_first(db1, scraped, scraped.len()).len() == 0
            &&& updated_first(db1, scraped, scraped.len()) == scraped.len()
            &&& forall|sold: Seq<MotorcycleListing>|
                #[trigger] sold_from(sold, absorb_first(db1, scraped, scraped.len()), scraped) ==> sold.len() == 0
            &&& merged(db1, scraped).dom() == merged(db0, scraped).dom()
            &&& merged(db1, scraped).len() == merged(db0, scraped).len()
        }),
{
    let db1 = with_all_scores(merged(db0, scraped), groups);
    lemma_rescoring_changes_scores_only(merged(db0, scraped), groups);
    lemma_second_merge(db0, scraped, db1);
}

/// Law: a merge loses no listing; afterwards the table holds exactly the
/// listings it held before and the scraped ones.
pub proof fn law_merge_keeps_every_listing(db0: Map<u64, MotorcycleListing>, scraped: Seq<MotorcycleListing>, k: u64)
    ensures
        merged(db0, scraped).contains_key(k) <==> db0.contains_key(k) || id_in(scraped, k),
{
    lemma_absorb_dom(db0, scraped, scraped.len(), k);
    assert(id_in_first(scraped, scraped.len() as int, k) == id_in(scraped, k));
}

/// Law: the price a listing was first seen at, and the day it was first
/// seen, are never overwritten by a merge.
pub proof fn law_original_price_kept(db0: Map<u64, MotorcycleListing>, scraped: Seq<MotorcycleListing>, k: u64)
    requires
        db0.contains_key(k),
    ensures
        merged(db0, scraped).contains_key(k),
        merged(db0, scraped)[k].original_price_chf == db0[k].original_price_chf,
        merged(db0, scraped)[k].first_seen == db0[k].first_seen,
        merged(db0, scraped)[k].fingerprint == db0[k].fingerprint,
{
    lemma_absorb_stored(db0, scraped, scraped.len(), k);
}

/// Law: after a merge, a scraped listing carries the price and the
/// last-seen day of its last scrape entry, and is not sold.
pub proof fn law_scraped_listing_current(db0: Map<u64, MotorcycleListing>, scraped: Seq<MotorcycleListing>, i: int)
    requires
        keyed_by_id(db0),
        0 <= i < scraped.len(),
        forall|j: int| i < j < scraped.len() ==> (#[trigger] scraped[j]).listing_id != scraped[i].listing_id,
        scraped[i].status == ListingStatus::Active,
    ensures
        merged(db0, scraped).contains_key(scraped[i].listing_id),
        merged(db0, scraped)[scraped[i].listing_id].price_chf == scraped[i].price_chf,
        merged(db0, scraped)[scraped[i].listing_id].last_seen == scraped[i].last_seen,
        merged(db0, scraped)[scraped[i].listing_id].status != ListingStatus::Sold,
{
    lemma_absorb_last(db0, scraped, scraped.len(), i);
    lemma_absorb_keyed(db0, scraped, scraped.len());
    let m = absorb_first(db0, scraped, scraped.len());
    assert(m[scraped[i].listing_id].listing_id == scraped[i].listing_id);
    assert(id_in(scraped, scraped[i].listing_id));
    if goes_sold(m[scraped[i].listing_id], scraped) {
        assert(m[scraped[i].listing_id].status == ListingStatus::Active);
    }
}

/// Law: a stored listing that the scrape does not hold keeps every field;
/// only its status may change, from active to sold, and that exactly when its
/// category was scraped.
pub proof fn law_absent_listing_only_sells(db0: Map<u64, MotorcycleListing>, scraped: Seq<MotorcycleListing>, k: u64)
    requires
        db0.contains_key(k),
        !id_in(scraped, k),
    ensures
        merged(db0, scraped)[k] == settled(db0[k], scraped),
        merged(db0, scraped)[k].status == ListingStatus::Sold <==> (db0[k].status == ListingStatus::Sold
            || (db0[k].status == ListingStatus::Active && category_in(scraped, db0[k].category@) && !id_in(scraped, db0[k].listing_id))),
{
    assert(!id_in_first(scraped, scraped.len() as int, k));
    lemma_absorb_untouched(db0, scraped, scraped.len(), k);
    lemma_absorb_dom(db0, scraped, scraped.len(), k);
}

/// Law: every reported relist points back at a stored listing of the same
/// bike (same fingerprint) that the scrape no longer holds, and that listing
/// is the only such one.
pub proof fn law_relist_points_back(db0: Map<u64, MotorcycleListing>, scraped: Seq<MotorcycleListing>, n: nat, j: int)
    requires
        n <= scraped.len(),
        0 <= j < relisted_first(db0, scraped, n).len(),
    ensures
        ({
            let r = relisted_first(db0, scraped, n)[j];
            &&& r.status == ListingStatus::Relisted
            &&& r.previous_listing_id is Some
            &&& may_precede(db0, scraped, r.fingerprint@, r.previous_listing_id->0)
            &&& forall|k: u64| #[trigger] may_precede(db0, scraped, r.fingerprint@, k) ==> k == r.previous_listing_id->0
        }),
    decreases n,
{
    if n > 0 {
        let prev = relisted_first(db0, scraped, (n - 1) as nat);
        if j < prev.len() {
            law_relist_points_back(db0, scraped, (n - 1) as nat, j);
        } else {
            let s = scraped[n - 1];
            let fp = s.fingerprint@;
            let p = choose|k: u64| #[trigger] may_precede(db0, scraped, fp, k)
                && forall|k2: u64| #[trigger] may_precede(db0, scraped, fp, k2) ==> k2 == k;
            assert(may_precede(db0, scraped, fp, p));
        }
    }
}

/// Law: an advert whose fingerprint matches two stored listings that the
/// scrape no longer holds is ambiguous and is not taken for a relist.
pub proof fn law_ambiguous_fingerprint_not_relist(
    db0: Map<u64, MotorcycleListing>,
    scraped: Seq<MotorcycleListing>,
    fp: Seq<char>,
    a: u64,
    b: u64,
)
    requires
        may_precede(db0, scraped, fp, a),
        may_precede(db0, scraped, fp, b),
        a != b,
    ensures
        relist_source(db0, scraped, fp) is None,
{
}

/// Law: a stored listing that the scrape still holds is never the earlier
/// advert of a relist; two adverts that are online together are two bikes.
pub proof fn law_listed_bike_not_relisted(
    db0: Map<u64, MotorcycleListing>,
    scraped: Seq<MotorcycleListing>,
    fp: Seq<char>,
    k: u64,
)
    requires
        id_in(scraped, k),
    ensures
        relist_source(db0, scraped, fp) != Some(k),
{
    if relist_source(db0, scraped, fp) == Some(k) {
        let p = choose|c: u64| #[trigger] may_precede(db0, scraped, fp, c)
            && forall|k2: u64| #[trigger] may_precede(db0, scraped, fp, k2) ==> k2 == c;
        assert(may_precede(db0, scraped, fp, p));
    }
}

/// The ad IDs of the table in ascending order.
fn sorted_keys(db: &HashMap<u64, MotorcycleListing>) -> (r: Vec<u64>)
    ensures
        forall|k: u64| db@.contains_key(k) <==> r@.contains(k),
        forall|a: int, b: int| 0 <= a < b < r.len() ==> r@[a] < r@[b],
{
    let keys = key_list(db);
    let mut out: Vec<u64> = Vec::new();
    let mut i: usize = 0;
    while i < keys.len()
        invariant
            i <= keys.len(),
            forall|k: u64| db@.contains_key(k) <==> keys@.contains(k),
            keys@.no_duplicates(),
            forall|k: u64| out@.contains(k) <==> keys@.take(i as int).contains(k),
            forall|a: int, b: int| 0 <= a < b < out.len() ==> out@[a] < out@[b],
        decreases keys.len() - i,
    {
        let x = keys[i];
        assert(!keys@.take(i as int).contains(x)) by {
            if keys@.take(i as int).contains(x) {
                let q = choose|q: int| 0 <= q < i && keys@.take(i as int)[q] == x;
                assert(keys@[q] == keys@[i as int]);
            }
        }
        assert(keys@.take(i + 1) =~= keys@.take(i as int).push(x));
        let mut p: usize = 0;
        while p < out.len() && out[p] < x
            invariant
                p <= out.len(),
                forall|q: int| 0 <= q < p ==> out@[q] < x,
            decreases out.len() - p,
        {
            p = p + 1;
        }
        let ghost before = out@;
        assert(forall|k: u64| before.contains(k) <==> keys@.take(i as int).contains(k));
        proof {
            if p < out.len() {
                assert(out@[p as int] != x) by {
                    assert(before.contains(out@[p as int]));
                }
            }
        }
        out.insert(p, x);
        proof {
            assert(out@ == before.insert(p as int, x));
            assert forall|k: u64| out@.contains(k) <==> keys@.take(i + 1).contains(k) by {
                if out@.contains(k) {
                    let q = choose|q: int| 0 <= q < out@.len() && out@[q] == k;
                    if q < p {
                        assert(before[q] == k);
                        assert(before.contains(k));
                    } else if q > p {
                        assert(before[q - 1] == k);
                        assert(before.contains(k));
                    } else {
                        assert(keys@.take(i + 1)[i as int] == k);
                    }
                    if before.contains(k) {
                        let t0 = keys@.take(i as int);
                        assert(t0.contains(k));
                        let w = choose|w: int| 0 <= w < t0.len() && t0[w] == k;
                        assert(keys@.take(i + 1)[w] == k);
                    }
                }
                if keys@.take(i + 1).contains(k) {
                    if k == x {
                        assert(out@[p as int] == x);
                    } else {
                        assert(keys@.take(i as int).contains(k)) by {
                            let t1 = keys@.take(i + 1);
                            let q = choose|q: int| 0 <= q < t1.len() && t1[q] == k;
                            assert(q < i);
                            assert(keys@.take(i as int)[q] == k);
                        }
                        assert(before.contains(k));
                        let q = choose|q: int| 0 <= q < before.len() && before[q] == k;
                        if q < p {
                            assert(out@[q] == before[q]);
                            assert(out@[q] == k);
                        } else {
                            assert(out@[q + 1] == before[q]);
                            assert(out@[q + 1] == k);
                        }
                    }
                }
            }
            assert forall|a: int, b: int| 0 <= a < b < out.len() implies out@[a] < out@[b] by {
                if b < p {
                } else if b == p {
                } else if a < p {
                    assert(out@[b] == before[b - 1]);
                    if a < b - 1 {
                        assert(before[a] < before[b - 1]);
                    }
                } else if a == p {
                    assert(out@[b] == before[b - 1]);
                    assert(!(before[p as int] < x));
                    assert(before[p as int] != x);
                    if p < b - 1 {
                        assert(before[p as int] < before[b - 1]);
                    }
                } else {
                    assert(out@[a] == before[a - 1]);
                    assert(out@[b] == before[b - 1]);
                }
            }
        }
        i = i + 1;
    }
    proof {
        assert(keys@.take(keys.len() as int) =~= keys@);
    }
    out
}

/// The listings of the table ordered by ad ID, each once.
pub fn sorted_rows(db: &HashMap<u64, MotorcycleListing>) -> (r: Vec<MotorcycleListing>)
    requires
        keyed_by_id(db@),
    ensures
        forall|a: int, b: int| 0 <= a < b < r.len() ==> (#[trigger] r@[a]).listing_id < (#[trigger] r@[b]).listing_id,
        forall|i: int| 0 <= i < r.len() ==> db@.contains_key((#[trigger] r@[i]).listing_id) && r@[i] == db@[r@[i].listing_id],
        forall|k: u64| db@.contains_key(k) ==> exists|i: int| 0 <= i < r.len() && (#[trigger] r@[i]).listing_id == k,
{
    let keys = sorted_keys(db);
    let mut out: Vec<MotorcycleListing> = Vec::new();
    let mut i: usize = 0;
    while i < keys.len()
        invariant
            i <= keys.len(),
            keyed_by_id(db@),
            forall|k: u64| db@.contains_key(k) <==> keys@.contains(k),
            forall|a: int, b: int| 0 <= a < b < keys.len() ==> keys@[a] < keys@[b],
            out.len() == i,
            forall|j: int| 0 <= j < i ==> (#[trigger] out@[j]) == db@[keys@[j]] && out@[j].listing_id == keys@[j],
        decreases keys.len() - i,
    {
        let k = keys[i];
        assert(keys@.contains(k));
        let l = match db.get(&k) {
            Some(l) => l.duplicate(),
            None => MotorcycleListing::new(k, 0, String::new(), String::new(), 0, 0, 0, String::new(), String::new(), String::new(), false, String::new()),
        };
        out.push(l);
        i = i + 1;
    }
    proof {
        assert forall|a: int, b: int| 0 <= a < b < out.len() implies (#[trigger] out@[a]).listing_id < (#[trigger] out@[b]).listing_id by {
            assert(out@[a].listing_id == keys@[a]);
            assert(out@[b].listing_id == keys@[b]);
        }
        assert forall|i: int| 0 <= i < out.len() implies db@.contains_key((#[trigger] out@[i]).listing_id) && out@[i] == db@[out@[i].listing_id] by {
            assert(out@[i].listing_id == keys@[i]);
            assert(keys@.contains(keys@[i]));
        }
        assert forall|k: u64| db@.contains_key(k) implies exists|i: int| 0 <= i < out.len() && (#[trigger] out@[i]).listing_id == k by {
            assert(keys@.contains(k));
            let q = choose|q: int| 0 <= q < keys.len() && keys@[q] == k;
            assert(out.len() == keys.len());
            assert(out@[q] == db@[keys@[q]] && out@[q].listing_id == keys@[q]);
            assert(out@[q].listing_id == k);
        }
    }
    out
}

/// `m` with the score, label and peer count of each listing of `g` copied onto
/// the stored listing with the same ad ID.
pub open spec fn with_group_scores(m: Map<u64, MotorcycleListing>, g: Seq<MotorcycleListing>) -> Map<u64, MotorcycleListing> {
    Map::new(
        |k: u64| m.contains_key(k),
        |k: u64| if exists|i: int| 0 <= i < g.len() && (#[trigger] g[i]).listing_id == k {
            with_scores_of(m[k], g[choose|i: int| 0 <= i < g.len() && (#[trigger] g[i]).listing_id == k])
        } else {
            m[k]
        },
    )
}

/// `m` with the scores of every group of `groups` copied in, group after group.
pub open spec fn with_all_scores(m: Map<u64, MotorcycleListing>, groups: Seq<Vec<MotorcycleListing>>) -> Map<u64, MotorcycleListing>
    decreases groups.len(),
{
    if groups.len() == 0 {
        m
    } else {
        with_group_scores(with_all_scores(m, groups.drop_last()), groups.last()@)
    }
}

/// Whether `after` is the summary `before` brought up to date with the table
/// `db`: scores, labels and peer counts (and, for price changes, the current
/// price) as stored.
pub open spec fn summary_refreshed(before: StoreSummary, after: StoreSummary, db: Map<u64, MotorcycleListing>) -> bool {
    &&& after.updated == before.updated
    &&& after.sold == before.sold
    &&& after.total_tracked == before.total_tracked
    &&& after.new.len() == before.new.len()
    &&& forall|i: int| 0 <= i < before.new.len() ==> #[trigger] after.new@[i] == {
        let l = before.new@[i];
        if db.contains_key(l.listing_id) { with_scores_of(l, db[l.listing_id]) } else { l }
    }
    &&& after.relisted.len() == before.relisted.len()
    &&& forall|i: int| 0 <= i < before.relisted.len() ==> #[trigger] after.relisted@[i] == {
        let l = before.relisted@[i];
        if db.contains_key(l.listing_id) { with_scores_of(l, db[l.listing_id]) } else { l }
    }
    &&& after.price_changes.len() == before.price_changes.len()
    &&& forall|i: int| 0 <= i < before.price_changes.len() ==> #[trigger] after.price_changes@[i] == {
        let pc = before.price_changes@[i];
        if db.contains_key(pc.listing.listing_id) {
            let s = db[pc.listing.listing_id];
            PriceChange {
                listing: MotorcycleListing { price_chf: s.price_chf, price_score: s.price_score, price_label: s.price_label, ..pc.listing },
                old_price: pc.old_price,
            }
        } else {
            pc
        }
    }
}

/// Whether `g` holds the active listings of category `cat` of the table, each
/// once, as stored.
pub open spec fn category_group(g: Seq<MotorcycleListing>, db: Map<u64, MotorcycleListing>, cat: Seq<char>) -> bool {
    &&& forall|i: int| 0 <= i < g.len() ==> {
        &&& db.contains_key((#[trigger] g[i]).listing_id)
        &&& g[i] == db[g[i].listing_id]
        &&& g[i].category@ == cat
        &&& g[i].status == ListingStatus::Active
    }
    &&& forall|k: u64| db.contains_key(k) && db[k].category@ == cat && db[k].status == ListingStatus::Active
        ==> exists|i: int| 0 <= i < g.len() && (#[trigger] g[i]).listing_id == k
    &&& forall|a: int, b: int| 0 <= a < b < g.len() ==> (#[trigger] g[a]).listing_id != (#[trigger] g[b]).listing_id
}

/// The groups to re-score after a merge: for each category, its active
/// listings, each once.
pub fn groups_to_score(db: &HashMap<u64, MotorcycleListing>, cats: &Vec<String>) -> (r: Vec<Vec<MotorcycleListing>>)
    requires
        keyed_by_id(db@),
    ensures
        r.len() == cats.len(),
        forall|j: int| #![trigger r@[j]] 0 <= j < r.len() ==> category_group(r@[j]@, db@, cats@[j]@),
{
    let mut out: Vec<Vec<MotorcycleListing>> = Vec::new();
    let mut j: usize = 0;
    while j < cats.len()
        invariant
            keyed_by_id(db@),
            j <= cats.len(),
            out.len() == j,
            forall|q: int| #![trigger out@[q]] 0 <= q < out.len() ==> category_group(out@[q]@, db@, cats@[q]@),
        decreases cats.len() - j,
    {
        let g = active_in_category(db, &cats[j]);
        out.push(g);
        j = j + 1;
    }
    out
}

/// No ad ID occurs twice in `g`.
pub open spec fn ids_unique(g: Seq<MotorcycleListing>) -> bool {
    forall|a: int, b: int| 0 <= a < b < g.len() ==> (#[trigger] g[a]).listing_id != (#[trigger] g[b]).listing_id
}

proof fn lemma_group_stored(before: Map<u64, MotorcycleListing>, after: Map<u64, MotorcycleListing>, g: Seq<MotorcycleListing>)
    requires
        keyed_by_id(before),
        after.dom() == before.dom(),
        forall|i: int| 0 <= i < g.len() && before.contains_key((#[trigger] g[i]).listing_id) ==>
            after[g[i].listing_id] == with_scores_of(before[g[i].listing_id], g[i]),
        forall|k: u64| before.contains_key(k) && (forall|i: int| 0 <= i < g.len() ==> (#[trigger] g[i]).listing_id != k)
            ==> after[k] == before[k],
    ensures
        after == with_group_scores(before, g),
        keyed_by_id(after),
{
    let want = with_group_scores(before, g);
    assert forall|k: u64| #[trigger] after.contains_key(k) implies after[k] == want[k] by {
        if exists|i: int| 0 <= i < g.len() && (#[trigger] g[i]).listing_id == k {
            let i = choose|i: int| 0 <= i < g.len() && (#[trigger] g[i]).listing_id == k;
            assert(after[g[i].listing_id] == with_scores_of(before[g[i].listing_id], g[i]));
        } else {
            assert(forall|i: int| 0 <= i < g.len() ==> (#[trigger] g[i]).listing_id != k);
        }
    }
    assert(after =~= want);
    assert forall|k: u64| after.contains_key(k) implies (#[trigger] after[k]).listing_id == k by {
        assert(before.contains_key(k));
    }
}

fn store_group(db: &mut HashMap<u64, MotorcycleListing>, g: &Vec<MotorcycleListing>)
    requires
        keyed_by_id(old(db)@),
        ids_unique(g@),
    ensures
        final(db)@ == with_group_scores(old(db)@, g@),
        keyed_by_id(final(db)@),
{
    let ghost before = db@;
    store_scores(db, g);
    proof {
        lemma_group_stored(before, db@, g@);
    }
}

/// Writes the scores of re-scored groups into the table, group after group,
/// and brings the merge summary up to date with the table.
pub fn settle_scores(db: &mut HashMap<u64, MotorcycleListing>, summary: &mut StoreSummary, groups: &Vec<Vec<MotorcycleListing>>)
    requires
        keyed_by_id(old(db)@),
        forall|j: int| #![trigger groups@[j]] 0 <= j < groups.len() ==> ids_unique(groups@[j]@),
    ensures
        final(db)@ == with_all_scores(old(db)@, groups@),
        keyed_by_id(final(db)@),
        summary_refreshed(*old(summary), *final(summary), final(db)@),
{
    let ghost m0 = db@;
    let mut j: usize = 0;
    while j < groups.len()
        invariant
            j <= groups.len(),
            db@ == with_all_scores(m0, groups@.take(j as int)),
            keyed_by_id(db@),
            forall|q: int| #![trigger groups@[q]] 0 <= q < groups.len() ==> ids_unique(groups@[q]@),
        decreases groups.len() - j,
    {
        let g = &groups[j];
        store_group(db, g);
        proof {
            assert(groups@.take(j + 1).drop_last() =~= groups@.take(j as int));
            assert(groups@.take(j + 1).last() == *g);
        }
        j = j + 1;
    }
    proof {
        assert(groups@.take(groups.len() as int) =~= groups@);
    }
    refresh_summary(summary, db);
}

} // verus!
