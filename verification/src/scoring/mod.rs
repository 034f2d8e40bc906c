//! Price scoring of the first tracker: each listing against the listings of
//! the same model year, by median price and median mileage.
use vstd::prelude::*;
use crate::backend::domain::services::scorer::{lemma_reordered_same_multiset, reordered, canton_multiplier, canton_percent_of, kms_of, label, label_of, prices_of, same_but_score, PeerStats};
use crate::models::motorcycle::MotorcycleListing;
use crate::stats::{law_median_ignores_order, median, median_of};
use vstd::multiset::Multiset;
use crate::text::upper;

verus! {

/// The listings of `ls`, in order, of model year `year`.
pub open spec fn same_year(ls: Seq<MotorcycleListing>, year: u16) -> Seq<MotorcycleListing>
    decreases ls.len(),
{
    if ls.len() == 0 {
        Seq::empty()
    } else {
        let rest = same_year(ls.drop_last(), year);
        if ls.last().year == year {
            rest.push(ls.last())
        } else {
            rest
        }
    }
}

/// Statistics of the year group of `l`, or `None` when it is alone in its year.
pub open spec fn year_stats_of(ls: Seq<MotorcycleListing>, l: MotorcycleListing) -> Option<PeerStats> {
    let p = same_year(ls, l.year);
    if p.len() < 2 {
        None
    } else {
        Some(PeerStats {
            peers: p.len() as usize,
            median_price: median_of(prices_of(p)),
            median_km: median_of(kms_of(p)),
        })
    }
}

fn year_group(ls: &Vec<MotorcycleListing>, year: u16) -> (r: (Vec<u32>, Vec<u32>))
    ensures
        r.0@ == prices_of(same_year(ls@, year)),
        r.1@ == kms_of(same_year(ls@, year)),
{
    let mut prices: Vec<u32> = Vec::new();
    let mut kms: Vec<u32> = Vec::new();
    let mut j: usize = 0;
    while j < ls.len()
        invariant
            j <= ls.len(),
            prices@ == prices_of(same_year(ls@.take(j as int), year)),
            kms@ == kms_of(same_year(ls@.take(j as int), year)),
        decreases ls.len() - j,
    {
        let ghost before = same_year(ls@.take(j as int), year);
        assert(ls@.take(j + 1).drop_last() =~= ls@.take(j as int));
        if ls[j].year == year {
            prices.push(ls[j].price_chf);
            kms.push(ls[j].mileage_km);
            assert(prices_of(before.push(ls@[j as int])) =~= prices_of(before).push(ls@[j as int].price_chf));
            assert(kms_of(before.push(ls@[j as int])) =~= kms_of(before).push(ls@[j as int].mileage_km));
        }
        j = j + 1;
    }
    assert(ls@.take(ls.len() as int) =~= ls@);
    (prices, kms)
}

/// Year-group statistics of every listing, position by position.
pub fn year_stats(listings: &Vec<MotorcycleListing>) -> (r: Vec<Option<PeerStats>>)
    ensures
        r.len() == listings.len(),
        forall|i: int| 0 <= i < listings.len() ==> #[trigger] r@[i] == year_stats_of(listings@, listings@[i]),
{
    let mut out: Vec<Option<PeerStats>> = Vec::new();
    let mut i: usize = 0;
    while i < listings.len()
        invariant
            i <= listings.len(),
            out.len() == i,
            forall|j: int| 0 <= j < i ==> #[trigger] out@[j] == year_stats_of(listings@, listings@[j]),
        decreases listings.len() - i,
    {
        let (prices, kms) = year_group(listings, listings[i].year);
        if prices.len() < 2 {
            out.push(None);
        } else {
            out.push(Some(PeerStats { peers: prices.len(), median_price: median(&prices), median_km: median(&kms) }));
        }
        i = i + 1;
    }
    out
}

/// `after` is `before` scored in its year group: alone in its year it is
/// labelled "n/a" and keeps score and peer count; otherwise it takes the
/// score and its label and keeps its peer count.
pub open spec fn year_scored_as(before: MotorcycleListing, after: MotorcycleListing, stats: Option<PeerStats>, delta_pct: i32) -> bool {
    &&& same_but_score(before, after)
    &&& after.score_peers == before.score_peers
    &&& match stats {
        None => after.price_label@ == "n/a"@ && after.price_score == before.price_score,
        Some(st) => after.price_score == delta_pct && after.price_label@ == label_of(delta_pct),
    }
}

/// Writes year-group scores into `listings`.
pub fn apply_year_scores(listings: &mut Vec<MotorcycleListing>, stats: &Vec<Option<PeerStats>>, deltas: &Vec<i32>)
    requires
        stats.len() == old(listings).len(),
        deltas.len() == old(listings).len(),
    ensures
        final(listings).len() == old(listings).len(),
        forall|i: int| 0 <= i < old(listings).len() ==>
            year_scored_as(old(listings)@[i], #[trigger] final(listings)@[i], stats@[i], deltas@[i]),
{
    let mut i: usize = 0;
    while i < listings.len()
        invariant
            listings.len() == old(listings).len(),
            stats.len() == old(listings).len(),
            deltas.len() == old(listings).len(),
            i <= listings.len(),
            forall|j: int| 0 <= j < i ==> year_scored_as(old(listings)@[j], #[trigger] listings@[j], stats@[j], deltas@[j]),
            forall|j: int| i <= j < listings.len() ==> #[trigger] listings@[j] == old(listings)@[j],
        decreases listings.len() - i,
    {
        let mut l = listings[i].duplicate();
        match stats[i] {
            None => {
                l.price_label = "n/a".to_owned();
            },
            Some(_) => {
                l.price_score = deltas[i];
                l.price_label = label(deltas[i]).to_owned();
            },
        }
        listings.set(i, l);
        i = i + 1;
    }
}

/// What the year-group formula needs for one listing: the group's median
/// price, the (uncapped) mileage gap to the group's median mileage, the canton
/// factor in percent and the asking price.
#[derive(Clone, Copy, Debug)]
pub struct YearScoreInputs {
    pub median_price: u32,
    pub km_delta: i64,
    pub canton_percent: u32,
    pub price_chf: u32,
}

pub fn year_score_inputs(l: &MotorcycleListing, st: &PeerStats) -> (r: YearScoreInputs)
    ensures
        r.median_price == st.median_price,
        r.km_delta == st.median_km as int - l.mileage_km as int,
        r.canton_percent == canton_percent_of(upper(l.kanton@)),
        r.price_chf == l.price_chf,
{
    YearScoreInputs {
        median_price: st.median_price,
        km_delta: st.median_km as i64 - l.mileage_km as i64,
        canton_percent: canton_multiplier(l.kanton.as_str()),
        price_chf: l.price_chf,
    }
}

/// One step of collecting, into a multiset, the prices of the listings of `year`.
pub open spec fn year_price_step(year: u16) -> spec_fn(Multiset<u32>, MotorcycleListing) -> Multiset<u32> {
    |acc: Multiset<u32>, m: MotorcycleListing| if m.year == year { acc.insert(m.price_chf) } else { acc }
}

/// One step of collecting, into a multiset, the mileages of the listings of `year`.
pub open spec fn year_km_step(year: u16) -> spec_fn(Multiset<u32>, MotorcycleListing) -> Multiset<u32> {
    |acc: Multiset<u32>, m: MotorcycleListing| if m.year == year { acc.insert(m.mileage_km) } else { acc }
}

proof fn lemma_year_bags(ls: Seq<MotorcycleListing>, year: u16)
    ensures
        prices_of(same_year(ls, year)).to_multiset() == ls.fold_left(Multiset::empty(), year_price_step(year)),
        kms_of(same_year(ls, year)).to_multiset() == ls.fold_left(Multiset::empty(), year_km_step(year)),
    decreases ls.len(),
{
    broadcast use vstd::seq_lib::group_to_multiset_ensures;
    let p = same_year(ls, year);
    if ls.len() == 0 {
        assert(prices_of(p).to_multiset() =~= Multiset::empty());
        assert(kms_of(p).to_multiset() =~= Multiset::empty());
    } else {
        lemma_year_bags(ls.drop_last(), year);
        let q = same_year(ls.drop_last(), year);
        let m = ls.last();
        if m.year == year {
            assert(prices_of(q.push(m)) =~= prices_of(q).push(m.price_chf));
            assert(kms_of(q.push(m)) =~= kms_of(q).push(m.mileage_km));
        }
    }
}

/// Law: year-group scoring does not depend on the order of the listings; in
/// any reordering of the same listings, every listing gets the same year-group
/// statistics, hence the same score and label.
pub proof fn law_year_stats_ignore_order(ls: Seq<MotorcycleListing>, other: Seq<MotorcycleListing>, l: MotorcycleListing)
    requires
        ls.to_multiset() == other.to_multiset(),
    ensures
        year_stats_of(ls, l) == year_stats_of(other, l),
{
    broadcast use vstd::seq_lib::group_to_multiset_ensures;
    broadcast use vstd::multiset::group_multiset_axioms;
    let f = year_price_step(l.year);
    let g = year_km_step(l.year);
    assert forall|x: MotorcycleListing, y: MotorcycleListing, v: Multiset<u32>| #[trigger] f(f(v, x), y) == f(f(v, y), x) by {
        assert(f(f(v, x), y) =~= f(f(v, y), x));
    }
    assert forall|x: MotorcycleListing, y: MotorcycleListing, v: Multiset<u32>| #[trigger] g(g(v, x), y) == g(g(v, y), x) by {
        assert(g(g(v, x), y) =~= g(g(v, y), x));
    }
    lemma_year_bags(ls, l.year);
    lemma_year_bags(other, l.year);
    vstd::seq_lib::lemma_fold_left_permutation(ls, other, f, Multiset::empty());
    vstd::seq_lib::lemma_fold_left_permutation(ls, other, g, Multiset::empty());
    let a = prices_of(same_year(ls, l.year));
    let b = prices_of(same_year(other, l.year));
    assert(a.len() == a.to_multiset().len());
    assert(b.len() == b.to_multiset().len());
    law_median_ignores_order(a, b);
    law_median_ignores_order(kms_of(same_year(ls, l.year)), kms_of(same_year(other, l.year)));
}

/// Law: year-group statistics follow a reordering of the listings: in the
/// reordered list, each listing gets the statistics it got before.
pub proof fn law_year_stats_follow_permutation(ls: Seq<MotorcycleListing>, other: Seq<MotorcycleListing>, perm: Seq<int>)
    requires
        reordered(ls, other, perm),
    ensures
        forall|k: int| 0 <= k < other.len() ==> #[trigger] year_stats_of(other, other[k]) == year_stats_of(ls, ls[perm[k]]),
{
    lemma_reordered_same_multiset(ls, other, perm);
    assert forall|k: int| 0 <= k < other.len() implies #[trigger] year_stats_of(other, other[k]) == year_stats_of(ls, ls[perm[k]]) by {
        law_year_stats_ignore_order(ls, other, other[k]);
    }
}

} // verus!
