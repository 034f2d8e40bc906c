//! Peer-relative price scoring.
//!
//! Each listing is compared with the listings that share its title and
//! generation, or, failing two such listings, its variant and generation,
//! then its generation (the year group), then its variant. The comparison uses the peers' median price and
//! median mileage; what a listing "should" cost follows from those medians,
//! its mileage, its canton and its seller type.
use vstd::prelude::*;
use crate::backend::domain::value_objects::{generation_bucket, generation_bucket_spec};
use crate::models::motorcycle::MotorcycleListing;
use crate::stats::{law_median_ignores_order, median, median_of};
use vstd::multiset::Multiset;
use crate::text::{all_ascii, ascii_upper, contains_seq, contains_str, lower, str_eq, to_lowercase, to_uppercase, upper};

verus! {

/// The variant that an upper-cased title names: `"sp"`, `"world raid"` or `""`.
pub open spec fn variant_of_upper(t: Seq<char>) -> Seq<char> {
    if contains_seq(t, " SP"@) {
        "sp"@
    } else if contains_seq(t, "WORLD RAID"@) {
        "world raid"@
    } else {
        ""@
    }
}

/// The variant of a model that a title names, looked up in the upper-cased title.
pub open spec fn variant_tag_spec(title: Seq<char>) -> Seq<char> {
    variant_of_upper(upper(title))
}

pub fn variant_tag(title: &str) -> (r: &'static str)
    ensures
        r@ == variant_tag_spec(title@),
        all_ascii(title@) ==> r@ == variant_of_upper(ascii_upper(title@)),
{
    let t = to_uppercase(title);
    if contains_str(t.as_str(), " SP") {
        "sp"
    } else if contains_str(t.as_str(), "WORLD RAID") {
        "world raid"
    } else {
        ""
    }
}

/// The regional price factor of a canton, in percent (108 for Zürich: +8%).
pub open spec fn canton_percent_of(code: Seq<char>) -> u32 {
    if code == "ZH"@ { 108 }
    else if code == "GE"@ { 107 }
    else if code == "ZG"@ { 106 }
    else if code == "VD"@ { 105 }
    else if code == "BS"@ || code == "BL"@ { 104 }
    else if code == "AG"@ || code == "SO"@ { 102 }
    else if code == "FR"@ || code == "NE"@ { 97 }
    else if code == "TI"@ || code == "GR"@ { 96 }
    else if code == "VS"@ || code == "JU"@ || code == "UR"@ || code == "OW"@ || code == "NW"@
        || code == "SZ"@ || code == "GL"@ || code == "AR"@ || code == "AI"@ { 94 }
    else { 100 }
}

/// Regional price multiplier of a canton (matched case-insensitively), in percent.
pub fn canton_multiplier(kanton: &str) -> (r: u32)
    ensures
        r == canton_percent_of(upper(kanton@)),
        all_ascii(kanton@) ==> r == canton_percent_of(ascii_upper(kanton@)),
{
    let k = to_uppercase(kanton);
    let c = k.as_str();
    if str_eq(c, "ZH") { 108 }
    else if str_eq(c, "GE") { 107 }
    else if str_eq(c, "ZG") { 106 }
    else if str_eq(c, "VD") { 105 }
    else if str_eq(c, "BS") || str_eq(c, "BL") { 104 }
    else if str_eq(c, "AG") || str_eq(c, "SO") { 102 }
    else if str_eq(c, "FR") || str_eq(c, "NE") { 97 }
    else if str_eq(c, "TI") || str_eq(c, "GR") { 96 }
    else if str_eq(c, "VS") || str_eq(c, "JU") || str_eq(c, "UR") || str_eq(c, "OW")
        || str_eq(c, "NW") || str_eq(c, "SZ") || str_eq(c, "GL") || str_eq(c, "AR")
        || str_eq(c, "AI") { 94 }
    else { 100 }
}

/// The label of a score: "great deal" when more than 15% cheaper than
/// expected, "good" when 7–15% cheaper, "fair" within ±6%, "overpriced" when
/// 7–15% dearer, "expensive" when more than 15% dearer.
pub open spec fn label_of(delta_pct: i32) -> Seq<char> {
    if delta_pct > 15 {
        "great deal"@
    } else if 7 <= delta_pct <= 15 {
        "good"@
    } else if -6 <= delta_pct <= 6 {
        "fair"@
    } else if -15 <= delta_pct <= -7 {
        "overpriced"@
    } else {
        "expensive"@
    }
}

pub fn label(delta_pct: i32) -> (r: &'static str)
    ensures
        r@ == label_of(delta_pct),
{
    if delta_pct > 15 {
        "great deal"
    } else if 7 <= delta_pct && delta_pct <= 15 {
        "good"
    } else if -6 <= delta_pct && delta_pct <= 6 {
        "fair"
    } else if -15 <= delta_pct && delta_pct <= -7 {
        "overpriced"
    } else {
        "expensive"
    }
}

/// The generation bucket of a listing.
pub open spec fn bucket_of(l: MotorcycleListing) -> u16 {
    generation_bucket_spec(l.category@, l.year)
}

/// Whether `m` is a peer of `l` at comparison level `level`: 0 same title
/// (case-insensitively) and generation, 1 same variant and generation, 2 same
/// generation (the year group), 3 same variant.
pub open spec fn same_group(level: nat, l: MotorcycleListing, m: MotorcycleListing) -> bool {
    if level == 0 {
        lower(l.title@) == lower(m.title@) && bucket_of(l) == bucket_of(m)
    } else if level == 1 {
        variant_tag_spec(l.title@) == variant_tag_spec(m.title@) && bucket_of(l) == bucket_of(m)
    } else if level == 2 {
        bucket_of(l) == bucket_of(m)
    } else {
        variant_tag_spec(l.title@) == variant_tag_spec(m.title@)
    }
}

/// The listings of `ls`, in order, that are peers of `l` at `level`.
pub open spec fn peers_in(ls: Seq<MotorcycleListing>, level: nat, l: MotorcycleListing) -> Seq<MotorcycleListing>
    decreases ls.len(),
{
    if ls.len() == 0 {
        Seq::empty()
    } else {
        let rest = peers_in(ls.drop_last(), level, l);
        if same_group(level, l, ls.last()) {
            rest.push(ls.last())
        } else {
            rest
        }
    }
}

pub open spec fn prices_of(s: Seq<MotorcycleListing>) -> Seq<u32> {
    s.map_values(|m: MotorcycleListing| m.price_chf)
}

pub open spec fn kms_of(s: Seq<MotorcycleListing>) -> Seq<u32> {
    s.map_values(|m: MotorcycleListing| m.mileage_km)
}

/// The first comparison level at which `l` has at least two peers in `ls`
/// (itself included), if any.
pub open spec fn peer_level(ls: Seq<MotorcycleListing>, l: MotorcycleListing) -> Option<nat> {
    if peers_in(ls, 0, l).len() >= 2 {
        Some(0)
    } else if peers_in(ls, 1, l).len() >= 2 {
        Some(1)
    } else if peers_in(ls, 2, l).len() >= 2 {
        Some(2)
    } else if peers_in(ls, 3, l).len() >= 2 {
        Some(3)
    } else {
        None
    }
}

/// What a listing is compared with: how many peers, their median price and
/// their median mileage.
#[derive(Clone, Copy, Debug, PartialEq, Eq, Structural)]
pub struct PeerStats {
    pub peers: usize,
    pub median_price: u32,
    pub median_km: u32,
}

/// The statistics of the peers of `l` in `ls`, or `None` when `l` has no peer.
pub open spec fn peer_stats_of(ls: Seq<MotorcycleListing>, l: MotorcycleListing) -> Option<PeerStats> {
    match peer_level(ls, l) {
        Some(level) => {
            let p = peers_in(ls, level, l);
            Some(PeerStats {
                peers: p.len() as usize,
                median_price: median_of(prices_of(p)),
                median_km: median_of(kms_of(p)),
            })
        },
        None => None,
    }
}

/// The grouping keys of one listing, computed once.
pub struct ScoreKey {
    pub title: String,
    pub tag: &'static str,
    pub bucket: u16,
}

pub open spec fn key_of(k: ScoreKey, l: MotorcycleListing) -> bool {
    &&& k.title@ == lower(l.title@)
    &&& k.tag@ == variant_tag_spec(l.title@)
    &&& k.bucket == bucket_of(l)
}

fn score_key(l: &MotorcycleListing) -> (k: ScoreKey)
    ensures
        key_of(k, *l),
{
    ScoreKey {
        title: to_lowercase(l.title.as_str()),
        tag: variant_tag(l.title.as_str()),
        bucket: generation_bucket(l.category.as_str(), l.year),
    }
}

fn keys_match(level: u8, a: &ScoreKey, b: &ScoreKey) -> (r: bool)
    requires
        level <= 3,
    ensures
        forall|l: MotorcycleListing, m: MotorcycleListing|
            key_of(*a, l) && key_of(*b, m) ==> r == same_group(level as nat, l, m),
{
    if level == 0 {
        a.title == b.title && a.bucket == b.bucket
    } else if level == 1 {
        str_eq(a.tag, b.tag) && a.bucket == b.bucket
    } else if level == 2 {
        a.bucket == b.bucket
    } else {
        str_eq(a.tag, b.tag)
    }
}

/// Prices and mileages of the peers of listing `i` at `level`, in listing order.
fn collect_peers(ls: &Vec<MotorcycleListing>, keys: &Vec<ScoreKey>, level: u8, i: usize) -> (r: (Vec<u32>, Vec<u32>))
    requires
        level <= 3,
        i < ls.len(),
        keys.len() == ls.len(),
        forall|j: int| 0 <= j < ls.len() ==> key_of(#[trigger] keys@[j], ls@[j]),
    ensures
        r.0@ == prices_of(peers_in(ls@, level as nat, ls@[i as int])),
        r.1@ == kms_of(peers_in(ls@, level as nat, ls@[i as int])),
{
    let mut prices: Vec<u32> = Vec::new();
    let mut kms: Vec<u32> = Vec::new();
    let ghost l = ls@[i as int];
    let mut j: usize = 0;
    while j < ls.len()
        invariant
            level <= 3,
            i < ls.len(),
            j <= ls.len(),
            keys.len() == ls.len(),
            l == ls@[i as int],
            forall|q: int| 0 <= q < ls.len() ==> key_of(#[trigger] keys@[q], ls@[q]),
            prices@ == prices_of(peers_in(ls@.take(j as int), level as nat, l)),
            kms@ == kms_of(peers_in(ls@.take(j as int), level as nat, l)),
        decreases ls.len() - j,
    {
        let ghost before = peers_in(ls@.take(j as int), level as nat, l);
        assert(ls@.take(j + 1).drop_last() =~= ls@.take(j as int));
        assert(ls@.take(j + 1).last() == ls@[j as int]);
        let hit = keys_match(level, &keys[i], &keys[j]);
        assert(key_of(keys@[i as int], ls@[i as int]));
        assert(key_of(keys@[j as int], ls@[j as int]));
        if hit {
            prices.push(ls[j].price_chf);
            kms.push(ls[j].mileage_km);
            assert(prices_of(before.push(ls@[j as int])) =~= prices_of(before).push(ls@[j as int].price_chf));
            assert(kms_of(before.push(ls@[j as int])) =~= kms_of(before).push(ls@[j as int].mileage_km));
        }
        j = j + 1;
    }
    assert(ls@.take(ls.len() as int) =~= ls@);
    (prices, kms)
}

/// Peer statistics of every listing of `listings`, position by position.
///
/// This is the grouping half of scoring a category: a listing is compared with
/// the listings sharing its title and generation; when fewer than two such
/// listings exist (itself included), with those sharing its variant and
/// generation; then its generation (the year group); then its variant; and
/// with none when even that group holds only itself.
pub fn peer_stats(listings: &Vec<MotorcycleListing>) -> (r: Vec<Option<PeerStats>>)
    ensures
        r.len() == listings.len(),
        forall|i: int| 0 <= i < listings.len() ==> #[trigger] r@[i] == peer_stats_of(listings@, listings@[i]),
{
    let mut keys: Vec<ScoreKey> = Vec::new();
    let mut i: usize = 0;
    while i < listings.len()
        invariant
            i <= listings.len(),
            keys.len() == i,
            forall|j: int| 0 <= j < i ==> key_of(#[trigger] keys@[j], listings@[j]),
        decreases listings.len() - i,
    {
        keys.push(score_key(&listings[i]));
        i = i + 1;
    }
    let mut out: Vec<Option<PeerStats>> = Vec::new();
    let mut i: usize = 0;
    while i < listings.len()
        invariant
            i <= listings.len(),
            keys.len() == listings.len(),
            forall|j: int| 0 <= j < listings.len() ==> key_of(#[trigger] keys@[j], listings@[j]),
            out.len() == i,
            forall|j: int| 0 <= j < i ==> #[trigger] out@[j] == peer_stats_of(listings@, listings@[j]),
        decreases listings.len() - i,
    {
        let ghost l = listings@[i as int];
        let mut level: u8 = 0;
        let mut found: Option<PeerStats> = None;
        while level < 4 && found.is_none()
            invariant
                level <= 4,
                i < listings.len(),
                l == listings@[i as int],
                keys.len() == listings.len(),
                forall|j: int| 0 <= j < listings.len() ==> key_of(#[trigger] keys@[j], listings@[j]),
                forall|lv: nat| lv < level && found.is_none() ==> #[trigger] peers_in(listings@, lv, l).len() < 2,
                found.is_some() ==> found == peer_stats_of(listings@, l),
            decreases 4 - level,
        {
            let (prices, kms) = collect_peers(listings, &keys, level, i);
            if prices.len() >= 2 {
                let st = PeerStats { peers: prices.len(), median_price: median(&prices), median_km: median(&kms) };
                proof {
                    if level >= 1 {
                        assert(peers_in(listings@, 0, l).len() < 2);
                    }
                    if level >= 2 {
                        assert(peers_in(listings@, 1, l).len() < 2);
                    }
                    if level >= 3 {
                        assert(peers_in(listings@, 2, l).len() < 2);
                    }
                    assert(peer_level(listings@, l) == Some(level as nat));
                }
                found = Some(st);
            }
            level = level + 1;
        }
        proof {
            if found.is_none() {
                assert(peers_in(listings@, 0, l).len() < 2);
                assert(peers_in(listings@, 1, l).len() < 2);
                assert(peers_in(listings@, 2, l).len() < 2);
                assert(peers_in(listings@, 3, l).len() < 2);
            }
        }
        out.push(found);
        i = i + 1;
    }
    out
}

/// All fields but the score, its label and its peer count agree.
pub open spec fn same_but_score(a: MotorcycleListing, b: MotorcycleListing) -> bool {
    &&& a.listing_id == b.listing_id
    &&& a.fingerprint == b.fingerprint
    &&& a.status == b.status
    &&& a.first_seen == b.first_seen
    &&& a.last_seen == b.last_seen
    &&& a.category == b.category
    &&& a.title == b.title
    &&& a.price_chf == b.price_chf
    &&& a.original_price_chf == b.original_price_chf
    &&& a.year == b.year
    &&& a.mileage_km == b.mileage_km
    &&& a.url == b.url
    &&& a.location == b.location
    &&& a.kanton == b.kanton
    &&& a.is_private == b.is_private
    &&& a.seller_name == b.seller_name
    &&& a.previous_listing_id == b.previous_listing_id
    &&& a.generation == b.generation
}

/// `after` is `before` scored with peer statistics `stats` and score `delta_pct`:
/// without peers it is labelled "n/a" with one peer and keeps its score;
/// otherwise it takes the score, its label and the peer count (at most 255).
pub open spec fn scored_as(before: MotorcycleListing, after: MotorcycleListing, stats: Option<PeerStats>, delta_pct: i32) -> bool {
    &&& same_but_score(before, after)
    &&& match stats {
        None => {
            &&& after.price_label@ == "n/a"@
            &&& after.score_peers == 1
            &&& after.price_score == before.price_score
        },
        Some(st) => {
            &&& after.price_score == delta_pct
            &&& after.price_label@ == label_of(delta_pct)
            &&& after.score_peers as int == if st.peers < 255 { st.peers as int } else { 255 }
        },
    }
}

/// Writes scores into `listings`: position `i` gets the score `deltas[i]`
/// computed from `stats[i]`, or "n/a" where `stats[i]` is `None`.
pub fn apply_scores(listings: &mut Vec<MotorcycleListing>, stats: &Vec<Option<PeerStats>>, deltas: &Vec<i32>)
    requires
        stats.len() == old(listings).len(),
        deltas.len() == old(listings).len(),
    ensures
        final(listings).len() == old(listings).len(),
        forall|i: int| 0 <= i < old(listings).len() ==>
            scored_as(old(listings)@[i], #[trigger] final(listings)@[i], stats@[i], deltas@[i]),
{
    let mut i: usize = 0;
    while i < listings.len()
        invariant
            listings.len() == old(listings).len(),
            stats.len() == old(listings).len(),
            deltas.len() == old(listings).len(),
            i <= listings.len(),
            forall|j: int| 0 <= j < i ==> scored_as(old(listings)@[j], #[trigger] listings@[j], stats@[j], deltas@[j]),
            forall|j: int| i <= j < listings.len() ==> #[trigger] listings@[j] == old(listings)@[j],
        decreases listings.len() - i,
    {
        let mut l = listings[i].duplicate();
        match stats[i] {
            None => {
                l.price_label = "n/a".to_owned();
                l.score_peers = 1;
            },
            Some(st) => {
                l.price_score = deltas[i];
                l.price_label = label(deltas[i]).to_owned();
                l.score_peers = if st.peers < 255 { st.peers as u8 } else { 255 };
            },
        }
        listings.set(i, l);
        i = i + 1;
    }
}

/// Law: a listing is always among its own peers, at every comparison level;
/// a group of two peers therefore holds one other listing, and a listing
/// alone in its group is scored "n/a".
pub proof fn law_listing_is_its_own_peer(ls: Seq<MotorcycleListing>, level: nat, i: int)
    requires
        0 <= i < ls.len(),
    ensures
        peers_in(ls, level, ls[i]).contains(ls[i]),
    decreases ls.len(),
{
    let l = ls[i];
    if i == ls.len() - 1 {
        assert(same_group(level, l, l));
        assert(peers_in(ls, level, l).last() == l);
    } else {
        assert(ls.drop_last()[i] == l);
        law_listing_is_its_own_peer(ls.drop_last(), level, i);
        let rest = peers_in(ls.drop_last(), level, l);
        let j = choose|j: int| 0 <= j < rest.len() && rest[j] == l;
        if same_group(level, l, ls.last()) {
            assert(rest.push(ls.last())[j] == l);
        }
    }
}

/// What the expected-price formula needs for one listing: the peers' median
/// price, the mileage gap to the peers' median (capped at 5000 km either way),
/// the canton factor in percent, the seller type and the asking price.
#[derive(Clone, Copy, Debug)]
pub struct ScoreInputs {
    pub median_price: u32,
    pub km_delta: i32,
    pub canton_percent: u32,
    pub is_private: bool,
    pub price_chf: u32,
}

pub open spec fn clamp_km(d: int) -> int {
    if d < -5000 { -5000 } else if d > 5000 { 5000 } else { d }
}

pub fn score_inputs(l: &MotorcycleListing, st: &PeerStats) -> (r: ScoreInputs)
    ensures
        r.median_price == st.median_price,
        r.km_delta as int == clamp_km(st.median_km as int - l.mileage_km as int),
        r.canton_percent == canton_percent_of(upper(l.kanton@)),
        r.is_private == l.is_private,
        r.price_chf == l.price_chf,
{
    let km_delta: i32 = if st.median_km >= l.mileage_km {
        let d = st.median_km - l.mileage_km;
        if d > 5000 { 5000 } else { d as i32 }
    } else {
        let d = l.mileage_km - st.median_km;
        if d > 5000 { -5000 } else { -(d as i32) }
    };
    ScoreInputs {
        median_price: st.median_price,
        km_delta,
        canton_percent: canton_multiplier(l.kanton.as_str()),
        is_private: l.is_private,
        price_chf: l.price_chf,
    }
}

/// One step of collecting, into a multiset, the prices of the peers of `l` at `level`.
pub open spec fn price_step(level: nat, l: MotorcycleListing) -> spec_fn(Multiset<u32>, MotorcycleListing) -> Multiset<u32> {
    |acc: Multiset<u32>, m: MotorcycleListing| if same_group(level, l, m) { acc.insert(m.price_chf) } else { acc }
}

/// One step of collecting, into a multiset, the mileages of the peers of `l` at `level`.
pub open spec fn km_step(level: nat, l: MotorcycleListing) -> spec_fn(Multiset<u32>, MotorcycleListing) -> Multiset<u32> {
    |acc: Multiset<u32>, m: MotorcycleListing| if same_group(level, l, m) { acc.insert(m.mileage_km) } else { acc }
}

proof fn lemma_peer_bags(ls: Seq<MotorcycleListing>, level: nat, l: MotorcycleListing)
    ensures
        prices_of(peers_in(ls, level, l)).to_multiset() == ls.fold_left(Multiset::empty(), price_step(level, l)),
        kms_of(peers_in(ls, level, l)).to_multiset() == ls.fold_left(Multiset::empty(), km_step(level, l)),
    decreases ls.len(),
{
    broadcast use vstd::seq_lib::group_to_multiset_ensures;
    let p = peers_in(ls, level, l);
    if ls.len() == 0 {
        assert(prices_of(p).to_multiset() =~= Multiset::empty());
        assert(kms_of(p).to_multiset() =~= Multiset::empty());
    } else {
        lemma_peer_bags(ls.drop_last(), level, l);
        let q = peers_in(ls.drop_last(), level, l);
        let m = ls.last();
        if same_group(level, l, m) {
            assert(prices_of(q.push(m)) =~= prices_of(q).push(m.price_chf));
            assert(kms_of(q.push(m)) =~= kms_of(q).push(m.mileage_km));
        }
    }
}

proof fn lemma_steps_commute(level: nat, l: MotorcycleListing)
    ensures
        vstd::seq_lib::commutative_foldl(price_step(level, l)),
        vstd::seq_lib::commutative_foldl(km_step(level, l)),
{
    broadcast use vstd::multiset::group_multiset_axioms;
    let f = price_step(level, l);
    let g = km_step(level, l);
    assert forall|x: MotorcycleListing, y: MotorcycleListing, v: Multiset<u32>| #[trigger] f(f(v, x), y) == f(f(v, y), x) by {
        assert(f(f(v, x), y) =~= f(f(v, y), x));
    }
    assert forall|x: MotorcycleListing, y: MotorcycleListing, v: Multiset<u32>| #[trigger] g(g(v, x), y) == g(g(v, y), x) by {
        assert(g(g(v, x), y) =~= g(g(v, y), x));
    }
}

/// The peers of `l` at one level, in two orderings of the same listings,
/// have the same prices and mileages, and as many of them.
proof fn lemma_peers_reordered(ls: Seq<MotorcycleListing>, other: Seq<MotorcycleListing>, level: nat, l: MotorcycleListing)
    requires
        ls.to_multiset() == other.to_multiset(),
    ensures
        prices_of(peers_in(ls, level, l)).to_multiset() == prices_of(peers_in(other, level, l)).to_multiset(),
        kms_of(peers_in(ls, level, l)).to_multiset() == kms_of(peers_in(other, level, l)).to_multiset(),
        peers_in(ls, level, l).len() == peers_in(other, level, l).len(),
{
    broadcast use vstd::seq_lib::group_to_multiset_ensures;
    lemma_peer_bags(ls, level, l);
    lemma_peer_bags(other, level, l);
    lemma_steps_commute(level, l);
    vstd::seq_lib::lemma_fold_left_permutation(ls, other, price_step(level, l), Multiset::empty());
    vstd::seq_lib::lemma_fold_left_permutation(ls, other, km_step(level, l), Multiset::empty());
    let a = prices_of(peers_in(ls, level, l));
    let b = prices_of(peers_in(other, level, l));
    assert(a.len() == a.to_multiset().len());
    assert(b.len() == b.to_multiset().len());
}

/// Law: scoring does not depend on the order of the listings; in any
/// reordering of the same listings, every listing gets the same peer
/// statistics, hence the same score, label and peer count.
pub proof fn law_peer_stats_ignore_order(ls: Seq<MotorcycleListing>, other: Seq<MotorcycleListing>, l: MotorcycleListing)
    requires
        ls.to_multiset() == other.to_multiset(),
    ensures
        peer_stats_of(ls, l) == peer_stats_of(other, l),
{
    lemma_peers_reordered(ls, other, 0, l);
    lemma_peers_reordered(ls, other, 1, l);
    lemma_peers_reordered(ls, other, 2, l);
    lemma_peers_reordered(ls, other, 3, l);
    assert(peer_level(ls, l) == peer_level(other, l));
    match peer_level(ls, l) {
        Some(level) => {
            law_median_ignores_order(prices_of(peers_in(ls, level, l)), prices_of(peers_in(other, level, l)));
            law_median_ignores_order(kms_of(peers_in(ls, level, l)), kms_of(peers_in(other, level, l)));
        },
        None => {},
    }
}

/// Whether `perm` names each position below `n` exactly once.
pub open spec fn is_permutation(perm: Seq<int>, n: int) -> bool {
    &&& perm.len() == n
    &&& forall|k: int| 0 <= k < n ==> 0 <= #[trigger] perm[k] < n
    &&& forall|a: int, b: int| 0 <= a < b < n ==> #[trigger] perm[a] != #[trigger] perm[b]
}

/// Whether `other` lists the listings of `ls` in the order `perm` gives:
/// position `k` of `other` holds position `perm[k]` of `ls`.
pub open spec fn reordered(ls: Seq<MotorcycleListing>, other: Seq<MotorcycleListing>, perm: Seq<int>) -> bool {
    &&& is_permutation(perm, ls.len() as int)
    &&& other.len() == ls.len()
    &&& forall|k: int| 0 <= k < other.len() ==> #[trigger] other[k] == ls[perm[k]]
}

/// A reordering holds the same listings, as many times each.
pub proof fn lemma_reordered_same_multiset(ls: Seq<MotorcycleListing>, other: Seq<MotorcycleListing>, perm: Seq<int>)
    requires
        reordered(ls, other, perm),
    ensures
        other.to_multiset() == ls.to_multiset(),
    decreases ls.len(),
{
    broadcast use vstd::seq_lib::group_to_multiset_ensures;
    broadcast use vstd::multiset::group_multiset_axioms;
    let n = ls.len() as int;
    if n == 0 {
        assert(other.to_multiset() =~= ls.to_multiset());
    } else {
        let p = perm[n - 1];
        let ls2 = ls.remove(p);
        let perm2 = Seq::new((n - 1) as nat, |k: int| if perm[k] < p { perm[k] } else { perm[k] - 1 });
        let other2 = other.drop_last();
        assert forall|k: int| 0 <= k < n - 1 implies 0 <= #[trigger] perm2[k] < n - 1 by {
            assert(perm[k] != perm[n - 1]);
        }
        assert forall|a: int, b: int| 0 <= a < b < n - 1 implies #[trigger] perm2[a] != #[trigger] perm2[b] by {
            assert(perm[a] != perm[b]);
            assert(perm[a] != perm[n - 1]);
            assert(perm[b] != perm[n - 1]);
        }
        assert forall|k: int| 0 <= k < other2.len() implies #[trigger] other2[k] == ls2[perm2[k]] by {
            assert(other[k] == ls[perm[k]]);
            assert(perm[k] != perm[n - 1]);
        }
        lemma_reordered_same_multiset(ls2, other2, perm2);
        assert(other =~= other2.push(other[n - 1]));
        assert(other[n - 1] == ls[p]);
        assert(ls2.to_multiset() == ls.to_multiset().remove(ls[p]));
        assert(ls.to_multiset().contains(ls[p]));
        assert(other.to_multiset() =~= ls.to_multiset());
    }
}

/// Law: peer statistics follow a reordering of the listings: in the
/// reordered list, each listing gets the statistics it got before.
pub proof fn law_peer_stats_follow_permutation(ls: Seq<MotorcycleListing>, other: Seq<MotorcycleListing>, perm: Seq<int>)
    requires
        reordered(ls, other, perm),
    ensures
        forall|k: int| 0 <= k < other.len() ==> #[trigger] peer_stats_of(other, other[k]) == peer_stats_of(ls, ls[perm[k]]),
{
    lemma_reordered_same_multiset(ls, other, perm);
    assert forall|k: int| 0 <= k < other.len() implies #[trigger] peer_stats_of(other, other[k]) == peer_stats_of(ls, ls[perm[k]]) by {
        law_peer_stats_ignore_order(ls, other, other[k]);
    }
}

/// Law: scoring follows a reordering of the listings. When both orders are
/// scored against their peer statistics, and each listing's score comes out
/// the same in both (the expected-price formula depends only on the listing
/// and its statistics), then each listing gets the same score, label and peer
/// count in both orders.
pub proof fn law_scores_follow_permutation(
    ls: Seq<MotorcycleListing>,
    other: Seq<MotorcycleListing>,
    perm: Seq<int>,
    deltas: Seq<i32>,
    other_deltas: Seq<i32>,
    after: Seq<MotorcycleListing>,
    other_after: Seq<MotorcycleListing>,
)
    requires
        reordered(ls, other, perm),
        deltas.len() == ls.len(),
        other_deltas.len() == ls.len(),
        forall|k: int| 0 <= k < ls.len() ==> #[trigger] other_deltas[k] == deltas[perm[k]],
        after.len() == ls.len(),
        other_after.len() == ls.len(),
        forall|i: int| 0 <= i < ls.len() ==> scored_as(ls[i], #[trigger] after[i], peer_stats_of(ls, ls[i]), deltas[i]),
        forall|i: int| 0 <= i < ls.len() ==> scored_as(other[i], #[trigger] other_after[i], peer_stats_of(other, other[i]), other_deltas[i]),
    ensures
        forall|k: int| 0 <= k < ls.len() ==> {
            &&& (#[trigger] other_after[k]).price_score == after[perm[k]].price_score
            &&& other_after[k].price_label@ == after[perm[k]].price_label@
            &&& other_after[k].score_peers == after[perm[k]].score_peers
        },
{
    law_peer_stats_follow_permutation(ls, other, perm);
    assert forall|k: int| 0 <= k < ls.len() implies {
        &&& (#[trigger] other_after[k]).price_score == after[perm[k]].price_score
        &&& other_after[k].price_label@ == after[perm[k]].price_label@
        &&& other_after[k].score_peers == after[perm[k]].score_peers
    } by {
        let j = perm[k];
        assert(0 <= j < ls.len());
        assert(other[k] == ls[j]);
        assert(peer_stats_of(other, other[k]) == peer_stats_of(ls, ls[j]));
        assert(scored_as(ls[j], after[j], peer_stats_of(ls, ls[j]), deltas[j]));
        assert(scored_as(other[k], other_after[k], peer_stats_of(other, other[k]), other_deltas[k]));
    }
}

proof fn lemma_peers_in_members(ls: Seq<MotorcycleListing>, level: nat, l: MotorcycleListing, m: MotorcycleListing)
    ensures
        peers_in(ls, level, l).contains(m) <==> (ls.contains(m) && same_group(level, l, m)),
    decreases ls.len(),
{
    if ls.len() > 0 {
        lemma_peers_in_members(ls.drop_last(), level, l, m);
        let rest = peers_in(ls.drop_last(), level, l);
        if ls.contains(m) && same_group(level, l, m) {
            let i = choose|i: int| 0 <= i < ls.len() && ls[i] == m;
            if i < ls.len() - 1 {
                assert(ls.drop_last()[i] == m);
                let j = choose|j: int| 0 <= j < rest.len() && rest[j] == m;
                if same_group(level, l, ls.last()) {
                    assert(rest.push(ls.last())[j] == m);
                }
            } else {
                assert(peers_in(ls, level, l).last() == m);
            }
        }
        if peers_in(ls, level, l).contains(m) {
            let j = choose|j: int| 0 <= j < peers_in(ls, level, l).len() && peers_in(ls, level, l)[j] == m;
            if same_group(level, l, ls.last()) && j == rest.len() {
                assert(ls[ls.len() - 1] == m);
            } else {
                assert(rest[j] == m);
                let i = choose|i: int| 0 <= i < ls.drop_last().len() && ls.drop_last()[i] == m;
                assert(ls[i] == m);
            }
        }
    }
}

/// Law: who is compared with whom. A listing `m` of `ls` is a peer of `l`
/// - at the first level exactly when both titles read the same once lower-cased
///   and both fall in the same generation bucket;
/// - at the second level exactly when both titles name the same variant and
///   both fall in the same generation bucket, whatever the titles otherwise say;
/// - at the third level exactly when both fall in the same generation bucket;
/// - at the fourth level exactly when both titles name the same variant.
pub proof fn law_peer_groups(ls: Seq<MotorcycleListing>, l: MotorcycleListing, m: MotorcycleListing)
    ensures
        peers_in(ls, 0, l).contains(m) <==> ls.contains(m) && lower(l.title@) == lower(m.title@)
            && generation_bucket_spec(l.category@, l.year) == generation_bucket_spec(m.category@, m.year),
        peers_in(ls, 1, l).contains(m) <==> ls.contains(m) && variant_tag_spec(l.title@) == variant_tag_spec(m.title@)
            && generation_bucket_spec(l.category@, l.year) == generation_bucket_spec(m.category@, m.year),
        peers_in(ls, 2, l).contains(m) <==> ls.contains(m)
            && generation_bucket_spec(l.category@, l.year) == generation_bucket_spec(m.category@, m.year),
        peers_in(ls, 3, l).contains(m) <==> ls.contains(m) && variant_tag_spec(l.title@) == variant_tag_spec(m.title@),
{
    lemma_peers_in_members(ls, 0, l, m);
    lemma_peers_in_members(ls, 1, l, m);
    lemma_peers_in_members(ls, 2, l, m);
    lemma_peers_in_members(ls, 3, l, m);
}

/// Law: the regional price factors, in percent, canton by canton (codes in
/// upper case): Zürich 108, Geneva 107, Zug 106, Vaud 105, the two Basels
/// 104, Aargau and Solothurn 102, Bern, Lucerne, Thurgau, Schaffhausen and
/// St. Gallen 100, Fribourg and Neuchâtel 97, Ticino and Graubünden 96,
/// Valais, Jura, Uri, Obwalden, Nidwalden, Schwyz, Glarus and both Appenzells
/// 94; any other code 100.
pub proof fn law_canton_factors(code: Seq<char>)
    ensures
        code == "ZH"@ ==> canton_percent_of(code) == 108,
        code == "GE"@ ==> canton_percent_of(code) == 107,
        code == "ZG"@ ==> canton_percent_of(code) == 106,
        code == "VD"@ ==> canton_percent_of(code) == 105,
        code == "BS"@ ==> canton_percent_of(code) == 104,
        code == "BL"@ ==> canton_percent_of(code) == 104,
        code == "AG"@ ==> canton_percent_of(code) == 102,
        code == "SO"@ ==> canton_percent_of(code) == 102,
        code == "BE"@ ==> canton_percent_of(code) == 100,
        code == "LU"@ ==> canton_percent_of(code) == 100,
        code == "TG"@ ==> canton_percent_of(code) == 100,
        code == "SH"@ ==> canton_percent_of(code) == 100,
        code == "SG"@ ==> canton_percent_of(code) == 100,
        code == "FR"@ ==> canton_percent_of(code) == 97,
        code == "NE"@ ==> canton_percent_of(code) == 97,
        code == "TI"@ ==> canton_percent_of(code) == 96,
        code == "GR"@ ==> canton_percent_of(code) == 96,
        code == "VS"@ ==> canton_percent_of(code) == 94,
        code == "JU"@ ==> canton_percent_of(code) == 94,
        code == "UR"@ ==> canton_percent_of(code) == 94,
        code == "OW"@ ==> canton_percent_of(code) == 94,
        code == "NW"@ ==> canton_percent_of(code) == 94,
        code == "SZ"@ ==> canton_percent_of(code) == 94,
        code == "GL"@ ==> canton_percent_of(code) == 94,
        code == "AR"@ ==> canton_percent_of(code) == 94,
        code == "AI"@ ==> canton_percent_of(code) == 94,
        code != "ZH"@ && code != "GE"@ && code != "ZG"@ && code != "VD"@ && code != "BS"@ && code != "BL"@ && code != "AG"@ && code != "SO"@ && code != "BE"@ && code != "LU"@ && code != "TG"@ && code != "SH"@ && code != "SG"@ && code != "FR"@ && code != "NE"@ && code != "TI"@ && code != "GR"@ && code != "VS"@ && code != "JU"@ && code != "UR"@ && code != "OW"@ && code != "NW"@ && code != "SZ"@ && code != "GL"@ && code != "AR"@ && code != "AI"@ ==> canton_percent_of(code) == 100,
{
    reveal_strlit("ZH");
    assert("ZH"@[0] == 'Z' && "ZH"@[1] == 'H' && "ZH"@.len() == 2);
    reveal_strlit("GE");
    assert("GE"@[0] == 'G' && "GE"@[1] == 'E' && "GE"@.len() == 2);
    reveal_strlit("ZG");
    assert("ZG"@[0] == 'Z' && "ZG"@[1] == 'G' && "ZG"@.len() == 2);
    reveal_strlit("VD");
    assert("VD"@[0] == 'V' && "VD"@[1] == 'D' && "VD"@.len() == 2);
    reveal_strlit("BS");
    assert("BS"@[0] == 'B' && "BS"@[1] == 'S' && "BS"@.len() == 2);
    reveal_strlit("BL");
    assert("BL"@[0] == 'B' && "BL"@[1] == 'L' && "BL"@.len() == 2);
    reveal_strlit("AG");
    assert("AG"@[0] == 'A' && "AG"@[1] == 'G' && "AG"@.len() == 2);
    reveal_strlit("SO");
    assert("SO"@[0] == 'S' && "SO"@[1] == 'O' && "SO"@.len() == 2);
    reveal_strlit("BE");
    assert("BE"@[0] == 'B' && "BE"@[1] == 'E' && "BE"@.len() == 2);
    reveal_strlit("LU");
    assert("LU"@[0] == 'L' && "LU"@[1] == 'U' && "LU"@.len() == 2);
    reveal_strlit("TG");
    assert("TG"@[0] == 'T' && "TG"@[1] == 'G' && "TG"@.len() == 2);
    reveal_strlit("SH");
    assert("SH"@[0] == 'S' && "SH"@[1] == 'H' && "SH"@.len() == 2);
    reveal_strlit("SG");
    assert("SG"@[0] == 'S' && "SG"@[1] == 'G' && "SG"@.len() == 2);
    reveal_strlit("FR");
    assert("FR"@[0] == 'F' && "FR"@[1] == 'R' && "FR"@.len() == 2);
    reveal_strlit("NE");
    assert("NE"@[0] == 'N' && "NE"@[1] == 'E' && "NE"@.len() == 2);
    reveal_strlit("TI");
    assert("TI"@[0] == 'T' && "TI"@[1] == 'I' && "TI"@.len() == 2);
    reveal_strlit("GR");
    assert("GR"@[0] == 'G' && "GR"@[1] == 'R' && "GR"@.len() == 2);
    reveal_strlit("VS");
    assert("VS"@[0] == 'V' && "VS"@[1] == 'S' && "VS"@.len() == 2);
    reveal_strlit("JU");
    assert("JU"@[0] == 'J' && "JU"@[1] == 'U' && "JU"@.len() == 2);
    reveal_strlit("UR");
    assert("UR"@[0] == 'U' && "UR"@[1] == 'R' && "UR"@.len() == 2);
    reveal_strlit("OW");
    assert("OW"@[0] == 'O' && "OW"@[1] == 'W' && "OW"@.len() == 2);
    reveal_strlit("NW");
    assert("NW"@[0] == 'N' && "NW"@[1] == 'W' && "NW"@.len() == 2);
    reveal_strlit("SZ");
    assert("SZ"@[0] == 'S' && "SZ"@[1] == 'Z' && "SZ"@.len() == 2);
    reveal_strlit("GL");
    assert("GL"@[0] == 'G' && "GL"@[1] == 'L' && "GL"@.len() == 2);
    reveal_strlit("AR");
    assert("AR"@[0] == 'A' && "AR"@[1] == 'R' && "AR"@.len() == 2);
    reveal_strlit("AI");
    assert("AI"@[0] == 'A' && "AI"@[1] == 'I' && "AI"@.len() == 2);
    if code.len() == 2 {
        assert(code[0] == code[0] && code[1] == code[1]);
    }
}

} // verus!
