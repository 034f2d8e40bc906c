//! The listing entity: one advert of one motorcycle on one marketplace.
use vstd::prelude::*;
use crate::text::{all_ascii, ascii_lower, dec, is_ascii_char, leading_ws, lemma_trimmed_within, lower, trimmed, fmt_u64, to_lowercase, trim};

verus! {

/// Where a listing stands in its life cycle.
#[derive(Clone, Copy, Debug, PartialEq, Eq, Structural)]
pub enum ListingStatus {
    Active,
    Sold,
    Relisted,
}

/// A calendar day, counted as days since 0001-01-01 (day 1).
pub type Day = i32;

/// One advert. `listing_id` is the marketplace's own ad ID and the primary
/// key; `fingerprint` identifies the physical motorcycle across adverts.
#[derive(Clone, Debug)]
pub struct MotorcycleListing {
    pub listing_id: u64,
    pub fingerprint: String,
    pub status: ListingStatus,
    pub first_seen: Day,
    pub last_seen: Day,
    pub category: String,
    pub title: String,
    pub price_chf: u32,
    /// Price when first seen; never overwritten.
    pub original_price_chf: u32,
    pub year: u16,
    pub mileage_km: u32,
    pub url: String,
    pub location: String,
    pub kanton: String,
    pub is_private: bool,
    pub seller_name: String,
    /// Percent cheaper (+) or dearer (-) than its peers suggest.
    pub price_score: i32,
    pub price_label: String,
    /// Number of listings the score is based on.
    pub score_peers: u8,
    /// The ad ID this listing replaced, when it is a detected relist.
    pub previous_listing_id: Option<u64>,
    pub generation: Option<String>,
}

/// Mileage rounded for fingerprinting, halves up: to the nearest 100 km below
/// 1000 km, to the nearest 1000 km from 1000 km on.
pub open spec fn rounded_km(km: u32) -> nat {
    if km < 1000 {
        (((km + 50) / 100) * 100) as nat
    } else {
        (((km + 500) / 1000) * 1000) as nat
    }
}

/// The fingerprint of a motorcycle: trimmed lower-case title, year and rounded
/// mileage, joined by `|`.
pub open spec fn fingerprint_of(title: Seq<char>, year: u16, mileage_km: u32) -> Seq<char> {
    lower(trimmed(title)) + seq!['|'] + dec(year as nat) + seq!['|'] + dec(rounded_km(mileage_km))
}

impl MotorcycleListing {
    /// Stable fingerprint identifying the physical motorcycle regardless of listing ID.
    ///
    /// Mileage rounding is tiered to avoid collisions on nearly-new bikes:
    ///   <1000km  → nearest 100km  (10km and 200km are different buckets)
    ///   ≥1000km  → nearest 1000km (absorbs minor real-world discrepancies on relists)
    pub fn build_fingerprint(title: &str, year: u16, mileage_km: u32) -> (r: String)
        ensures
            r@ == fingerprint_of(title@, year, mileage_km),
            all_ascii(title@) ==> r@ == ascii_lower(trimmed(title@)) + seq!['|'] + dec(year as nat) + seq!['|']
                + dec(rounded_km(mileage_km)),
    {
        let t = trim(title);
        proof {
            if all_ascii(title@) {
                assert(all_ascii(t@)) by {
                    lemma_trimmed_within(title@);
                    assert forall|i: int| 0 <= i < t@.len() implies is_ascii_char(#[trigger] t@[i]) by {
                        assert(t@[i] == title@[i + leading_ws(title@)]);
                        assert(is_ascii_char(title@[i + leading_ws(title@)]));
                    }
                }
            }
        }
        let normalized = to_lowercase(t);
        let km = mileage_km as u64;
        let rounded_km: u64 = if mileage_km < 1_000 {
            ((km + 50) / 100) * 100
        } else {
            ((km + 500) / 1_000) * 1_000
        };
        let y = fmt_u64(year as u64);
        let k = fmt_u64(rounded_km);
        let r = normalized.concat("|").concat(y.as_str()).concat("|").concat(k.as_str());
        proof {
            reveal_strlit("|");
        }
        r
    }

    /// A listing seen for the first time on day `today`: active, first and
    /// last seen today, original price equal to the current price, unscored.
    pub fn new(
        listing_id: u64,
        today: Day,
        category: String,
        title: String,
        price_chf: u32,
        mileage_km: u32,
        year: u16,
        url: String,
        location: String,
        kanton: String,
        is_private: bool,
        seller_name: String,
    ) -> (r: Self)
        ensures
            r.listing_id == listing_id,
            r.fingerprint@ == fingerprint_of(title@, year, mileage_km),
            r.status == ListingStatus::Active,
            r.first_seen == today,
            r.last_seen == today,
            r.category == category,
            r.title == title,
            r.price_chf == price_chf,
            r.original_price_chf == price_chf,
            r.year == year,
            r.mileage_km == mileage_km,
            r.url == url,
            r.location == location,
            r.kanton == kanton,
            r.is_private == is_private,
            r.seller_name == seller_name,
            r.price_score == 0,
            r.price_label@ == Seq::<char>::empty(),
            r.score_peers == 0,
            r.previous_listing_id.is_none(),
            r.generation.is_none(),
    {
        let fingerprint = Self::build_fingerprint(title.as_str(), year, mileage_km);
        MotorcycleListing {
            listing_id,
            fingerprint,
            status: ListingStatus::Active,
            first_seen: today,
            last_seen: today,
            category,
            title,
            price_chf,
            original_price_chf: price_chf,
            year,
            mileage_km,
            url,
            location,
            kanton,
            is_private,
            seller_name,
            price_score: 0,
            price_label: String::new(),
            score_peers: 0,
            previous_listing_id: None,
            generation: None,
        }
    }

    /// A field-for-field copy of the listing.
    pub fn duplicate(&self) -> (r: Self)
        ensures
            r == *self,
    {
        let generation = match &self.generation {
            Some(g) => Some(g.clone()),
            None => None,
        };
        MotorcycleListing {
            listing_id: self.listing_id,
            fingerprint: self.fingerprint.clone(),
            status: self.status,
            first_seen: self.first_seen,
            last_seen: self.last_seen,
            category: self.category.clone(),
            title: self.title.clone(),
            price_chf: self.price_chf,
            original_price_chf: self.original_price_chf,
            year: self.year,
            mileage_km: self.mileage_km,
            url: self.url.clone(),
            location: self.location.clone(),
            kanton: self.kanton.clone(),
            is_private: self.is_private,
            seller_name: self.seller_name.clone(),
            price_score: self.price_score,
            price_label: self.price_label.clone(),
            score_peers: self.score_peers,
            previous_listing_id: self.previous_listing_id,
            generation,
        }
    }
}

/// Law: the fingerprint sees only the normalized title (trimmed, lower-case),
/// the year and the rounded mileage, so two adverts of one bike whose
/// mileages round to the same nearest hundred (below 1000 km) or thousand
/// (from 1000 km on) get the same fingerprint.
pub proof fn law_fingerprint_ignores_small_differences(
    title_a: Seq<char>,
    title_b: Seq<char>,
    year: u16,
    km_a: u32,
    km_b: u32,
)
    requires
        lower(trimmed(title_a)) == lower(trimmed(title_b)),
        km_a < 1000 && km_b < 1000 ==> (km_a + 50) / 100 == (km_b + 50) / 100,
        km_a >= 1000 && km_b >= 1000 ==> (km_a + 500) / 1000 == (km_b + 500) / 1000,
        (km_a < 1000) == (km_b < 1000),
    ensures
        fingerprint_of(title_a, year, km_a) == fingerprint_of(title_b, year, km_b),
{
    assert(rounded_km(km_a) == rounded_km(km_b));
}

} // verus!
