//! motorradhandel.ch for the first tracker: one search page per category.
use vstd::prelude::*;
use crate::backend::infrastructure::scrapers::motorradhandel::{item_kept, or_empty, registration_year, title_of, year_of, MhListing};
use crate::models::motorcycle::{fingerprint_of, Day, ListingStatus, MotorcycleListing};
use crate::text::{dec, fmt_u64, trim};

verus! {

/// Whether `l` is the listing that result `item` of category `category` gives
/// on day `today` (the short `/vi/` detail URL, no place or seller data).
pub open spec fn category_listing_of_item(item: MhListing, category: Seq<char>, today: Day, l: MotorcycleListing) -> bool {
    let mileage = match item.fzg_km { Some(k) => k, None => 0 };
    &&& l.listing_id == item.id
    &&& l.first_seen == today
    &&& l.last_seen == today
    &&& l.status == ListingStatus::Active
    &&& l.category@ == category
    &&& l.title@ == title_of(item)
    &&& l.price_chf == item.fzg_preis->0
    &&& l.original_price_chf == item.fzg_preis->0
    &&& l.mileage_km == mileage
    &&& l.year == year_of(item.fzg_1iv)
    &&& l.fingerprint@ == fingerprint_of(title_of(item), year_of(item.fzg_1iv), mileage)
    &&& l.url@ == "https://motorradhandel.ch/vi/"@ + dec(item.id as nat)
    &&& l.location@ == Seq::<char>::empty()
    &&& l.kanton@ == Seq::<char>::empty()
    &&& l.seller_name@ == Seq::<char>::empty()
    &&& !l.is_private
    &&& l.price_score == 0
    &&& l.price_label@ == Seq::<char>::empty()
    &&& l.score_peers == 0
    &&& l.previous_listing_id is None
    &&& l.generation is None
}

/// The listing of one store result in category `category`; results without a
/// price or a title are skipped.
pub fn listing_from_item(item: &MhListing, category: &str, today: Day) -> (r: Option<MotorcycleListing>)
    ensures
        match r {
            Some(l) => item_kept(*item) && category_listing_of_item(*item, category@, today, l),
            None => !item_kept(*item),
        },
{
    let price = match item.fzg_preis {
        Some(p) => p,
        None => return None,
    };
    let mileage = match item.fzg_km {
        Some(k) => k,
        None => 0,
    };
    let year = registration_year(&item.fzg_1iv);
    let marke = match &item.rel_marke {
        Some(m) => m.clone(),
        None => String::new(),
    };
    let modell = match &item.rel_modelle {
        Some(m) => m.clone(),
        None => String::new(),
    };
    assert(marke@ == or_empty(item.rel_marke));
    assert(modell@ == or_empty(item.rel_modelle));
    let joined = marke.concat(" ").concat(modell.as_str());
    let title = trim(joined.as_str()).to_owned();
    if title.as_str().unicode_len() == 0 {
        return None;
    }
    let url = "https://motorradhandel.ch/vi/".to_owned().concat(fmt_u64(item.id).as_str());
    Some(MotorcycleListing::new(
        item.id,
        today,
        category.to_owned(),
        title,
        price,
        mileage,
        year,
        url,
        String::new(),
        String::new(),
        false,
        String::new(),
    ))
}

} // verus!
