//! motorradhandel.ch: the search pages embed their results as a JSON store
//! object; the listings are read from it, page after page.
use vstd::prelude::*;
use crate::models::motorcycle::{Day, MotorcycleListing, fingerprint_of, ListingStatus};
use crate::text::{
    char_is_alphanumeric, chars_of, dec, find_first, first_at_or_after, fmt_u64, is_alnum,
    is_first_at_or_after, lower, string_from_chars, strip_semicolons, sub_chars, to_lowercase, trim,
    trim_end_semicolons, trimmed, first_piece, before_first, parse_u16, parse_unsigned,
};
use crate::store::id_in;
use crate::notify::ids_distinct;

verus! {

/// The slug of one character: a space becomes a hyphen; letters, digits and
/// hyphens stay; anything else goes.
pub open spec fn slug_chars(s: Seq<char>) -> Seq<char>
    decreases s.len(),
{
    if s.len() == 0 {
        Seq::empty()
    } else {
        let c = s.last();
        let prev = slug_chars(s.drop_last());
        if c == ' ' {
            prev.push('-')
        } else if is_alnum(c) || c == '-' {
            prev.push(c)
        } else {
            prev
        }
    }
}

/// The URL slug of a name: trimmed, lower-cased, spaces made hyphens, and
/// only letters, digits and hyphens kept.
pub open spec fn slug_of(s: Seq<char>) -> Seq<char> {
    slug_chars(lower(trimmed(s)))
}

pub fn to_slug(s: &str) -> (r: String)
    ensures
        r@ == slug_of(s@),
{
    let low = to_lowercase(trim(s));
    let v = chars_of(low.as_str());
    let mut out: Vec<char> = Vec::new();
    let mut i: usize = 0;
    while i < v.len()
        invariant
            i <= v.len(),
            out@ == slug_chars(v@.take(i as int)),
        decreases v.len() - i,
    {
        assert(v@.take(i + 1).drop_last() =~= v@.take(i as int));
        let c = v[i];
        if c == ' ' {
            out.push('-');
        } else if char_is_alphanumeric(c) || c == '-' {
            out.push(c);
        }
        i = i + 1;
    }
    assert(v@.take(v.len() as int) =~= v@);
    string_from_chars(out.as_slice())
}

/// The category key of a brand and model, e.g. "yamaha-tenere-700": the two
/// slugs joined by a hyphen, or just the one that is not empty.
pub open spec fn category_of(marke: Seq<char>, modell: Seq<char>) -> Seq<char> {
    let b = slug_of(marke);
    let m = slug_of(modell);
    if b.len() == 0 || m.len() == 0 {
        b + m
    } else {
        b + "-"@ + m
    }
}

/// Derive a stable category key from brand + model, e.g. "yamaha-tenere-700".
pub fn derive_category(marke: &str, modell: &str) -> (r: String)
    ensures
        r@ == category_of(marke@, modell@),
{
    let b = to_slug(marke);
    let m = to_slug(modell);
    if b.as_str().unicode_len() == 0 || m.as_str().unicode_len() == 0 {
        return b.concat(m.as_str());
    }
    b.concat("-").concat(m.as_str())
}

/// The URL of search page `page`: the base URL for page 1, with `&p=N` appended otherwise.
pub open spec fn page_url_of(base: Seq<char>, page: u32) -> Seq<char> {
    if page == 1 {
        base
    } else {
        base + "&p="@ + dec(page as nat)
    }
}

/// Build a page URL: page 1 uses the base URL as-is; subsequent pages append &p=N.
pub fn page_url(base: &str, page: u32) -> (r: String)
    ensures
        r@ == page_url_of(base@, page),
{
    if page == 1 {
        base.to_owned()
    } else {
        base.to_owned().concat("&p=").concat(fmt_u64(page as u64).as_str())
    }
}

/// Where the embedded store of a search page is.
#[derive(Clone, Debug)]
pub enum StoreExtract {
    /// The page has no store marker (no such page).
    NoMarker,
    /// No JSON object follows the marker.
    NoObject,
    /// The script holding the object does not end.
    NoEnd,
    /// The JSON text of the store.
    Json(String),
}

/// What a page yields: after the first "window.__store__", the text from the
/// next "{" up to the next "</script>", trimmed and without trailing
/// semicolons; or which of the three is missing.
pub open spec fn extracted_as(page: Seq<char>, r: StoreExtract) -> bool {
    match first_at_or_after(page, "window.__store__"@, 0) {
        None => r is NoMarker,
        Some(i) => match first_at_or_after(page, "{"@, i) {
            None => r is NoObject,
            Some(j) => match first_at_or_after(page, "</script>"@, j) {
                None => r is NoEnd,
                Some(e) => r matches StoreExtract::Json(t) && t@ == strip_semicolons(trimmed(page.subrange(j, e))),
            },
        },
    }
}

/// Finds the JSON store object in a search page.
pub fn extract_store_json(page: &str) -> (r: StoreExtract)
    ensures
        extracted_as(page@, r),
{
    let v = chars_of(page);
    let marker = chars_of("window.__store__");
    let brace = chars_of("{");
    let end = chars_of("</script>");
    match find_first(&v, &marker, 0) {
        None => StoreExtract::NoMarker,
        Some(i) => {
            proof {
                let c = choose|c: int| is_first_at_or_after(v@, marker@, 0, c);
            }
            match find_first(&v, &brace, i) {
                None => StoreExtract::NoObject,
                Some(j) => {
                    proof {
                        let c = choose|c: int| is_first_at_or_after(v@, brace@, i as int, c);
                    }
                    match find_first(&v, &end, j) {
                        None => StoreExtract::NoEnd,
                        Some(e) => {
                            proof {
                                let c = choose|c: int| is_first_at_or_after(v@, end@, j as int, c);
                                assert(e + end@.len() <= v@.len());
                            }
                            let body = sub_chars(&v, j, e);
                            let s = string_from_chars(body.as_slice());
                            let t = trim_end_semicolons(trim(s.as_str()));
                            StoreExtract::Json(t)
                        },
                    }
                },
            }
        },
    }
}

/// One result of the embedded store, as plain values: the ad ID, price,
/// mileage, first registration ("YYYY-MM-DD"), customer type (2 = private),
/// brand name, model name, search-model name, and the seller's place.
#[derive(Clone, Debug)]
pub struct MhListing {
    pub id: u64,
    pub fzg_preis: Option<u32>,
    pub fzg_km: Option<u32>,
    pub fzg_1iv: Option<String>,
    pub kundentyp: Option<u8>,
    pub rel_marke: Option<String>,
    pub rel_modelle: Option<String>,
    pub rel_suchmh: Option<String>,
    pub standort: Option<Standort>,
}

#[derive(Clone, Debug)]
pub struct Standort {
    pub kunde_ort: Option<String>,
    pub kunde_kanton: Option<String>,
    pub firma_name: Option<String>,
}

pub open spec fn or_empty(s: Option<String>) -> Seq<char> {
    match s {
        Some(v) => v@,
        None => Seq::empty(),
    }
}

/// The model year in a first-registration date: the number before the first
/// hyphen, or 0 when that is not a year.
pub open spec fn year_of(first_registration: Option<String>) -> u16 {
    match first_registration {
        Some(d) => match parse_unsigned(before_first(d@, '-')) {
            Some(v) => if v <= u16::MAX { v as u16 } else { 0 },
            None => 0,
        },
        None => 0,
    }
}

pub fn registration_year(first_registration: &Option<String>) -> (r: u16)
    ensures
        r == year_of(*first_registration),
{
    match first_registration {
        Some(d) => {
            let y = first_piece(d.as_str(), '-');
            match parse_u16(y.as_str()) {
                Some(v) => v,
                None => 0,
            }
        },
        None => 0,
    }
}

/// The title of a result: brand and model joined by a space, trimmed.
pub open spec fn title_of(item: MhListing) -> Seq<char> {
    trimmed(or_empty(item.rel_marke) + " "@ + or_empty(item.rel_modelle))
}

/// The detail-page URL of a result.
pub open spec fn detail_url_of(item: MhListing) -> Seq<char> {
    let model_slug = match item.rel_suchmh {
        Some(s) => slug_of(s@),
        None => slug_of(or_empty(item.rel_modelle)),
    };
    "https://motorradhandel.ch/en/d/"@ + slug_of(or_empty(item.rel_marke)) + "/"@ + model_slug + "/"@ + dec(item.id as nat)
}

pub open spec fn place_field(st: Option<Standort>, which: nat) -> Seq<char> {
    match st {
        Some(s) => if which == 0 { or_empty(s.kunde_ort) } else if which == 1 { or_empty(s.kunde_kanton) } else { or_empty(s.firma_name) },
        None => Seq::empty(),
    }
}

/// Whether `l` is the listing that result `item` gives on day `today`.
pub open spec fn listing_of_item(item: MhListing, today: Day, l: MotorcycleListing) -> bool {
    let marke = or_empty(item.rel_marke);
    let modell = or_empty(item.rel_modelle);
    let mileage = match item.fzg_km { Some(k) => k, None => 0 };
    &&& l.listing_id == item.id
    &&& l.first_seen == today
    &&& l.last_seen == today
    &&& l.status == ListingStatus::Active
    &&& l.category@ == category_of(marke, modell)
    &&& l.title@ == title_of(item)
    &&& l.price_chf == item.fzg_preis->0
    &&& l.original_price_chf == item.fzg_preis->0
    &&& l.mileage_km == mileage
    &&& l.year == year_of(item.fzg_1iv)
    &&& l.fingerprint@ == fingerprint_of(title_of(item), year_of(item.fzg_1iv), mileage)
    &&& l.url@ == detail_url_of(item)
    &&& l.location@ == place_field(item.standort, 0)
    &&& l.kanton@ == place_field(item.standort, 1)
    &&& l.seller_name@ == place_field(item.standort, 2)
    &&& l.is_private == (item.kundentyp == Some(2u8))
    &&& l.price_score == 0
    &&& l.price_label@ == Seq::<char>::empty()
    &&& l.score_peers == 0
    &&& l.previous_listing_id is None
    &&& l.generation is None
}

/// Whether a result is kept: it has a price and a non-empty title.
pub open spec fn item_kept(item: MhListing) -> bool {
    item.fzg_preis is Some && title_of(item).len() > 0
}

fn opt_or_empty(s: &Option<String>) -> (r: String)
    ensures
        r@ == or_empty(*s),
{
    match s {
        Some(v) => v.clone(),
        None => String::new(),
    }
}

/// The listing of one store result on day `today`; results without a price
/// or without a brand and model are skipped.
pub fn listing_from_item(item: &MhListing, today: Day) -> (r: Option<MotorcycleListing>)
    ensures
        match r {
            Some(l) => item_kept(*item) && listing_of_item(*item, today, l),
            None => !item_kept(*item),
        },
{
    let price = match item.fzg_preis {
        Some(p) => p,
        None => return None,
    };
    let mileage = match item.fzg_km {
        Some(k) => k,
        None => 0,
    };
    let year = registration_year(&item.fzg_1iv);
    let marke = opt_or_empty(&item.rel_marke);
    let modell = opt_or_empty(&item.rel_modelle);
    let joined = marke.clone().concat(" ").concat(modell.as_str());
    let title = trim(joined.as_str()).to_owned();
    if title.as_str().unicode_len() == 0 {
        return None;
    }
    let category = derive_category(marke.as_str(), modell.as_str());
    let brand_slug = to_slug(marke.as_str());
    let model_slug = match &item.rel_suchmh {
        Some(s) => to_slug(s.as_str()),
        None => to_slug(modell.as_str()),
    };
    let url = "https://motorradhandel.ch/en/d/".to_owned().concat(brand_slug.as_str()).concat("/")
        .concat(model_slug.as_str()).concat("/").concat(fmt_u64(item.id).as_str());
    let (location, kanton, seller_name) = match &item.standort {
        Some(st) => (opt_or_empty(&st.kunde_ort), opt_or_empty(&st.kunde_kanton), opt_or_empty(&st.firma_name)),
        None => (String::new(), String::new(), String::new()),
    };
    let is_private = match item.kundentyp {
        Some(t) => t == 2,
        None => false,
    };
    Some(MotorcycleListing::new(
        item.id,
        today,
        category,
        title,
        price,
        mileage,
        year,
        url,
        location,
        kanton,
        is_private,
        seller_name,
    ))
}

/// The listings of the store results, in order, skipping results without a
/// price or a title.
pub open spec fn kept_items(items: Seq<MhListing>) -> Seq<MhListing>
    decreases items.len(),
{
    if items.len() == 0 {
        Seq::empty()
    } else if item_kept(items.last()) {
        kept_items(items.drop_last()).push(items.last())
    } else {
        kept_items(items.drop_last())
    }
}

pub fn listings_from_items(items: &Vec<MhListing>, today: Day) -> (r: Vec<MotorcycleListing>)
    ensures
        r.len() == kept_items(items@).len(),
        forall|i: int| 0 <= i < r.len() ==> listing_of_item(kept_items(items@)[i], today, #[trigger] r@[i]),
{
    let mut out: Vec<MotorcycleListing> = Vec::new();
    let mut i: usize = 0;
    while i < items.len()
        invariant
            i <= items.len(),
            out.len() == kept_items(items@.take(i as int)).len(),
            forall|q: int| 0 <= q < out.len() ==> listing_of_item(kept_items(items@.take(i as int))[q], today, #[trigger] out@[q]),
        decreases items.len() - i,
    {
        assert(items@.take(i + 1).drop_last() =~= items@.take(i as int));
        let ghost before = kept_items(items@.take(i as int));
        match listing_from_item(&items[i], today) {
            Some(l) => {
                out.push(l);
                assert(kept_items(items@.take(i + 1)) == before.push(items@[i as int]));
            },
            None => {},
        }
        i = i + 1;
    }
    assert(items@.take(items.len() as int) =~= items@);
    out
}

/// The last search page read.
pub const MAX_PAGES: u32 = 100;

/// The listings of a fetched page that are new to `seen` (nor earlier on the
/// same page), in page order.
pub open spec fn unseen(seen: Seq<MotorcycleListing>, page: Seq<MotorcycleListing>) -> Seq<MotorcycleListing>
    decreases page.len(),
{
    if page.len() == 0 {
        Seq::empty()
    } else {
        let prev = unseen(seen, page.drop_last());
        let l = page.last();
        if id_in(seen + prev, l.listing_id) {
            prev
        } else {
            prev.push(l)
        }
    }
}

/// Appends the listings of a fetched page whose ad IDs were not seen yet;
/// returns whether there was any.
pub fn absorb_page(all: &mut Vec<MotorcycleListing>, page: Vec<MotorcycleListing>) -> (added: bool)
    ensures
        final(all)@ == old(all)@ + unseen(old(all)@, page@),
        added == (unseen(old(all)@, page@).len() > 0),
        ids_distinct(old(all)@) ==> ids_distinct(final(all)@),
{
    let ghost seen = all@;
    let start = all.len();
    let mut i: usize = 0;
    while i < page.len()
        invariant
            i <= page.len(),
            start == seen.len(),
            all@ == seen + unseen(seen, page@.take(i as int)),
            ids_distinct(seen) ==> ids_distinct(all@),
        decreases page.len() - i,
    {
        assert(page@.take(i + 1).drop_last() =~= page@.take(i as int));
        let l = page[i].duplicate();
        let mut present = false;
        let mut j: usize = 0;
        while j < all.len()
            invariant
                j <= all.len(),
                !present ==> forall|q: int| 0 <= q < j ==> (#[trigger] all@[q]).listing_id != l.listing_id,
                present ==> id_in(all@, l.listing_id),
            decreases all.len() - j,
        {
            if all[j].listing_id == l.listing_id {
                present = true;
                assert(all@[j as int].listing_id == l.listing_id);
            }
            j = j + 1;
        }
        let ghost before = all@;
        if !present {
            all.push(l);
            proof {
                assert forall|a: int, b: int| 0 <= a < b < all@.len() && ids_distinct(seen) implies
                    (#[trigger] all@[a]).listing_id != (#[trigger] all@[b]).listing_id by {
                    if b == before.len() {
                        assert(all@[a] == before[a]);
                    } else {
                        assert(all@[a] == before[a]);
                        assert(all@[b] == before[b]);
                    }
                }
            }
        }
        assert(all@ =~= seen + unseen(seen, page@.take(i + 1)));
        i = i + 1;
    }
    assert(page@.take(page.len() as int) =~= page@);
    all.len() > start
}

/// One step of reading the search pages: given the page just fetched,
/// collect its new listings and say which page to fetch next. Reading stops
/// on an empty page, on a page with nothing new, and after page 100.
pub fn next_page(all: &mut Vec<MotorcycleListing>, page: u32, fetched: Vec<MotorcycleListing>) -> (r: Option<u32>)
    requires
        1 <= page <= MAX_PAGES,
    ensures
        fetched@.len() == 0 ==> r is None && final(all)@ == old(all)@,
        fetched@.len() > 0 ==> final(all)@ == old(all)@ + unseen(old(all)@, fetched@)
            && r == if unseen(old(all)@, fetched@).len() > 0 && page < MAX_PAGES { Some((page + 1) as u32) } else { None },
        ids_distinct(old(all)@) ==> ids_distinct(final(all)@),
{
    if fetched.len() == 0 {
        return None;
    }
    let added = absorb_page(all, fetched);
    if added && page < MAX_PAGES {
        Some(page + 1)
    } else {
        None
    }
}

} // verus!
