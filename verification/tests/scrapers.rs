use motauron::backend::config::GenerationRule;
use motauron::backend::infrastructure::scrapers::motorradhandel::{
    derive_category, extract_store_json, listing_from_item, listings_from_items, next_page, page_url,
    registration_year, to_slug, MhListing, Standort, StoreExtract, MAX_PAGES,
};
use motauron::backend::infrastructure::scrapers::motoscout::MotoscoutScraper;
use motauron::backend::infrastructure::scrapers::{detect_generation, stamp_generations};
use motauron::models::motorcycle::{ListingStatus, MotorcycleListing};
use motauron::scrapers::motorradhandel::listing_from_item as category_listing_from_item;

fn item(id: u64, price: Option<u32>) -> MhListing {
    MhListing {
        id,
        fzg_preis: price,
        fzg_km: Some(15_000),
        fzg_1iv: Some("2021-03-01".to_string()),
        kundentyp: Some(2),
        rel_marke: Some("Yamaha".to_string()),
        rel_modelle: Some("Tenere 700".to_string()),
        rel_suchmh: Some("Tenere 700 World Raid".to_string()),
        standort: Some(Standort {
            kunde_ort: Some("Thun".to_string()),
            kunde_kanton: Some("BE".to_string()),
            firma_name: None,
        }),
    }
}

fn plain(id: u64) -> MotorcycleListing {
    MotorcycleListing::new(
        id,
        1,
        "c".to_string(),
        "T".to_string(),
        1,
        1,
        2020,
        String::new(),
        String::new(),
        String::new(),
        false,
        String::new(),
    )
}

fn rule(name: &str, kw: Option<&str>, from: Option<u16>, to: Option<u16>) -> GenerationRule {
    GenerationRule { name: name.to_string(), title_contains: kw.map(|s| s.to_string()), year_from: from, year_to: to }
}

#[test]
fn slug_lowercases_and_hyphenates() {
    assert_eq!(to_slug("  Yamaha Tenere 700 "), "yamaha-tenere-700");
    assert_eq!(to_slug("BMW R 1250 GS (Adventure)"), "bmw-r-1250-gs-adventure");
    assert_eq!(to_slug("Ténéré 700!"), "ténéré-700");
    assert_eq!(to_slug(""), "");
}

#[test]
fn category_joins_brand_and_model_slugs() {
    assert_eq!(derive_category("Yamaha", "Tenere 700"), "yamaha-tenere-700");
    assert_eq!(derive_category("", "Tenere 700"), "tenere-700");
    assert_eq!(derive_category("Yamaha", ""), "yamaha");
}

#[test]
fn page_url_appends_page_number_after_first() {
    assert_eq!(page_url("https://m.ch/s?q=1", 1), "https://m.ch/s?q=1");
    assert_eq!(page_url("https://m.ch/s?q=1", 3), "https://m.ch/s?q=1&p=3");
    assert_eq!(page_url("https://m.ch/s?q=1", 100), "https://m.ch/s?q=1&p=100");
}

#[test]
fn store_json_without_marker() {
    assert!(matches!(extract_store_json("<html>nothing</html>"), StoreExtract::NoMarker));
}

#[test]
fn store_json_without_object() {
    assert!(matches!(extract_store_json("<script>window.__store__ = null</script>"), StoreExtract::NoObject));
}

#[test]
fn store_json_without_end() {
    assert!(matches!(extract_store_json("window.__store__ = {\"results\":[]}"), StoreExtract::NoEnd));
}

#[test]
fn store_json_is_trimmed_and_loses_semicolons() {
    let page = "<head><script>var a = {};</script><script>window.__store__ = {\"results\":[{\"id\":1}]};;\n </script></head>";
    match extract_store_json(page) {
        StoreExtract::Json(t) => assert_eq!(t, "{\"results\":[{\"id\":1}]}"),
        _ => panic!("expected the store object"),
    }
}

#[test]
fn registration_year_reads_leading_number() {
    assert_eq!(registration_year(&Some("2021-05-01".to_string())), 2021);
    assert_eq!(registration_year(&Some("2019".to_string())), 2019);
    assert_eq!(registration_year(&Some("abc-01".to_string())), 0);
    assert_eq!(registration_year(&Some("70000-01".to_string())), 0);
    assert_eq!(registration_year(&None), 0);
}

#[test]
fn store_item_becomes_listing() {
    let l = listing_from_item(&item(555, Some(9_900)), 738_000).unwrap();
    assert_eq!(l.listing_id, 555);
    assert_eq!(l.title, "Yamaha Tenere 700");
    assert_eq!(l.category, "yamaha-tenere-700");
    assert_eq!(l.url, "https://motorradhandel.ch/en/d/yamaha/tenere-700-world-raid/555");
    assert_eq!(l.price_chf, 9_900);
    assert_eq!(l.mileage_km, 15_000);
    assert_eq!(l.year, 2021);
    assert_eq!(l.location, "Thun");
    assert_eq!(l.kanton, "BE");
    assert_eq!(l.seller_name, "");
    assert!(l.is_private);
    assert_eq!(l.status, ListingStatus::Active);
    assert_eq!(l.first_seen, 738_000);
    assert_eq!(l.fingerprint, "yamaha tenere 700|2021|15000");
}

#[test]
fn store_item_of_dealer_without_search_model() {
    let mut it = item(7, Some(5_000));
    it.kundentyp = Some(1);
    it.rel_suchmh = None;
    it.fzg_km = None;
    it.standort = Some(Standort { kunde_ort: None, kunde_kanton: None, firma_name: Some("Moto AG".to_string()) });
    let l = listing_from_item(&it, 1).unwrap();
    assert!(!l.is_private);
    assert_eq!(l.seller_name, "Moto AG");
    assert_eq!(l.location, "");
    assert_eq!(l.mileage_km, 0);
    assert_eq!(l.url, "https://motorradhandel.ch/en/d/yamaha/tenere-700/7");
}

#[test]
fn store_item_without_price_or_title_is_skipped() {
    assert!(listing_from_item(&item(1, None), 1).is_none());
    let mut it = item(2, Some(100));
    it.rel_marke = None;
    it.rel_modelle = Some("  ".to_string());
    assert!(listing_from_item(&it, 1).is_none());
    let mut only_brand = item(3, Some(100));
    only_brand.rel_modelle = None;
    assert_eq!(listing_from_item(&only_brand, 1).unwrap().title, "Yamaha");
}

#[test]
fn store_items_keep_priced_ones_in_order() {
    let ls = listings_from_items(&vec![item(1, Some(10)), item(2, None), item(3, Some(30))], 5);
    let ids: Vec<u64> = ls.iter().map(|l| l.listing_id).collect();
    assert_eq!(ids, vec![1, 3]);
}

#[test]
fn category_item_uses_short_url() {
    let l = category_listing_from_item(&item(555, Some(9_900)), "Tenere_700", 3).unwrap();
    assert_eq!(l.category, "Tenere_700");
    assert_eq!(l.url, "https://motorradhandel.ch/vi/555");
    assert_eq!(l.location, "");
    assert!(!l.is_private);
    assert_eq!(l.title, "Yamaha Tenere 700");
    assert!(category_listing_from_item(&item(1, None), "Tenere_700", 3).is_none());
}

#[test]
fn pagination_continues_while_pages_bring_new_ids() {
    let mut all = vec![plain(1)];
    assert_eq!(next_page(&mut all, 1, vec![plain(1), plain(2)]), Some(2));
    assert_eq!(all.iter().map(|l| l.listing_id).collect::<Vec<_>>(), vec![1, 2]);
    assert_eq!(next_page(&mut all, 2, vec![plain(2), plain(1)]), None);
    assert_eq!(all.len(), 2);
}

#[test]
fn pagination_stops_on_empty_page_and_at_limit() {
    let mut all = vec![plain(1)];
    assert_eq!(next_page(&mut all, 1, Vec::new()), None);
    assert_eq!(all.len(), 1);
    assert_eq!(next_page(&mut all, MAX_PAGES, vec![plain(5)]), None);
    assert_eq!(all.len(), 2);
}

#[test]
fn pagination_skips_repeats_within_a_page() {
    let mut all = Vec::new();
    assert_eq!(next_page(&mut all, 1, vec![plain(4), plain(4), plain(6)]), Some(2));
    assert_eq!(all.iter().map(|l| l.listing_id).collect::<Vec<_>>(), vec![4, 6]);
}

#[test]
fn generation_keyword_rules_win_over_years() {
    let rules = vec![
        rule("gen1", None, Some(2019), Some(2021)),
        rule("World Raid", Some("world raid"), None, None),
        rule("gen2", None, Some(2022), None),
    ];
    assert_eq!(detect_generation(&rules, 2023, "Yamaha Tenere 700 WORLD RAID"), Some("World Raid".to_string()));
    assert_eq!(detect_generation(&rules, 2020, "Yamaha Tenere 700 World Raid"), Some("World Raid".to_string()));
    assert_eq!(detect_generation(&rules, 2020, "Yamaha Tenere 700"), Some("gen1".to_string()));
    assert_eq!(detect_generation(&rules, 2024, "Yamaha Tenere 700"), Some("gen2".to_string()));
    assert_eq!(detect_generation(&rules, 2018, "Yamaha Tenere 700"), None);
    assert_eq!(detect_generation(&Vec::new(), 2020, "x"), None);
}

#[test]
fn stamp_generations_sets_generation_of_each_listing() {
    let mut ls = vec![plain(1), plain(2)];
    ls[1].year = 2010;
    let rules = vec![rule("late", None, Some(2015), None)];
    stamp_generations(&mut ls, &rules);
    assert_eq!(ls[0].generation, Some("late".to_string()));
    assert_eq!(ls[1].generation, None);
    assert_eq!(ls[0].listing_id, 1);
}

#[test]
fn motoscout_price_and_mileage_from_text() {
    assert_eq!(MotoscoutScraper::parse_price("CHF 10'490.–"), Some(10_490));
    assert_eq!(MotoscoutScraper::parse_price("CHF –"), None);
    assert_eq!(MotoscoutScraper::parse_price("CHF 99'999'999'999"), None);
    assert_eq!(MotoscoutScraper::parse_mileage("5'310 km"), 5_310);
    assert_eq!(MotoscoutScraper::parse_mileage("km"), 0);
}

#[test]
fn motoscout_id_is_last_hyphen_piece() {
    assert_eq!(MotoscoutScraper::extract_id("/de/d/yamaha-xsr-125-legacy-20287260"), "20287260");
    assert_eq!(MotoscoutScraper::extract_id("nohyphen"), "nohyphen");
    assert_eq!(MotoscoutScraper::extract_id("ends-"), "");
}

fn strings(v: &[&str]) -> Vec<String> {
    v.iter().map(|s| s.to_string()).collect()
}

#[test]
fn motoscout_article_becomes_listing() {
    let s = MotoscoutScraper::new("xsr-125", "https://www.motoscout24.ch/de/s/x");
    assert_eq!(s.category, "xsr-125");
    assert_eq!(s.url, "https://www.motoscout24.ch/de/s/x");
    let hrefs = strings(&["/de/s/other", "/de/d/yamaha-xsr-125-legacy-20287260", "/de/d/second-1"]);
    let ps = strings(&["1 / 7", "CHF 10'490.–", "5'310 km", "2023", "15 PS", "Moto Center AG", " 8810 Horgen "]);
    let l = s.listing_from_article("  Yamaha XSR 125 Legacy ", &hrefs, &ps, 9).unwrap();
    assert_eq!(l.listing_id, 20_287_260);
    assert_eq!(l.url, "https://www.motoscout24.ch/de/d/yamaha-xsr-125-legacy-20287260");
    assert_eq!(l.title, "Yamaha XSR 125 Legacy");
    assert_eq!(l.category, "xsr-125");
    assert_eq!(l.price_chf, 10_490);
    assert_eq!(l.mileage_km, 5_310);
    assert_eq!(l.year, 2023);
    assert_eq!(l.location, "8810 Horgen");
    assert_eq!(l.seller_name, "Moto Center AG");
    assert_eq!(l.kanton, "");
    assert!(!l.is_private);
    assert_eq!(l.first_seen, 9);
}

#[test]
fn motoscout_single_paragraph_keeps_fallback_location() {
    let s = MotoscoutScraper::new("c", "u");
    let l = s
        .listing_from_article("T", &strings(&["/de/d/t-5"]), &strings(&["CHF 1'000"]), 1)
        .unwrap();
    assert_eq!(l.location, "");
    assert_eq!(l.seller_name, "");
    let l2 = s.listing_from_article("T", &strings(&["/de/d/t-5"]), &strings(&["Garage Müller"]), 1);
    assert!(l2.is_none());
}

#[test]
fn motoscout_article_without_link_price_or_title_is_skipped() {
    let s = MotoscoutScraper::new("c", "u");
    let ps = strings(&["CHF 1'000", "a", "b"]);
    assert!(s.listing_from_article("T", &strings(&["/de/s/x"]), &ps, 1).is_none());
    assert!(s.listing_from_article("  ", &strings(&["/de/d/t-1"]), &ps, 1).is_none());
    assert!(s.listing_from_article("T", &strings(&["/de/d/t-1"]), &strings(&["5 km", "a"]), 1).is_none());
}

#[test]
fn motoscout_page_lists_priced_articles() {
    let html = "<html><body>\
        <article><h2> Yamaha XSR 125 Legacy </h2><a href=\"/de/s/x\">s</a><a>none</a>\
        <a href=\"/de/d/yamaha-xsr-125-legacy-20287260\">d</a>\
        <p>CHF 10'490.–</p><p>5'310 km</p><p>2023</p><p>Moto Center AG</p><p>8810 Horgen</p></article>\
        <article><h2>No price</h2><a href=\"/de/d/x-1\">d</a><p>5'310 km</p></article>\
        <div><h2>Not an article</h2><a href=\"/de/d/y-2\">d</a><p>CHF 5</p></div>\
        </body></html>";
    let s = MotoscoutScraper::new("xsr-125", "u");
    let ls = s.listings_from_page(html, 4);
    assert_eq!(ls.len(), 1);
    assert_eq!(ls[0].listing_id, 20_287_260);
    assert_eq!(ls[0].title, "Yamaha XSR 125 Legacy");
    assert_eq!(ls[0].price_chf, 10_490);
    assert_eq!(ls[0].location, "8810 Horgen");
    assert_eq!(ls[0].seller_name, "Moto Center AG");
}
