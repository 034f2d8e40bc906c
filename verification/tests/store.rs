use motauron::backend::infrastructure::store::csv_repo::CsvListingRepository;
use motauron::backend::infrastructure::store::json_repo::JsonListingRepository;
use motauron::models::motorcycle::{ListingStatus, MotorcycleListing};
use motauron::store::{
    active_in_category, groups_to_score, merge_scraped, refresh_summary, settle_scores, sorted_rows, store_scores, table_from,
};

fn seen(id: u64, cat: &str, title: &str, price: u32, km: u32, year: u16, day: i32) -> MotorcycleListing {
    MotorcycleListing::new(
        id,
        day,
        cat.to_string(),
        title.to_string(),
        price,
        km,
        year,
        format!("https://motorradhandel.ch/vi/{}", id),
        "Thun".to_string(),
        "BE".to_string(),
        true,
        String::new(),
    )
}

#[test]
fn merge_into_empty_store_reports_new_listing() {
    let mut db = table_from(Vec::new());
    let s = merge_scraped(&mut db, vec![seen(1, "tenere-700", "Yamaha Tenere 700", 9_000, 20_000, 2021, 100)]);
    assert_eq!(s.new.len(), 1);
    assert_eq!(s.new[0].listing_id, 1);
    assert_eq!(s.relisted.len(), 0);
    assert_eq!(s.updated, 0);
    assert_eq!(s.sold.len(), 0);
    assert_eq!(s.price_changes.len(), 0);
    assert_eq!(s.total_tracked, 1);
    assert_eq!(db[&1].status, ListingStatus::Active);
}

#[test]
fn merge_records_price_change_and_keeps_original_price() {
    let mut db = table_from(vec![seen(1, "tenere-700", "Yamaha Tenere 700", 10_000, 20_000, 2021, 100)]);
    let mut again = seen(1, "tenere-700", "Yamaha Tenere 700", 9_500, 20_000, 2021, 200);
    again.is_private = false;
    again.seller_name = "Moto AG".to_string();
    let s = merge_scraped(&mut db, vec![again]);
    assert_eq!(s.updated, 1);
    assert_eq!(s.new.len(), 0);
    assert_eq!(s.price_changes.len(), 1);
    assert_eq!(s.price_changes[0].old_price, 10_000);
    assert_eq!(s.price_changes[0].listing.price_chf, 10_000);
    let l = &db[&1];
    assert_eq!(l.price_chf, 9_500);
    assert_eq!(l.original_price_chf, 10_000);
    assert_eq!(l.first_seen, 100);
    assert_eq!(l.last_seen, 200);
    assert!(!l.is_private);
    assert_eq!(l.seller_name, "Moto AG");
}

#[test]
fn merge_same_price_is_no_price_change() {
    let mut db = table_from(vec![seen(1, "tenere-700", "Yamaha Tenere 700", 10_000, 20_000, 2021, 100)]);
    let s = merge_scraped(&mut db, vec![seen(1, "tenere-700", "Yamaha Tenere 700", 10_000, 20_000, 2021, 101)]);
    assert_eq!(s.updated, 1);
    assert_eq!(s.price_changes.len(), 0);
    assert_eq!(db[&1].last_seen, 101);
}

#[test]
fn merge_marks_missing_listing_of_scraped_category_sold() {
    let mut db = table_from(vec![
        seen(1, "tenere-700", "Yamaha Tenere 700", 10_000, 20_000, 2021, 100),
        seen(2, "tenere-700", "Yamaha Tenere 700 World Raid", 14_000, 5_000, 2023, 100),
    ]);
    let s = merge_scraped(&mut db, vec![seen(1, "tenere-700", "Yamaha Tenere 700", 10_000, 20_000, 2021, 101)]);
    assert_eq!(s.sold.len(), 1);
    assert_eq!(s.sold[0].listing_id, 2);
    assert_eq!(db[&2].status, ListingStatus::Sold);
    assert_eq!(db[&1].status, ListingStatus::Active);
    assert_eq!(s.total_tracked, 2);
}

#[test]
fn merge_leaves_other_categories_alone() {
    let mut db = table_from(vec![seen(5, "africa-twin", "Honda Africa Twin", 13_000, 30_000, 2019, 100)]);
    let s = merge_scraped(&mut db, vec![seen(1, "tenere-700", "Yamaha Tenere 700", 10_000, 20_000, 2021, 101)]);
    assert_eq!(s.sold.len(), 0);
    assert_eq!(db[&5].status, ListingStatus::Active);
    assert_eq!(s.total_tracked, 2);
}

#[test]
fn merge_detects_relist_under_new_id() {
    let mut db = table_from(vec![seen(1, "tenere-700", "Yamaha Tenere 700", 10_000, 20_300, 2021, 100)]);
    let s = merge_scraped(&mut db, vec![seen(9, "tenere-700", "Yamaha Tenere 700", 9_800, 20_400, 2021, 150)]);
    assert_eq!(s.new.len(), 0);
    assert_eq!(s.relisted.len(), 1);
    assert_eq!(s.relisted[0].listing_id, 9);
    assert_eq!(s.relisted[0].previous_listing_id, Some(1));
    assert_eq!(db[&9].status, ListingStatus::Relisted);
    assert_eq!(db[&9].previous_listing_id, Some(1));
    assert_eq!(db[&1].status, ListingStatus::Sold);
}

#[test]
fn merge_does_not_flag_ambiguous_fingerprint() {
    let mut db = table_from(vec![
        seen(1, "tenere-700", "Yamaha Tenere 700", 10_000, 20_300, 2021, 100),
        seen(2, "tenere-700", "Yamaha Tenere 700", 10_500, 20_100, 2021, 100),
    ]);
    let s = merge_scraped(&mut db, vec![seen(9, "tenere-700", "Yamaha Tenere 700", 9_800, 20_400, 2021, 150)]);
    assert_eq!(s.relisted.len(), 0);
    assert_eq!(s.new.len(), 1);
    assert_eq!(db[&9].status, ListingStatus::Active);
    assert_eq!(db[&9].previous_listing_id, None);
}

#[test]
fn merge_does_not_relist_a_bike_still_listed() {
    let mut db = table_from(vec![seen(1, "tenere-700", "Yamaha Tenere 700", 10_000, 20_300, 2021, 100)]);
    let s = merge_scraped(
        &mut db,
        vec![
            seen(1, "tenere-700", "Yamaha Tenere 700", 10_000, 20_300, 2021, 150),
            seen(9, "tenere-700", "Yamaha Tenere 700", 9_800, 20_400, 2021, 150),
        ],
    );
    assert_eq!(s.relisted.len(), 0);
    assert_eq!(s.new.len(), 1);
    assert_eq!(s.updated, 1);
    assert_eq!(db[&1].status, ListingStatus::Active);
}

#[test]
fn merge_reactivates_sold_listing_seen_again() {
    let mut db = table_from(vec![seen(1, "tenere-700", "Yamaha Tenere 700", 10_000, 20_000, 2021, 100)]);
    merge_scraped(&mut db, vec![seen(2, "tenere-700", "Yamaha Tenere 700 World Raid", 14_000, 1_000, 2023, 110)]);
    assert_eq!(db[&1].status, ListingStatus::Sold);
    let s = merge_scraped(&mut db, vec![seen(1, "tenere-700", "Yamaha Tenere 700", 10_000, 20_000, 2021, 120)]);
    assert_eq!(s.updated, 1);
    assert_eq!(db[&1].status, ListingStatus::Active);
    assert_eq!(db[&1].last_seen, 120);
}

#[test]
fn table_from_keeps_later_of_two_same_ids() {
    let db = table_from(vec![
        seen(3, "tenere-700", "A", 1_000, 10, 2020, 1),
        seen(3, "tenere-700", "B", 2_000, 10, 2020, 1),
    ]);
    assert_eq!(db.len(), 1);
    assert_eq!(db[&3].title, "B");
}

#[test]
fn sorted_rows_orders_by_id() {
    let db = table_from(vec![
        seen(30, "c", "A", 1_000, 10, 2020, 1),
        seen(10, "c", "B", 1_000, 10, 2020, 1),
        seen(20, "c", "C", 1_000, 10, 2020, 1),
    ]);
    let ids: Vec<u64> = sorted_rows(&db).iter().map(|l| l.listing_id).collect();
    assert_eq!(ids, vec![10, 20, 30]);
}

#[test]
fn active_in_category_selects_active_of_that_category() {
    let mut sold = seen(2, "tenere-700", "B", 1_000, 10, 2020, 1);
    sold.status = ListingStatus::Sold;
    let db = table_from(vec![
        seen(1, "tenere-700", "A", 1_000, 10, 2020, 1),
        sold,
        seen(3, "africa-twin", "C", 1_000, 10, 2020, 1),
    ]);
    let got = active_in_category(&db, &"tenere-700".to_string());
    assert_eq!(got.len(), 1);
    assert_eq!(got[0].listing_id, 1);
}

#[test]
fn store_scores_copies_score_fields_only() {
    let mut db = table_from(vec![seen(1, "c", "A", 1_000, 10, 2020, 1), seen(2, "c", "B", 2_000, 10, 2020, 1)]);
    let mut scored = seen(1, "c", "A", 5_555, 10, 2020, 1);
    scored.price_score = 12;
    scored.price_label = "good".to_string();
    scored.score_peers = 2;
    store_scores(&mut db, &vec![scored]);
    assert_eq!(db[&1].price_score, 12);
    assert_eq!(db[&1].price_label, "good");
    assert_eq!(db[&1].score_peers, 2);
    assert_eq!(db[&1].price_chf, 1_000);
    assert_eq!(db[&2].price_label, "");
}

#[test]
fn refresh_summary_takes_scores_from_store() {
    let mut db = table_from(Vec::new());
    let mut s = merge_scraped(&mut db, vec![seen(1, "c", "A", 1_000, 10, 2020, 1)]);
    let mut scored = db[&1].duplicate();
    scored.price_score = -8;
    scored.price_label = "overpriced".to_string();
    scored.score_peers = 3;
    store_scores(&mut db, &vec![scored]);
    refresh_summary(&mut s, &db);
    assert_eq!(s.new[0].price_score, -8);
    assert_eq!(s.new[0].price_label, "overpriced");
    assert_eq!(s.new[0].score_peers, 3);
}

#[test]
fn refresh_summary_updates_price_change_entries() {
    let mut db = table_from(vec![seen(1, "c", "A", 1_000, 10, 2020, 1)]);
    let mut s = merge_scraped(&mut db, vec![seen(1, "c", "A", 900, 10, 2020, 2)]);
    refresh_summary(&mut s, &db);
    assert_eq!(s.price_changes[0].old_price, 1_000);
    assert_eq!(s.price_changes[0].listing.price_chf, 900);
}

#[test]
fn repositories_remember_their_paths() {
    assert_eq!(CsvListingRepository::new("listings_db.csv").db_path, "listings_db.csv");
    assert_eq!(JsonListingRepository::new("listings.json").path, "listings.json");
}

#[test]
fn report_lists_every_kind_of_change() {
    let mut db = table_from(vec![
        seen(1, "c", "Yamaha Tenere 700", 10_000, 20_300, 2021, 100),
        seen(2, "c", "Honda Africa Twin", 12_000, 30_000, 2019, 100),
        seen(3, "c", "KTM 890", 9_000, 5_000, 2022, 90),
    ]);
    let mut seller = seen(2, "c", "Honda Africa Twin", 11_500, 30_000, 2019, 130);
    seller.is_private = false;
    seller.seller_name = "Moto AG".to_string();
    let mut s = merge_scraped(
        &mut db,
        vec![
            seller,
            seen(9, "c", "Yamaha Tenere 700", 9_800, 20_400, 2021, 130),
            seen(4, "c", "BMW R 1250 GS", 15_000, 40_000, 2020, 130),
        ],
    );
    refresh_summary(&mut s, &db);
    let lines = s.report_lines("listings_db.csv");
    let expected = vec![
        "".to_string(),
        "  new           1".to_string(),
        "    + bmw r 1250 gs · 40000km · 2020 · chf 15000 · Thun · private ·  (+0%, vs 0)".to_string(),
        "      https://motorradhandel.ch/vi/4".to_string(),
        "  price changes 1".to_string(),
        "    ↓ honda africa twin · chf 12000 → 11500 (-500) · Thun · https://motorradhandel.ch/vi/2".to_string(),
    ];
    assert_eq!(lines[..6].to_vec(), expected);
    assert_eq!(lines[6], "  sold          2");
    assert!(lines.contains(&"    - yamaha tenere 700 · 20300km · 2021 · chf 10000 · Thun · 0 days on market".to_string()));
    assert!(lines.contains(&"    - ktm 890 · 5000km · 2022 · chf 9000 · Thun · 0 days on market".to_string()));
    assert_eq!(lines[9], "  relisted      1");
    assert_eq!(
        lines[10],
        "    ~ yamaha tenere 700 · 20400km · 2021 · chf 9800 · Thun · private ·  (+0%, vs 0) · was id 1"
    );
    assert_eq!(lines[11], "      https://motorradhandel.ch/vi/9");
    assert_eq!(lines[12], "  updated       1");
    assert_eq!(lines[13], "");
    assert_eq!(lines[14], "  tracking  5 listings — listings_db.csv");
    assert_eq!(lines.len(), 15);
}

#[test]
fn same_scrape_twice_reports_nothing_the_second_time() {
    let mut db = table_from(vec![seen(1, "c", "Yamaha Tenere 700", 10_000, 20_300, 2021, 100)]);
    let scrape = || {
        vec![
            seen(1, "c", "Yamaha Tenere 700", 9_500, 20_300, 2021, 200),
            seen(9, "c", "Yamaha Tenere 700", 9_800, 20_400, 2021, 200),
            seen(4, "c", "BMW R 1250 GS", 15_000, 40_000, 2020, 200),
        ]
    };
    let first = merge_scraped(&mut db, scrape());
    assert_eq!(first.new.len(), 2);
    assert_eq!(first.price_changes.len(), 1);
    let second = merge_scraped(&mut db, scrape());
    assert_eq!(second.total_tracked, first.total_tracked);
    assert_eq!(second.new.len(), 0);
    assert_eq!(second.relisted.len(), 0);
    assert_eq!(second.price_changes.len(), 0);
    assert_eq!(second.updated, 3);
    assert_eq!(second.sold.len(), 0);
}

#[test]
fn settle_scores_stores_group_scores_and_refreshes_summary() {
    let mut db = table_from(vec![seen(1, "c", "A", 1_000, 10, 2020, 1), seen(5, "d", "E", 3_000, 10, 2020, 1)]);
    let mut s = merge_scraped(
        &mut db,
        vec![seen(1, "c", "A", 900, 10, 2020, 2), seen(2, "c", "B", 2_000, 10, 2020, 2)],
    );
    let mut groups = groups_to_score(&db, &vec!["c".to_string(), "d".to_string()]);
    assert_eq!(groups.len(), 2);
    assert_eq!(groups[0].len(), 2);
    assert_eq!(groups[1].len(), 1);
    for l in groups[0].iter_mut() {
        l.price_score = 9;
        l.price_label = "good".to_string();
        l.score_peers = 2;
        l.price_chf = 1;
    }
    settle_scores(&mut db, &mut s, &groups);
    assert_eq!(db[&1].price_label, "good");
    assert_eq!(db[&2].score_peers, 2);
    assert_eq!(db[&1].price_chf, 900);
    assert_eq!(db[&5].price_label, "");
    assert_eq!(s.new[0].listing_id, 2);
    assert_eq!(s.new[0].price_label, "good");
    assert_eq!(s.price_changes[0].listing.price_chf, 900);
    assert_eq!(s.price_changes[0].listing.price_score, 9);
}

#[test]
fn same_run_twice_with_rescoring_reports_nothing_the_second_time() {
    let mut db = table_from(vec![seen(1, "c", "Yamaha Tenere 700", 10_000, 20_300, 2021, 100)]);
    let scrape = || {
        vec![
            seen(1, "c", "Yamaha Tenere 700", 9_500, 20_300, 2021, 200),
            seen(4, "c", "BMW R 1250 GS", 15_000, 40_000, 2020, 200),
        ]
    };
    let mut first = merge_scraped(&mut db, scrape());
    let mut groups = groups_to_score(&db, &vec!["c".to_string()]);
    for l in groups[0].iter_mut() {
        l.price_score = 3;
        l.price_label = "fair".to_string();
        l.score_peers = 2;
    }
    settle_scores(&mut db, &mut first, &groups);
    let second = merge_scraped(&mut db, scrape());
    assert!(second.new.is_empty());
    assert!(second.relisted.is_empty());
    assert!(second.price_changes.is_empty());
    assert!(second.sold.is_empty());
    assert_eq!(second.updated, 2);
    assert_eq!(second.total_tracked, first.total_tracked);
    assert_eq!(db[&4].price_label, "fair");
}
