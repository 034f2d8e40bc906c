use motauron::models::motorcycle::{ListingStatus, MotorcycleListing};

fn bike(id: u64, title: &str, price: u32, km: u32, year: u16) -> MotorcycleListing {
    MotorcycleListing::new(
        id,
        738_000,
        "tenere-700".to_string(),
        title.to_string(),
        price,
        km,
        year,
        format!("https://motorradhandel.ch/vi/{}", id),
        "Bern".to_string(),
        "BE".to_string(),
        true,
        String::new(),
    )
}

#[test]
fn fingerprint_rounds_low_mileage_to_nearest_hundred() {
    assert_eq!(
        MotorcycleListing::build_fingerprint("  Yamaha Tenere 700 ", 2022, 250),
        "yamaha tenere 700|2022|300"
    );
    assert_eq!(MotorcycleListing::build_fingerprint("T", 2020, 260), "t|2020|300");
    assert_eq!(MotorcycleListing::build_fingerprint("T", 2020, 249), "t|2020|200");
}

#[test]
fn fingerprint_rounds_high_mileage_to_nearest_thousand() {
    assert_eq!(
        MotorcycleListing::build_fingerprint("Yamaha Tenere 700", 2021, 12_345),
        "yamaha tenere 700|2021|12000"
    );
    assert_eq!(MotorcycleListing::build_fingerprint("T", 2020, 1_600), "t|2020|2000");
    assert_eq!(MotorcycleListing::build_fingerprint("T", 2020, u32::MAX), "t|2020|4294967000");
}

#[test]
fn fingerprint_rounding_halves_go_up() {
    assert_eq!(MotorcycleListing::build_fingerprint("MT-09", 2020, 949), "mt-09|2020|900");
    assert_eq!(MotorcycleListing::build_fingerprint("MT-09", 2020, 999), "mt-09|2020|1000");
    assert_eq!(MotorcycleListing::build_fingerprint("MT-09", 2020, 1_000), "mt-09|2020|1000");
    assert_eq!(MotorcycleListing::build_fingerprint("MT-09", 2020, 1_499), "mt-09|2020|1000");
    assert_eq!(MotorcycleListing::build_fingerprint("MT-09", 2020, 1_500), "mt-09|2020|2000");
}

#[test]
fn fingerprint_keeps_nearly_new_bikes_apart() {
    let a = MotorcycleListing::build_fingerprint("Tenere 700", 2024, 10);
    let b = MotorcycleListing::build_fingerprint("Tenere 700", 2024, 200);
    assert_eq!(a, "tenere 700|2024|0");
    assert_ne!(a, b);
}

#[test]
fn fingerprint_absorbs_small_mileage_changes_of_a_relist() {
    let a = MotorcycleListing::build_fingerprint("Yamaha Tenere 700", 2021, 14_600);
    let b = MotorcycleListing::build_fingerprint("yamaha tenere 700  ", 2021, 15_400);
    assert_eq!(a, b);
}

#[test]
fn new_listing_starts_active_and_unscored() {
    let l = bike(42, "Yamaha Tenere 700", 9_900, 15_200, 2021);
    assert_eq!(l.listing_id, 42);
    assert_eq!(l.status, ListingStatus::Active);
    assert_eq!(l.first_seen, 738_000);
    assert_eq!(l.last_seen, 738_000);
    assert_eq!(l.price_chf, 9_900);
    assert_eq!(l.original_price_chf, 9_900);
    assert_eq!(l.fingerprint, "yamaha tenere 700|2021|15000");
    assert_eq!(l.price_score, 0);
    assert_eq!(l.price_label, "");
    assert_eq!(l.score_peers, 0);
    assert_eq!(l.previous_listing_id, None);
    assert_eq!(l.generation, None);
    assert!(l.is_private);
    assert_eq!(l.kanton, "BE");
}

#[test]
fn duplicate_copies_every_field() {
    let mut l = bike(7, "Honda Africa Twin", 12_000, 30_000, 2019);
    l.generation = Some("gen1".to_string());
    l.previous_listing_id = Some(3);
    l.price_label = "fair".to_string();
    let d = l.duplicate();
    assert_eq!(d.listing_id, 7);
    assert_eq!(d.generation, Some("gen1".to_string()));
    assert_eq!(d.previous_listing_id, Some(3));
    assert_eq!(d.price_label, "fair");
    assert_eq!(d.fingerprint, l.fingerprint);
    assert_eq!(d.url, l.url);
}
