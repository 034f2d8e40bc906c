use motauron::backend::domain::services::scorer::{
    apply_scores, canton_multiplier, label, peer_stats, score_inputs, variant_tag, PeerStats,
};
use motauron::backend::domain::value_objects::generation_bucket;
use motauron::models::generations::generation_bucket as legacy_bucket;
use motauron::models::motorcycle::MotorcycleListing;
use motauron::scoring::{apply_year_scores, year_score_inputs, year_stats};
use motauron::stats::median;

fn ad(id: u64, cat: &str, title: &str, price: u32, km: u32, year: u16) -> MotorcycleListing {
    MotorcycleListing::new(
        id,
        1,
        cat.to_string(),
        title.to_string(),
        price,
        km,
        year,
        String::new(),
        String::new(),
        String::new(),
        true,
        String::new(),
    )
}

#[test]
fn median_takes_upper_middle_of_sorted_values() {
    assert_eq!(median(&vec![5, 1, 3]), 3);
    assert_eq!(median(&vec![4, 1, 3, 2]), 3);
    assert_eq!(median(&vec![7]), 7);
}

#[test]
fn label_follows_score_bands() {
    assert_eq!(label(16), "great deal");
    assert_eq!(label(40), "great deal");
    assert_eq!(label(15), "good");
    assert_eq!(label(14), "good");
    assert_eq!(label(7), "good");
    assert_eq!(label(6), "fair");
    assert_eq!(label(0), "fair");
    assert_eq!(label(-6), "fair");
    assert_eq!(label(-7), "overpriced");
    assert_eq!(label(-14), "overpriced");
    assert_eq!(label(-15), "overpriced");
    assert_eq!(label(-16), "expensive");
}

#[test]
fn canton_factor_in_percent() {
    assert_eq!(canton_multiplier("ZH"), 108);
    assert_eq!(canton_multiplier("zh"), 108);
    assert_eq!(canton_multiplier("Ge"), 107);
    assert_eq!(canton_multiplier("ZG"), 106);
    assert_eq!(canton_multiplier("BL"), 104);
    assert_eq!(canton_multiplier("SO"), 102);
    assert_eq!(canton_multiplier("BE"), 100);
    assert_eq!(canton_multiplier("NE"), 97);
    assert_eq!(canton_multiplier("TI"), 96);
    assert_eq!(canton_multiplier("VS"), 94);
    assert_eq!(canton_multiplier("AI"), 94);
    assert_eq!(canton_multiplier(""), 100);
    assert_eq!(canton_multiplier("XX"), 100);
}

#[test]
fn variant_tag_of_titles() {
    assert_eq!(variant_tag("Ducati Panigale V4 SP"), "sp");
    assert_eq!(variant_tag("Yamaha Tenere 700 World Raid"), "world raid");
    assert_eq!(variant_tag("Yamaha Tenere 700"), "");
    assert_eq!(variant_tag("SP only at start"), "");
}

#[test]
fn generation_buckets_of_derived_categories() {
    assert_eq!(generation_bucket("mt-09", 2015), 1);
    assert_eq!(generation_bucket("mt-09", 2018), 2);
    assert_eq!(generation_bucket("mt-09", 2022), 3);
    assert_eq!(generation_bucket("mt-09", 2026), 4);
    assert_eq!(generation_bucket("mt-09", 2012), 2012);
    assert_eq!(generation_bucket("tenere-700", 2019), 1);
    assert_eq!(generation_bucket("tenere-700", 2024), 2);
    assert_eq!(generation_bucket("tenere-700", 2025), 3);
    assert_eq!(generation_bucket("tenere-700", 2018), 2018);
    assert_eq!(generation_bucket("africa-twin", 2020), 2020);
}

#[test]
fn generation_buckets_of_first_tracker_categories() {
    assert_eq!(legacy_bucket("MT09", 2016), 1);
    assert_eq!(legacy_bucket("MT09", 2024), 4);
    assert_eq!(legacy_bucket("Tenere_700", 2023), 2);
    assert_eq!(legacy_bucket("mt-09", 2016), 2016);
}

#[test]
fn peer_stats_falls_back_through_levels() {
    let ls = vec![
        ad(1, "tenere-700", "Yamaha Tenere 700", 10_000, 10_000, 2022),
        ad(2, "tenere-700", "yamaha tenere 700", 11_000, 6_000, 2023),
        ad(3, "tenere-700", "Yamaha Tenere 700 World Raid", 14_000, 3_000, 2023),
        ad(4, "africa-twin", "Honda Africa Twin", 8_000, 40_000, 2019),
    ];
    let st = peer_stats(&ls);
    // same title and generation
    assert_eq!(st[0], Some(PeerStats { peers: 2, median_price: 11_000, median_km: 10_000 }));
    assert_eq!(st[1], Some(PeerStats { peers: 2, median_price: 11_000, median_km: 10_000 }));
    // alone in title and in variant within its generation: the year group
    assert_eq!(st[2], Some(PeerStats { peers: 3, median_price: 11_000, median_km: 6_000 }));
    // alone even in its year group: the same variant across generations
    assert_eq!(st[3], Some(PeerStats { peers: 3, median_price: 10_000, median_km: 10_000 }));
}

#[test]
fn peer_stats_none_when_alone() {
    let ls = vec![ad(1, "tenere-700", "Yamaha Tenere 700", 10_000, 10_000, 2022)];
    assert_eq!(peer_stats(&ls), vec![None]);
}

#[test]
fn apply_scores_sets_score_label_and_peers() {
    let mut ls = vec![ad(1, "c", "A", 1, 1, 2020), ad(2, "c", "B", 1, 1, 2020), ad(3, "c", "C", 1, 1, 2020)];
    let stats = vec![
        Some(PeerStats { peers: 2, median_price: 1, median_km: 1 }),
        None,
        Some(PeerStats { peers: 300, median_price: 1, median_km: 1 }),
    ];
    apply_scores(&mut ls, &stats, &vec![16, 5, -9]);
    assert_eq!(ls[0].price_score, 16);
    assert_eq!(ls[0].price_label, "great deal");
    assert_eq!(ls[0].score_peers, 2);
    assert_eq!(ls[1].price_score, 0);
    assert_eq!(ls[1].price_label, "n/a");
    assert_eq!(ls[1].score_peers, 1);
    assert_eq!(ls[2].price_label, "overpriced");
    assert_eq!(ls[2].score_peers, 255);
}

#[test]
fn score_inputs_caps_mileage_gap() {
    let mut l = ad(1, "c", "A", 9_000, 20_000, 2020);
    l.kanton = "zh".to_string();
    l.is_private = false;
    let st = PeerStats { peers: 3, median_price: 10_000, median_km: 10_000 };
    let s = score_inputs(&l, &st);
    assert_eq!(s.km_delta, -5_000);
    assert_eq!(s.median_price, 10_000);
    assert_eq!(s.canton_percent, 108);
    assert!(!s.is_private);
    assert_eq!(s.price_chf, 9_000);
    let l2 = ad(2, "c", "A", 9_000, 8_000, 2020);
    assert_eq!(score_inputs(&l2, &st).km_delta, 2_000);
    let l3 = ad(3, "c", "A", 9_000, 0, 2020);
    assert_eq!(score_inputs(&l3, &st).km_delta, 5_000);
}

#[test]
fn year_stats_groups_by_model_year() {
    let ls = vec![
        ad(1, "c", "A", 10_000, 12_000, 2021),
        ad(2, "c", "B", 12_000, 8_000, 2021),
        ad(3, "c", "C", 9_000, 30_000, 2020),
    ];
    let st = year_stats(&ls);
    assert_eq!(st[0], Some(PeerStats { peers: 2, median_price: 12_000, median_km: 12_000 }));
    assert_eq!(st[1], st[0]);
    assert_eq!(st[2], None);
}

#[test]
fn apply_year_scores_keeps_peer_count() {
    let mut ls = vec![ad(1, "c", "A", 1, 1, 2021), ad(2, "c", "B", 1, 1, 2020)];
    ls[0].score_peers = 9;
    let stats = vec![Some(PeerStats { peers: 2, median_price: 1, median_km: 1 }), None];
    apply_year_scores(&mut ls, &stats, &vec![8, 3]);
    assert_eq!(ls[0].price_score, 8);
    assert_eq!(ls[0].price_label, "good");
    assert_eq!(ls[0].score_peers, 9);
    assert_eq!(ls[1].price_label, "n/a");
    assert_eq!(ls[1].price_score, 0);
}

#[test]
fn year_score_inputs_leaves_mileage_gap_uncapped() {
    let mut l = ad(1, "c", "A", 9_000, 30_000, 2021);
    l.kanton = "VS".to_string();
    let s = year_score_inputs(&l, &PeerStats { peers: 2, median_price: 10_000, median_km: 10_000 });
    assert_eq!(s.km_delta, -20_000);
    assert_eq!(s.canton_percent, 94);
    assert_eq!(s.median_price, 10_000);
    assert_eq!(s.price_chf, 9_000);
}

#[test]
fn variant_without_generation_peers_falls_back_to_year_group() {
    let ls = vec![
        ad(1, "tenere-700", "Yamaha Tenere 700 World Raid", 14_000, 5_000, 2023),
        ad(2, "tenere-700", "Yamaha Tenere 700", 14_000, 5_000, 2023),
        ad(3, "tenere-700", "Yamaha Tenere 700 World Raid", 20_000, 5_000, 2020),
    ];
    let st = peer_stats(&ls);
    assert_eq!(st[0], Some(PeerStats { peers: 2, median_price: 14_000, median_km: 5_000 }));
}

#[test]
fn peer_stats_ignore_listing_order() {
    let ls = vec![
        ad(1, "tenere-700", "Yamaha Tenere 700", 10_000, 10_000, 2022),
        ad(2, "tenere-700", "yamaha tenere 700", 11_000, 6_000, 2023),
        ad(3, "tenere-700", "Yamaha Tenere 700 World Raid", 14_000, 3_000, 2023),
        ad(4, "africa-twin", "Honda Africa Twin", 8_000, 40_000, 2019),
    ];
    let st = peer_stats(&ls);
    let reordered: Vec<MotorcycleListing> = vec![ls[3].duplicate(), ls[1].duplicate(), ls[0].duplicate(), ls[2].duplicate()];
    let st2 = peer_stats(&reordered);
    assert_eq!(st2[0], st[3]);
    assert_eq!(st2[1], st[1]);
    assert_eq!(st2[2], st[0]);
    assert_eq!(st2[3], st[2]);
}
