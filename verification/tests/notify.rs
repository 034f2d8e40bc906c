use motauron::backend::infrastructure::notify::ntfy_notifier::{heartbeat_message, plan_summary, NtfyConfig as TopicConfig};
use motauron::models::motorcycle::MotorcycleListing;
use motauron::notify::ntfy::NtfyConfig;
use motauron::notify::state::{already_sent, parse_state, record_sent, render_state, NotifyState};
use motauron::notify::{dispatch_plan, plan_alerts, summary_line, summary_lines, test_ping, Backend, NotifyConfig, Outgoing};
use motauron::store::{PriceChange, StoreSummary};

fn scored(id: u64, title: &str, km: u32, year: u16, price: u32, label: &str, score: i32, peers: u8) -> MotorcycleListing {
    let mut l = MotorcycleListing::new(
        id,
        1,
        "c".to_string(),
        title.to_string(),
        price,
        km,
        year,
        format!("https://x/{}", id),
        "Thun".to_string(),
        "BE".to_string(),
        true,
        String::new(),
    );
    l.price_label = label.to_string();
    l.price_score = score;
    l.score_peers = peers;
    l
}

fn run_inputs() -> (Vec<MotorcycleListing>, Vec<PriceChange>) {
    let news = vec![
        scored(1, "Yamaha Tenere 700", 12_000, 2021, 9_000, "great deal", 16, 4),
        scored(3, "KTM 890 Adventure", 5_000, 2022, 13_000, "fair", -2, 2),
    ];
    let changes = vec![
        PriceChange { listing: scored(2, "Honda Africa Twin", 30_000, 2019, 11_000, "good", 9, 3), old_price: 12_000 },
        PriceChange { listing: scored(4, "BMW R 1250 GS", 40_000, 2020, 15_000, "good", 8, 3), old_price: 14_000 },
        PriceChange { listing: scored(5, "BMW F 900 GS", 1_000, 2024, 12_000, "fair", 1, 3), old_price: 13_000 },
    ];
    (news, changes)
}

fn all_marks(plan: &Vec<Outgoing>) -> Vec<(u64, u32)> {
    plan.iter().flat_map(|o| o.marks.iter().cloned()).collect()
}

#[test]
fn already_sent_needs_same_price() {
    let mut s: NotifyState = NotifyState::new();
    s.insert(1, 9_000);
    assert!(already_sent(&s, 1, 9_000));
    assert!(!already_sent(&s, 1, 8_500));
    assert!(!already_sent(&s, 2, 9_000));
}

#[test]
fn record_sent_keeps_last_price_per_listing() {
    let mut s: NotifyState = NotifyState::new();
    s.insert(7, 1);
    record_sent(&mut s, &vec![(1, 100), (2, 200), (1, 150)]);
    assert_eq!(s.get(&1), Some(&150));
    assert_eq!(s.get(&2), Some(&200));
    assert_eq!(s.get(&7), Some(&1));
}

#[test]
fn parse_state_reads_json_object_of_ids() {
    let s = parse_state("{\"12\": 9000, \"13\": 100}");
    assert_eq!(s.len(), 2);
    assert_eq!(s.get(&12), Some(&9000));
    assert_eq!(s.get(&13), Some(&100));
}

#[test]
fn parse_state_of_bad_text_is_empty() {
    assert!(parse_state("not json").is_empty());
    assert!(parse_state("").is_empty());
    assert!(parse_state("[1, 2]").is_empty());
}

#[test]
fn state_round_trips_through_render_and_parse() {
    let mut s: NotifyState = NotifyState::new();
    s.insert(123_456_789, 9_900);
    s.insert(1, 0);
    let text = render_state(&s).unwrap();
    assert!(text.contains("\"123456789\""));
    assert_eq!(parse_state(&text), s);
}

#[test]
fn summary_line_shows_listing_facts() {
    let l = scored(3, "KTM 890 Adventure", 5_000, 2022, 13_000, "fair", -2, 2);
    assert_eq!(summary_line(&l), "· KTM 890 Adventure · 5000km · 2022 · CHF 13000 · fair (-2%)");
    let m = scored(4, "X", 1, 2020, 2, "good", 9, 2);
    assert_eq!(
        summary_lines(&vec![l, m]),
        "· KTM 890 Adventure · 5000km · 2022 · CHF 13000 · fair (-2%)\n· X · 1km · 2020 · CHF 2 · good (+9%)"
    );
    assert_eq!(summary_lines(&vec![]), "");
}

#[test]
fn plan_alerts_sends_deals_then_drops_then_digest() {
    let (news, changes) = run_inputs();
    let plan = plan_alerts(&news, &changes, &NotifyState::new(), 7);
    assert_eq!(plan.len(), 3);

    let deal = &plan[0].message;
    assert_eq!(deal.title, "openclaw · new great deal");
    assert_eq!(
        deal.body,
        "Yamaha Tenere 700 · 12000km · 2021 · CHF 9000 · Thun · private\ngreat deal (+16%, vs 4)\nhttps://x/1"
    );
    assert_eq!(deal.priority, 4);
    assert_eq!(deal.tags, vec!["motorcycle", "white_check_mark"]);
    assert_eq!(deal.click_url, Some("https://x/1".to_string()));
    assert_eq!(plan[0].marks, vec![(1, 9_000)]);

    let drop = &plan[1].message;
    assert_eq!(drop.title, "openclaw · price drop honda africa twin");
    assert_eq!(
        drop.body,
        "Honda Africa Twin · 30000km · 2019 · CHF 12000 → 11000 (-1000)\ngood (+9%, vs 3)\nhttps://x/2"
    );
    assert_eq!(drop.priority, 3);
    assert_eq!(drop.tags, vec!["motorcycle", "arrow_down"]);
    assert_eq!(plan[1].marks, vec![(2, 11_000)]);

    // the rise of listing 4 and the low score of listing 5 push nothing
    let digest = &plan[2].message;
    assert_eq!(digest.title, "openclaw · 1 new listing");
    assert_eq!(digest.body, "· KTM 890 Adventure · 5000km · 2022 · CHF 13000 · fair (-2%)");
    assert_eq!(digest.priority, 2);
    assert_eq!(digest.tags, vec!["motorcycle"]);
    assert_eq!(digest.click_url, None);
    assert_eq!(plan[2].marks, vec![(3, 13_000)]);
}

#[test]
fn plan_alerts_skips_what_was_already_pushed() {
    let (news, changes) = run_inputs();
    let mut st: NotifyState = NotifyState::new();
    st.insert(1, 9_000);
    st.insert(3, 13_000);
    let plan = plan_alerts(&news, &changes, &st, 7);
    assert_eq!(plan.len(), 1);
    assert_eq!(plan[0].message.title, "openclaw · price drop honda africa twin");
}

#[test]
fn plan_alerts_pushes_again_after_price_change() {
    let (news, _) = run_inputs();
    let mut st: NotifyState = NotifyState::new();
    st.insert(1, 9_500);
    let plan = plan_alerts(&news, &Vec::new(), &st, 7);
    assert_eq!(plan[0].message.title, "openclaw · new great deal");
}

#[test]
fn digest_title_counts_listings() {
    let news = vec![
        scored(10, "A", 1, 2020, 1, "fair", 0, 2),
        scored(11, "B", 1, 2020, 1, "fair", 0, 2),
    ];
    let plan = plan_alerts(&news, &Vec::new(), &NotifyState::new(), 7);
    assert_eq!(plan.len(), 1);
    assert_eq!(plan[0].message.title, "openclaw · 2 new listings");
    assert_eq!(plan[0].marks, vec![(10, 1), (11, 1)]);
}

#[test]
fn second_run_with_recorded_state_is_quiet() {
    let (news, changes) = run_inputs();
    let mut st: NotifyState = NotifyState::new();
    let first = plan_alerts(&news, &changes, &st, 7);
    assert!(!first.is_empty());
    record_sent(&mut st, &all_marks(&first));
    let again = plan_alerts(&news, &changes, &st, 7);
    assert!(again.is_empty());
}

#[test]
fn test_ping_without_backend_is_an_error() {
    let r = test_ping(&NotifyConfig::default());
    assert_eq!(r.unwrap_err(), "no notification backend configured — add [notify.ntfy] to config.toml");
}

#[test]
fn test_ping_message_for_topic() {
    let cfg = NotifyConfig {
        backend: Backend::Ntfy(NtfyConfig { url: "https://ntfy.sh/t".to_string(), token: Some("k".to_string()) }),
        min_alert_score: 7,
    };
    let (topic, m) = test_ping(&cfg).unwrap();
    assert_eq!(topic.url, "https://ntfy.sh/t");
    assert_eq!(topic.token, Some("k".to_string()));
    assert_eq!(m.title, "openclaw · test");
    assert_eq!(m.body, "notification pipeline working");
    assert_eq!(m.priority, 3);
    assert_eq!(m.tags, vec!["motorcycle", "white_check_mark"]);
}

#[test]
fn notify_defaults_are_disabled_with_threshold_seven() {
    let d = NotifyConfig::default();
    assert!(matches!(d.backend, Backend::Disabled));
    assert_eq!(d.min_alert_score, 7);
}

#[test]
fn dispatch_plan_without_backend_sends_nothing() {
    let (news, changes) = run_inputs();
    let summary = StoreSummary { new: news, updated: 0, sold: Vec::new(), relisted: Vec::new(), price_changes: changes, total_tracked: 5 };
    assert!(dispatch_plan(&NotifyConfig::default(), &summary, &NotifyState::new()).is_empty());
    let cfg = NotifyConfig { backend: Backend::Ntfy(NtfyConfig { url: "u".to_string(), token: None }), min_alert_score: 20 };
    let plan = dispatch_plan(&cfg, &summary, &NotifyState::new());
    assert_eq!(plan.len(), 1);
    assert_eq!(plan[0].message.title, "openclaw · 2 new listings");
}

#[test]
fn heartbeat_counts_tracked_listings() {
    let m = heartbeat_message("01.02.2025 10:30", 42, &Vec::new());
    assert_eq!(m.title, "openclaw · 01.02.2025 10:30");
    assert_eq!(m.body, "tracking 42 listings");
    assert_eq!(m.priority, 1);
    assert_eq!(m.tags, vec!["motorcycle"]);
    let top = vec![scored(1, "Yamaha Tenere 700", 12_000, 2021, 9_000, "great deal", 16, 4)];
    let m2 = heartbeat_message("now", 3, &top);
    assert_eq!(
        m2.body,
        "tracking 3 listings\n\ntop deals:\n· Yamaha Tenere 700 · 12000km · 2021 · CHF 9000 · great deal (+16%)"
    );
}

#[test]
fn plan_summary_ends_with_heartbeat() {
    let (news, changes) = run_inputs();
    let none = plan_summary(&None, &news, &changes, &Vec::new(), 9, &NotifyState::new(), 7, "t");
    assert!(none.is_empty());
    let cfg = Some(TopicConfig { url: "u".to_string(), token: None });
    let plan = plan_summary(&cfg, &news, &changes, &Vec::new(), 9, &NotifyState::new(), 7, "t");
    assert_eq!(plan.len(), 4);
    assert_eq!(plan[3].message.title, "openclaw · t");
    assert_eq!(plan[3].message.body, "tracking 9 listings");
    assert!(plan[3].marks.is_empty());
}
