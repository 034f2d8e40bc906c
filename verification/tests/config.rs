use motauron::backend::config::{
    effective_targets, with_env_overrides, AgentConfig, Config, GenerationRule, NotifySection, NtfySection, Target,
    DEFAULT_MH_URL,
};
use motauron::config::{notify_config, Config as FirstConfig, NtfySection as FirstNtfySection};
use motauron::notify::Backend;

fn target(url: Option<&str>) -> Target {
    Target { url: url.map(|s| s.to_string()), category: None, motoscout_url: None, generations: Vec::new() }
}

#[test]
fn effective_url_falls_back_to_all_motorcycles_search() {
    assert_eq!(target(Some("https://m.ch/s?q=2")).effective_url(), "https://m.ch/s?q=2");
    assert_eq!(target(None).effective_url(), DEFAULT_MH_URL);
    assert!(DEFAULT_MH_URL.starts_with("https://motorradhandel.ch/en/all-motorbikes"));
}

#[test]
fn default_target_searches_everything() {
    let t = Target::default();
    assert_eq!(t.url.as_deref(), Some(DEFAULT_MH_URL));
    assert!(t.generations.is_empty());
}

#[test]
fn agent_defaults() {
    let a = AgentConfig::default();
    assert_eq!(a.interval_hours, 4);
    assert_eq!(a.min_alert_score, 7);
    let c = Config::default();
    assert!(c.notify.ntfy.is_none());
    assert!(c.targets.is_empty());
}

#[test]
fn environment_topic_overrides_file() {
    let cfg = Config {
        agent: AgentConfig { interval_hours: 2, min_alert_score: 10 },
        notify: NotifySection { ntfy: Some(NtfySection { url: "file".to_string(), token: Some("t".to_string()) }) },
        targets: vec![target(None)],
    };
    let c = with_env_overrides(cfg, Some("https://ntfy.sh/env".to_string()), None);
    let n = c.notify.ntfy.unwrap();
    assert_eq!(n.url, "https://ntfy.sh/env");
    assert_eq!(n.token, None);
    assert_eq!(c.agent.interval_hours, 2);
    assert_eq!(c.targets.len(), 1);
}

#[test]
fn no_environment_topic_keeps_file_settings() {
    let cfg = Config {
        agent: AgentConfig::default(),
        notify: NotifySection { ntfy: Some(NtfySection { url: "file".to_string(), token: None }) },
        targets: Vec::new(),
    };
    let c = with_env_overrides(cfg, None, Some("ignored".to_string()));
    let n = c.notify.ntfy.unwrap();
    assert_eq!(n.url, "file");
    assert_eq!(n.token, None);
}

#[test]
fn targets_default_to_one_search() {
    let ts = effective_targets(&Config::default());
    assert_eq!(ts.len(), 1);
    assert_eq!(ts[0].effective_url(), DEFAULT_MH_URL);
    let cfg = Config {
        agent: AgentConfig::default(),
        notify: NotifySection::default(),
        targets: vec![
            target(Some("a")),
            Target {
                url: None,
                category: Some("old".to_string()),
                motoscout_url: None,
                generations: vec![GenerationRule {
                    name: "g".to_string(),
                    title_contains: None,
                    year_from: Some(2020),
                    year_to: None,
                }],
            },
        ],
    };
    let ts = effective_targets(&cfg);
    assert_eq!(ts.len(), 2);
    assert_eq!(ts[0].url.as_deref(), Some("a"));
    assert_eq!(ts[1].category.as_deref(), Some("old"));
    assert_eq!(ts[1].generations[0].name, "g");
}

#[test]
fn first_tracker_notify_settings() {
    let mut c = FirstConfig::default();
    assert_eq!(c.agent.interval_hours, 4);
    let n = notify_config(&c);
    assert!(matches!(n.backend, Backend::Disabled));
    assert_eq!(n.min_alert_score, 7);
    c.notify.ntfy = Some(FirstNtfySection { url: "https://ntfy.sh/a".to_string(), token: Some("k".to_string()) });
    c.agent.min_alert_score = 12;
    let n = notify_config(&c);
    match n.backend {
        Backend::Ntfy(t) => {
            assert_eq!(t.url, "https://ntfy.sh/a");
            assert_eq!(t.token, Some("k".to_string()));
        },
        Backend::Disabled => panic!("expected ntfy"),
    }
    assert_eq!(n.min_alert_score, 12);
}
