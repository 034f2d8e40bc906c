//! Settings of the first tracker.
use vstd::prelude::*;
use crate::notify::{Backend, NotifyConfig};
use crate::notify::ntfy::NtfyConfig;

verus! {

pub struct Config {
    pub agent: AgentConfig,
    pub notify: NotifySection,
}

pub struct AgentConfig {
    /// Hours between scrape cycles in daemon mode.
    pub interval_hours: u64,
    /// Minimum price_score to trigger a high-priority push (default 7 = "good").
    pub min_alert_score: i32,
}

pub struct NotifySection {
    pub ntfy: Option<NtfySection>,
}

pub struct NtfySection {
    pub url: String,
    pub token: Option<String>,
}

impl Default for AgentConfig {
    fn default() -> (r: Self)
        ensures
            r.interval_hours == 4,
            r.min_alert_score == 7,
    {
        AgentConfig { interval_hours: 4, min_alert_score: 7 }
    }
}

impl Default for NotifySection {
    fn default() -> (r: Self)
        ensures
            r.ntfy is None,
    {
        NotifySection { ntfy: None }
    }
}

impl Default for Config {
    fn default() -> (r: Self)
        ensures
            r.agent.interval_hours == 4,
            r.agent.min_alert_score == 7,
            r.notify.ntfy is None,
    {
        Config { agent: AgentConfig::default(), notify: NotifySection::default() }
    }
}

/// The notification settings: ntfy when a topic is configured, disabled
/// otherwise, with the configured alert threshold.
pub fn notify_config(cfg: &Config) -> (r: NotifyConfig)
    ensures
        r.min_alert_score == cfg.agent.min_alert_score,
        match cfg.notify.ntfy {
            Some(n) => r.backend matches Backend::Ntfy(c) && c.url == n.url && c.token == n.token,
            None => r.backend is Disabled,
        },
{
    let backend = match &cfg.notify.ntfy {
        Some(n) => Backend::Ntfy(NtfyConfig {
            url: n.url.clone(),
            token: match &n.token {
                Some(t) => Some(t.clone()),
                None => None,
            },
        }),
        None => Backend::Disabled,
    };
    NotifyConfig { backend, min_alert_score: cfg.agent.min_alert_score }
}

} // verus!
