//! Settings of the tracker: what to scrape, how often, and where to push.
use vstd::prelude::*;

verus! {

/// The all-motorcycles search URL on motorradhandel.ch.
/// Users can replace this with any filtered search URL from the site.
pub const DEFAULT_MH_URL: &'static str =
    "https://motorradhandel.ch/en/all-motorbikes-and-scooters-search-switzerland?q=%7B%22arts%22%3A%5B1%5D%7D";

pub struct Config {
    pub agent: AgentConfig,
    pub notify: NotifySection,
    pub targets: Vec<Target>,
}

/// One search URL to scrape from motorradhandel.ch, plus optional generation
/// classification rules. `category` and `motoscout_url` are read from older
/// settings files and not used.
pub struct Target {
    pub url: Option<String>,
    pub category: Option<String>,
    pub motoscout_url: Option<String>,
    pub generations: Vec<GenerationRule>,
}

/// Classifies a listing into a named generation by title keyword or year
/// range. Keyword rules are tried first, then year rules; the first match wins.
pub struct GenerationRule {
    pub name: String,
    pub title_contains: Option<String>,
    pub year_from: Option<u16>,
    pub year_to: Option<u16>,
}

pub struct AgentConfig {
    pub interval_hours: u64,
    pub min_alert_score: i32,
}

pub struct NotifySection {
    pub ntfy: Option<NtfySection>,
}

pub struct NtfySection {
    pub url: String,
    pub token: Option<String>,
}

pub fn clone_opt_string(s: &Option<String>) -> (r: Option<String>)
    ensures
        r == *s,
{
    match s {
        Some(v) => Some(v.clone()),
        None => None,
    }
}

impl GenerationRule {
    pub fn duplicate(&self) -> (r: Self)
        ensures
            r == *self,
    {
        GenerationRule {
            name: self.name.clone(),
            title_contains: clone_opt_string(&self.title_contains),
            year_from: self.year_from,
            year_to: self.year_to,
        }
    }
}

pub fn clone_rules(rules: &Vec<GenerationRule>) -> (r: Vec<GenerationRule>)
    ensures
        r@ == rules@,
{
    let mut out: Vec<GenerationRule> = Vec::new();
    let mut i: usize = 0;
    while i < rules.len()
        invariant
            i <= rules.len(),
            out@ == rules@.take(i as int),
        decreases rules.len() - i,
    {
        out.push(rules[i].duplicate());
        assert(out@ =~= rules@.take(i + 1));
        i = i + 1;
    }
    assert(rules@.take(rules.len() as int) =~= rules@);
    out
}

/// Two targets with the same URL, older fields and generation rules.
pub open spec fn same_target(a: Target, b: Target) -> bool {
    &&& a.url == b.url
    &&& a.category == b.category
    &&& a.motoscout_url == b.motoscout_url
    &&& a.generations@ == b.generations@
}

impl Target {
    /// Returns the effective scrape URL, falling back to the all-motorcycles default.
    pub fn effective_url(&self) -> (r: String)
        ensures
            r@ == match self.url {
                Some(u) => u@,
                None => DEFAULT_MH_URL@,
            },
    {
        match &self.url {
            Some(u) => u.clone(),
            None => DEFAULT_MH_URL.to_owned(),
        }
    }

    pub fn duplicate(&self) -> (r: Self)
        ensures
            same_target(r, *self),
    {
        Target {
            url: clone_opt_string(&self.url),
            category: clone_opt_string(&self.category),
            motoscout_url: clone_opt_string(&self.motoscout_url),
            generations: clone_rules(&self.generations),
        }
    }
}

impl Default for Target {
    /// The all-motorcycles search, with no generation rules.
    fn default() -> (r: Self)
        ensures
            r.url matches Some(u) && u@ == DEFAULT_MH_URL@,
            r.category is None,
            r.motoscout_url is None,
            r.generations@.len() == 0,
    {
        Target { url: Some(DEFAULT_MH_URL.to_owned()), category: None, motoscout_url: None, generations: Vec::new() }
    }
}

impl Default for AgentConfig {
    /// A scrape every 4 hours; pushes from a score of 7 ("good") on.
    fn default() -> (r: Self)
        ensures
            r.interval_hours == 4,
            r.min_alert_score == 7,
    {
        AgentConfig { interval_hours: 4, min_alert_score: 7 }
    }
}

impl Default for NotifySection {
    fn default() -> (r: Self)
        ensures
            r.ntfy is None,
    {
        NotifySection { ntfy: None }
    }
}

impl Default for Config {
    fn default() -> (r: Self)
        ensures
            r.agent.interval_hours == 4,
            r.agent.min_alert_score == 7,
            r.notify.ntfy is None,
            r.targets@.len() == 0,
    {
        Config { agent: AgentConfig::default(), notify: NotifySection::default(), targets: Vec::new() }
    }
}

/// Environment variables override the settings file: when `NTFY_URL` is set,
/// the push topic is that URL, with `NTFY_TOKEN` (if set) as its token.
pub fn with_env_overrides(cfg: Config, ntfy_url: Option<String>, ntfy_token: Option<String>) -> (r: Config)
    ensures
        r.agent == cfg.agent,
        r.targets == cfg.targets,
        match ntfy_url {
            Some(u) => r.notify.ntfy matches Some(n) && n.url == u && n.token == ntfy_token,
            None => r.notify == cfg.notify,
        },
{
    match ntfy_url {
        Some(url) => Config {
            agent: cfg.agent,
            notify: NotifySection { ntfy: Some(NtfySection { url, token: ntfy_token }) },
            targets: cfg.targets,
        },
        None => cfg,
    }
}

/// The targets to scrape: the configured ones, or the default target when
/// none is configured.
pub fn effective_targets(cfg: &Config) -> (r: Vec<Target>)
    ensures
        cfg.targets@.len() > 0 ==> r@.len() == cfg.targets@.len()
            && forall|i: int| 0 <= i < r@.len() ==> same_target(#[trigger] r@[i], cfg.targets@[i]),
        cfg.targets@.len() == 0 ==> r@.len() == 1 && (r@[0].url matches Some(u) && u@ == DEFAULT_MH_URL@)
            && r@[0].generations@.len() == 0,
{
    if cfg.targets.len() == 0 {
        let mut v: Vec<Target> = Vec::new();
        v.push(Target::default());
        v
    } else {
        let mut out: Vec<Target> = Vec::new();
        let mut i: usize = 0;
        while i < cfg.targets.len()
            invariant
                i <= cfg.targets.len(),
                out@.len() == i,
                forall|j: int| 0 <= j < i ==> same_target(#[trigger] out@[j], cfg.targets@[j]),
            decreases cfg.targets.len() - i,
        {
            out.push(cfg.targets[i].duplicate());
            i = i + 1;
        }
        out
    }
}

} // verus!
