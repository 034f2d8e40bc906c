//! Pushes after each run: new deals, price drops, a digest of other new
//! listings, and a heartbeat with the number of tracked listings.
use vstd::prelude::*;
use crate::models::motorcycle::MotorcycleListing;
use crate::notify::{
    change_ids_distinct, ids_apart, ids_distinct, is_alert_plan, law_recorded_run_is_quiet, lines_text, plan_alerts,
    recorded, summary_lines, Outgoing,
};
use crate::notify::ntfy::{Message, tag_views};
use crate::notify::state::NotifyState;
use crate::store::PriceChange;
use crate::text::{dec, fmt_u64};

verus! {

/// Where to post: the topic URL, and a bearer token for self-hosted servers.
#[derive(Clone, Debug)]
pub struct NtfyConfig {
    pub url: String,
    pub token: Option<String>,
}

/// Body of the heartbeat: the number of tracked listings, then the top deals
/// when there are any.
pub open spec fn heartbeat_body_text(total_tracked: usize, top_deals: Seq<MotorcycleListing>) -> Seq<char> {
    if top_deals.len() == 0 {
        "tracking "@ + dec(total_tracked as nat) + " listings"@
    } else {
        "tracking "@ + dec(total_tracked as nat) + " listings\n\ntop deals:\n"@ + lines_text(top_deals)
    }
}

pub open spec fn is_heartbeat(m: Message, now: Seq<char>, total_tracked: usize, top_deals: Seq<MotorcycleListing>) -> bool {
    &&& m.title@ == "openclaw · "@ + now
    &&& m.body@ == heartbeat_body_text(total_tracked, top_deals)
    &&& m.priority == 1
    &&& tag_views(m.tags@) == seq!["motorcycle"@]
    &&& m.click_url is None
}

/// The heartbeat sent at the end of each run; `now` is the time of the run
/// as "dd.mm.yyyy HH:MM".
pub fn heartbeat_message(now: &str, total_tracked: usize, top_deals: &Vec<MotorcycleListing>) -> (r: Message)
    ensures
        is_heartbeat(r, now@, total_tracked, top_deals@),
{
    let count = fmt_u64(total_tracked as u64);
    let body = if top_deals.len() == 0 {
        "tracking ".to_owned().concat(count.as_str()).concat(" listings")
    } else {
        "tracking ".to_owned().concat(count.as_str()).concat(" listings\n\ntop deals:\n")
            .concat(summary_lines(top_deals).as_str())
    };
    let mut tags: Vec<&'static str> = Vec::new();
    tags.push("motorcycle");
    let r = Message {
        title: "openclaw · ".to_owned().concat(now),
        body,
        priority: 1,
        tags,
        click_url: None,
    };
    assert(tag_views(r.tags@) =~= seq!["motorcycle"@]);
    r
}

/// What a run pushes, in order. Without a topic nothing; otherwise the alert
/// plan of the new listings and price changes against the pushed-state and the
/// threshold, followed by the heartbeat (which records nothing).
pub fn plan_summary(
    config: &Option<NtfyConfig>,
    new: &Vec<MotorcycleListing>,
    price_changes: &Vec<PriceChange>,
    top_deals: &Vec<MotorcycleListing>,
    total_tracked: usize,
    state: &NotifyState,
    min_alert_score: i32,
    now: &str,
) -> (r: Vec<Outgoing>)
    ensures
        config is None ==> r@.len() == 0,
        config is Some ==> {
            &&& r@.len() > 0
            &&& is_alert_plan(r@.drop_last(), new@, price_changes@, state@, min_alert_score)
            &&& is_heartbeat(r@.last().message, now@, total_tracked, top_deals@)
            &&& r@.last().marks@.len() == 0
        },
{
    match config {
        None => Vec::new(),
        Some(_) => {
            let mut plan = plan_alerts(new, price_changes, state, min_alert_score);
            let ghost alerts = plan@;
            plan.push(Outgoing { message: heartbeat_message(now, total_tracked, top_deals), marks: Vec::new() });
            assert(plan@.drop_last() =~= alerts);
            plan
        },
    }
}

/// Law: when every message of a run's summary plan has been sent and its
/// marks recorded in order, the same run again sends only its heartbeat, and
/// recording that leaves the pushed-state as it was.
pub proof fn law_summary_rerun_sends_only_heartbeat(
    first: Seq<Outgoing>,
    again: Seq<Outgoing>,
    new: Seq<MotorcycleListing>,
    price_changes: Seq<PriceChange>,
    st: Map<u64, u32>,
    min_alert_score: i32,
)
    requires
        ids_distinct(new),
        change_ids_distinct(price_changes),
        ids_apart(new, price_changes),
        first.len() > 0,
        is_alert_plan(first.drop_last(), new, price_changes, st, min_alert_score),
        first.last().marks@.len() == 0,
        again.len() > 0,
        is_alert_plan(again.drop_last(), new, price_changes, recorded(st, first), min_alert_score),
        again.last().marks@.len() == 0,
    ensures
        again.len() == 1,
        recorded(recorded(st, first), again) == recorded(st, first),
{
    let s1 = recorded(st, first.drop_last());
    assert(recorded(st, first) == s1);
    law_recorded_run_is_quiet(first.drop_last(), again.drop_last(), new, price_changes, st, min_alert_score);
    assert(again.drop_last().len() == 0);
    assert(recorded(recorded(st, first), again.drop_last()) == recorded(st, first));
}

} // verus!
