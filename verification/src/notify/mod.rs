//! What to push after a scrape: new deals, price drops into deal territory,
//! and a digest of the other new listings, each listing at a given price once.
pub mod ntfy;
pub mod state;

use vstd::prelude::*;
use crate::models::motorcycle::MotorcycleListing;
use crate::store::{PriceChange, StoreSummary};
use crate::text::{contains_seq, dec, fmt_signed, fmt_u64, lower, occurs_at, signed_dec, to_lowercase};
use ntfy::{Message, NtfyConfig, tag_views};
use state::{marked, sent, NotifyState, already_sent};

verus! {

/// Score at or above which a new listing triggers its own push (7, the lowest
/// "good" score); below it, listings go into the digest.
pub const ALERT_SCORE: i32 = 7;

/// Where notifications go.
#[derive(Clone, Debug)]
pub enum Backend {
    Ntfy(NtfyConfig),
    Disabled,
}

#[derive(Clone, Debug)]
pub struct NotifyConfig {
    pub backend: Backend,
    pub min_alert_score: i32,
}

impl Default for NotifyConfig {
    fn default() -> (r: Self)
        ensures
            r.backend is Disabled,
            r.min_alert_score == ALERT_SCORE,
    {
        NotifyConfig { backend: Backend::Disabled, min_alert_score: ALERT_SCORE }
    }
}

/// How a listing's seller is shown: "private", or the dealer's name.
pub open spec fn seller_text(l: MotorcycleListing) -> Seq<char> {
    if l.is_private { "private"@ } else { l.seller_name@ }
}

/// Body of the push for a new deal.
pub open spec fn deal_body_text(l: MotorcycleListing) -> Seq<char> {
    l.title@ + " · "@ + dec(l.mileage_km as nat) + "km · "@ + dec(l.year as nat) + " · CHF "@
        + dec(l.price_chf as nat) + " · "@ + l.location@ + " · "@ + seller_text(l) + "\n"@
        + l.price_label@ + " ("@ + signed_dec(l.price_score as int) + "%, vs "@ + dec(l.score_peers as nat)
        + ")\n"@ + l.url@
}

/// Body of the push for a price drop.
pub open spec fn drop_body_text(pc: PriceChange) -> Seq<char> {
    let l = pc.listing;
    l.title@ + " · "@ + dec(l.mileage_km as nat) + "km · "@ + dec(l.year as nat) + " · CHF "@
        + dec(pc.old_price as nat) + " → "@ + dec(l.price_chf as nat) + " ("@
        + signed_dec(l.price_chf as int - pc.old_price as int) + ")\n"@
        + l.price_label@ + " ("@ + signed_dec(l.price_score as int) + "%, vs "@ + dec(l.score_peers as nat)
        + ")\n"@ + l.url@
}

/// One line of a listing summary.
pub open spec fn line_text(l: MotorcycleListing) -> Seq<char> {
    "· "@ + l.title@ + " · "@ + dec(l.mileage_km as nat) + "km · "@ + dec(l.year as nat) + " · CHF "@
        + dec(l.price_chf as nat) + " · "@ + l.price_label@ + " ("@ + signed_dec(l.price_score as int) + "%)"@
}

/// The summary lines of `ls`, one per listing, joined by newlines.
pub open spec fn lines_text(ls: Seq<MotorcycleListing>) -> Seq<char>
    decreases ls.len(),
{
    if ls.len() == 0 {
        Seq::empty()
    } else if ls.len() == 1 {
        line_text(ls[0])
    } else {
        lines_text(ls.drop_last()) + "\n"@ + line_text(ls.last())
    }
}

fn seller_of(l: &MotorcycleListing) -> (r: String)
    ensures
        r@ == seller_text(*l),
{
    if l.is_private { "private".to_owned() } else { l.seller_name.clone() }
}

fn deal_body(l: &MotorcycleListing) -> (r: String)
    ensures
        r@ == deal_body_text(*l),
{
    let r = l.title.clone().concat(" · ").concat(fmt_u64(l.mileage_km as u64).as_str()).concat("km · ")
        .concat(fmt_u64(l.year as u64).as_str()).concat(" · CHF ").concat(fmt_u64(l.price_chf as u64).as_str())
        .concat(" · ").concat(l.location.as_str()).concat(" · ").concat(seller_of(l).as_str()).concat("\n")
        .concat(l.price_label.as_str()).concat(" (").concat(fmt_signed(l.price_score as i64).as_str())
        .concat("%, vs ").concat(fmt_u64(l.score_peers as u64).as_str()).concat(")\n").concat(l.url.as_str());
    r
}

fn drop_body(pc: &PriceChange) -> (r: String)
    ensures
        r@ == drop_body_text(*pc),
{
    let l = &pc.listing;
    let diff = l.price_chf as i64 - pc.old_price as i64;
    let r = l.title.clone().concat(" · ").concat(fmt_u64(l.mileage_km as u64).as_str()).concat("km · ")
        .concat(fmt_u64(l.year as u64).as_str()).concat(" · CHF ").concat(fmt_u64(pc.old_price as u64).as_str())
        .concat(" → ").concat(fmt_u64(l.price_chf as u64).as_str()).concat(" (").concat(fmt_signed(diff).as_str())
        .concat(")\n").concat(l.price_label.as_str()).concat(" (").concat(fmt_signed(l.price_score as i64).as_str())
        .concat("%, vs ").concat(fmt_u64(l.score_peers as u64).as_str()).concat(")\n").concat(l.url.as_str());
    r
}

pub fn summary_line(l: &MotorcycleListing) -> (r: String)
    ensures
        r@ == line_text(*l),
{
    let r = "· ".to_owned().concat(l.title.as_str()).concat(" · ").concat(fmt_u64(l.mileage_km as u64).as_str())
        .concat("km · ").concat(fmt_u64(l.year as u64).as_str()).concat(" · CHF ")
        .concat(fmt_u64(l.price_chf as u64).as_str()).concat(" · ").concat(l.price_label.as_str()).concat(" (")
        .concat(fmt_signed(l.price_score as i64).as_str()).concat("%)");
    r
}

/// The summary lines of `ls`, joined by newlines.
pub fn summary_lines(ls: &Vec<MotorcycleListing>) -> (r: String)
    ensures
        r@ == lines_text(ls@),
{
    let mut out = String::new();
    let mut i: usize = 0;
    while i < ls.len()
        invariant
            i <= ls.len(),
            out@ == lines_text(ls@.take(i as int)),
        decreases ls.len() - i,
    {
        assert(ls@.take(i + 1).drop_last() =~= ls@.take(i as int));
        let line = summary_line(&ls[i]);
        if i == 0 {
            assert(ls@.take(1)[0] == ls@[0]);
            out = line;
        } else {
            out = out.concat("\n").concat(line.as_str());
        }
        i = i + 1;
    }
    assert(ls@.take(ls.len() as int) =~= ls@);
    out
}

/// The new listings of `news`, in order, whose score is at or above `min`
/// (`above`) or below it (`!above`), and that were not yet pushed at their
/// current price.
pub open spec fn picked_new(news: Seq<MotorcycleListing>, st: Map<u64, u32>, min: i32, above: bool) -> Seq<MotorcycleListing>
    decreases news.len(),
{
    if news.len() == 0 {
        Seq::empty()
    } else {
        let prev = picked_new(news.drop_last(), st, min, above);
        let l = news.last();
        if (l.price_score >= min) == above && !sent(st, l.listing_id, l.price_chf) {
            prev.push(l)
        } else {
            prev
        }
    }
}

/// The price changes of `pcs`, in order, that are drops to a score at or
/// above `min`, not yet pushed at the new price.
pub open spec fn picked_drops(pcs: Seq<PriceChange>, st: Map<u64, u32>, min: i32) -> Seq<PriceChange>
    decreases pcs.len(),
{
    if pcs.len() == 0 {
        Seq::empty()
    } else {
        let prev = picked_drops(pcs.drop_last(), st, min);
        let pc = pcs.last();
        if pc.old_price > pc.listing.price_chf && pc.listing.price_score >= min
            && !sent(st, pc.listing.listing_id, pc.listing.price_chf) {
            prev.push(pc)
        } else {
            prev
        }
    }
}

/// The `(listing ID, price)` pairs of `ls`.
pub open spec fn marks_of(ls: Seq<MotorcycleListing>) -> Seq<(u64, u32)> {
    ls.map_values(|l: MotorcycleListing| (l.listing_id, l.price_chf))
}

pub open spec fn listings_of(pcs: Seq<PriceChange>) -> Seq<MotorcycleListing> {
    pcs.map_values(|pc: PriceChange| pc.listing)
}

/// A message to send, and the listings (with prices) to record as pushed once it is sent.
#[derive(Clone, Debug)]
pub struct Outgoing {
    pub message: Message,
    pub marks: Vec<(u64, u32)>,
}

pub open spec fn is_deal_message(m: Message, l: MotorcycleListing) -> bool {
    &&& m.title@ == "openclaw · new "@ + l.price_label@
    &&& m.body@ == deal_body_text(l)
    &&& m.priority == if l.price_score >= 15 { 4u8 } else { 3u8 }
    &&& tag_views(m.tags@) == if l.price_score >= 15 {
        seq!["motorcycle"@, "white_check_mark"@]
    } else {
        seq!["motorcycle"@]
    }
    &&& m.click_url matches Some(u) && u@ == l.url@
}

pub open spec fn is_drop_message(m: Message, pc: PriceChange) -> bool {
    &&& m.title@ == "openclaw · price drop "@ + lower(pc.listing.title@)
    &&& m.body@ == drop_body_text(pc)
    &&& m.priority == 3
    &&& tag_views(m.tags@) == seq!["motorcycle"@, "arrow_down"@]
    &&& m.click_url matches Some(u) && u@ == pc.listing.url@
}

pub open spec fn is_digest_message(m: Message, rest: Seq<MotorcycleListing>) -> bool {
    &&& m.title@ == "openclaw · "@ + dec(rest.len()) + " new listing"@ + if rest.len() == 1 { ""@ } else { "s"@ }
    &&& m.body@ == lines_text(rest)
    &&& m.priority == 2
    &&& tag_views(m.tags@) == seq!["motorcycle"@]
    &&& m.click_url is None
}

/// Whether `plan` is what a run with new listings `news`, price changes
/// `changes`, pushed-state `st` and threshold `min` sends, in order: one push
/// per new deal (score at least `min`, not yet pushed at its price); then one
/// per price drop to a score at least `min` not yet pushed at its new price;
/// then, if any are left, one digest of the other new listings not yet pushed
/// at their price. Each message records what it pushed.
pub open spec fn is_alert_plan(
    plan: Seq<Outgoing>,
    news: Seq<MotorcycleListing>,
    changes: Seq<PriceChange>,
    st: Map<u64, u32>,
    min: i32,
) -> bool {
    let deals = picked_new(news, st, min, true);
    let st1 = marked(st, marks_of(deals));
    let drops = picked_drops(changes, st1, min);
    let st2 = marked(st1, marks_of(listings_of(drops)));
    let rest = picked_new(news, st2, min, false);
    &&& plan.len() == deals.len() + drops.len() + if rest.len() > 0 { 1int } else { 0int }
    &&& forall|i: int| 0 <= i < deals.len() ==> {
        &&& is_deal_message((#[trigger] plan[i]).message, deals[i])
        &&& plan[i].marks@ == seq![(deals[i].listing_id, deals[i].price_chf)]
    }
    &&& forall|i: int| 0 <= i < drops.len() ==> {
        &&& is_drop_message((#[trigger] plan[deals.len() + i]).message, drops[i])
        &&& plan[deals.len() + i].marks@ == seq![(drops[i].listing.listing_id, drops[i].listing.price_chf)]
    }
    &&& rest.len() > 0 ==> {
        &&& is_digest_message(plan[plan.len() - 1].message, rest)
        &&& plan[plan.len() - 1].marks@ == marks_of(rest)
    }
}

fn pick_new(news: &Vec<MotorcycleListing>, st: &NotifyState, min: i32, above: bool) -> (r: Vec<MotorcycleListing>)
    ensures
        r@ == picked_new(news@, st@, min, above),
{
    let mut out: Vec<MotorcycleListing> = Vec::new();
    let mut i: usize = 0;
    while i < news.len()
        invariant
            i <= news.len(),
            out@ == picked_new(news@.take(i as int), st@, min, above),
        decreases news.len() - i,
    {
        assert(news@.take(i + 1).drop_last() =~= news@.take(i as int));
        let l = &news[i];
        if (l.price_score >= min) == above && !already_sent(st, l.listing_id, l.price_chf) {
            out.push(l.duplicate());
        }
        i = i + 1;
    }
    assert(news@.take(news.len() as int) =~= news@);
    out
}

fn pick_drops(changes: &Vec<PriceChange>, st: &NotifyState, min: i32) -> (r: Vec<PriceChange>)
    ensures
        r@ == picked_drops(changes@, st@, min),
{
    let mut out: Vec<PriceChange> = Vec::new();
    let mut i: usize = 0;
    while i < changes.len()
        invariant
            i <= changes.len(),
            out@ == picked_drops(changes@.take(i as int), st@, min),
        decreases changes.len() - i,
    {
        assert(changes@.take(i + 1).drop_last() =~= changes@.take(i as int));
        let pc = &changes[i];
        if pc.old_price > pc.listing.price_chf && pc.listing.price_score >= min
            && !already_sent(st, pc.listing.listing_id, pc.listing.price_chf) {
            out.push(PriceChange { listing: pc.listing.duplicate(), old_price: pc.old_price });
        }
        i = i + 1;
    }
    assert(changes@.take(changes.len() as int) =~= changes@);
    out
}

fn marks_for(ls: &Vec<MotorcycleListing>) -> (r: Vec<(u64, u32)>)
    ensures
        r@ == marks_of(ls@),
{
    let mut out: Vec<(u64, u32)> = Vec::new();
    let mut i: usize = 0;
    while i < ls.len()
        invariant
            i <= ls.len(),
            out@ == marks_of(ls@.take(i as int)),
        decreases ls.len() - i,
    {
        out.push((ls[i].listing_id, ls[i].price_chf));
        assert(marks_of(ls@.take(i + 1)) =~= marks_of(ls@.take(i as int)).push((ls@[i as int].listing_id, ls@[i as int].price_chf)));
        i = i + 1;
    }
    assert(ls@.take(ls.len() as int) =~= ls@);
    out
}

fn drop_marks(pcs: &Vec<PriceChange>) -> (r: Vec<(u64, u32)>)
    ensures
        r@ == marks_of(listings_of(pcs@)),
{
    let mut out: Vec<(u64, u32)> = Vec::new();
    let mut i: usize = 0;
    while i < pcs.len()
        invariant
            i <= pcs.len(),
            out@ == marks_of(listings_of(pcs@.take(i as int))),
        decreases pcs.len() - i,
    {
        out.push((pcs[i].listing.listing_id, pcs[i].listing.price_chf));
        assert(marks_of(listings_of(pcs@.take(i + 1))) =~= marks_of(listings_of(pcs@.take(i as int))).push(
            (pcs@[i as int].listing.listing_id, pcs@[i as int].listing.price_chf)));
        i = i + 1;
    }
    assert(pcs@.take(pcs.len() as int) =~= pcs@);
    out
}

fn deal_message(l: &MotorcycleListing) -> (r: Message)
    ensures
        is_deal_message(r, *l),
{
    let great = l.price_score >= 15;
    let mut tags: Vec<&'static str> = Vec::new();
    tags.push("motorcycle");
    if great {
        tags.push("white_check_mark");
    }
    let r = Message {
        title: "openclaw · new ".to_owned().concat(l.price_label.as_str()),
        body: deal_body(l),
        priority: if great { 4 } else { 3 },
        tags,
        click_url: Some(l.url.clone()),
    };
    assert(tag_views(r.tags@) =~= if great { seq!["motorcycle"@, "white_check_mark"@] } else { seq!["motorcycle"@] });
    r
}

fn drop_message(pc: &PriceChange) -> (r: Message)
    ensures
        is_drop_message(r, *pc),
{
    let mut tags: Vec<&'static str> = Vec::new();
    tags.push("motorcycle");
    tags.push("arrow_down");
    let r = Message {
        title: "openclaw · price drop ".to_owned().concat(to_lowercase(pc.listing.title.as_str()).as_str()),
        body: drop_body(pc),
        priority: 3,
        tags,
        click_url: Some(pc.listing.url.clone()),
    };
    assert(tag_views(r.tags@) =~= seq!["motorcycle"@, "arrow_down"@]);
    r
}

fn digest_message(rest: &Vec<MotorcycleListing>) -> (r: Message)
    ensures
        is_digest_message(r, rest@),
{
    let mut tags: Vec<&'static str> = Vec::new();
    tags.push("motorcycle");
    let suffix = if rest.len() == 1 { "" } else { "s" };
    let r = Message {
        title: "openclaw · ".to_owned().concat(fmt_u64(rest.len() as u64).as_str()).concat(" new listing").concat(suffix),
        body: summary_lines(rest),
        priority: 2,
        tags,
        click_url: None,
    };
    assert(tag_views(r.tags@) =~= seq!["motorcycle"@]);
    r
}

/// The pushes for one run: new deals, price drops into deal territory, then a
/// digest of the other new listings; nothing already pushed at its price.
pub fn plan_alerts(news: &Vec<MotorcycleListing>, changes: &Vec<PriceChange>, state: &NotifyState, min: i32) -> (r: Vec<Outgoing>)
    ensures
        is_alert_plan(r@, news@, changes@, state@, min),
{
    let mut st = state.clone();
    let deals = pick_new(news, &st, min, true);
    let deal_marks = marks_for(&deals);
    state::record_sent(&mut st, &deal_marks);
    let drops = pick_drops(changes, &st, min);
    let dmarks = drop_marks(&drops);
    state::record_sent(&mut st, &dmarks);
    let rest = pick_new(news, &st, min, false);

    let mut plan: Vec<Outgoing> = Vec::new();
    let mut i: usize = 0;
    while i < deals.len()
        invariant
            i <= deals.len(),
            plan.len() == i,
            forall|j: int| 0 <= j < i ==> {
                &&& is_deal_message((#[trigger] plan@[j]).message, deals@[j])
                &&& plan@[j].marks@ == seq![(deals@[j].listing_id, deals@[j].price_chf)]
            },
        decreases deals.len() - i,
    {
        let mut m: Vec<(u64, u32)> = Vec::new();
        m.push((deals[i].listing_id, deals[i].price_chf));
        assert(m@ =~= seq![(deals@[i as int].listing_id, deals@[i as int].price_chf)]);
        plan.push(Outgoing { message: deal_message(&deals[i]), marks: m });
        i = i + 1;
    }
    let mut i: usize = 0;
    while i < drops.len()
        invariant
            i <= drops.len(),
            plan.len() == deals.len() + i,
            forall|j: int| 0 <= j < deals.len() ==> {
                &&& is_deal_message((#[trigger] plan@[j]).message, deals@[j])
                &&& plan@[j].marks@ == seq![(deals@[j].listing_id, deals@[j].price_chf)]
            },
            forall|j: int| 0 <= j < i ==> {
                &&& is_drop_message((#[trigger] plan@[deals.len() + j]).message, drops@[j])
                &&& plan@[deals.len() + j].marks@ == seq![(drops@[j].listing.listing_id, drops@[j].listing.price_chf)]
            },
        decreases drops.len() - i,
    {
        let mut m: Vec<(u64, u32)> = Vec::new();
        m.push((drops[i].listing.listing_id, drops[i].listing.price_chf));
        assert(m@ =~= seq![(drops@[i as int].listing.listing_id, drops@[i as int].listing.price_chf)]);
        plan.push(Outgoing { message: drop_message(&drops[i]), marks: m });
        i = i + 1;
    }
    if rest.len() > 0 {
        let m = marks_for(&rest);
        plan.push(Outgoing { message: digest_message(&rest), marks: m });
    }
    plan
}

/// Send a test ping to verify the notification pipeline is working: the
/// topic to post to and the message, or the error when no backend is set.
pub fn test_ping(config: &NotifyConfig) -> (r: Result<(NtfyConfig, Message), String>)
    ensures
        match config.backend {
            Backend::Disabled => r matches Err(e) && e@ == "no notification backend configured — add [notify.ntfy] to config.toml"@,
            Backend::Ntfy(cfg) => r matches Ok((c, m)) && {
                &&& c.url == cfg.url
                &&& c.token == cfg.token
                &&& m.title@ == "openclaw · test"@
                &&& m.body@ == "notification pipeline working"@
                &&& m.priority == 3
                &&& tag_views(m.tags@) == seq!["motorcycle"@, "white_check_mark"@]
                &&& m.click_url is None
            },
        },
{
    match &config.backend {
        Backend::Ntfy(cfg) => {
            let mut tags: Vec<&'static str> = Vec::new();
            tags.push("motorcycle");
            tags.push("white_check_mark");
            let m = Message {
                title: "openclaw · test".to_owned(),
                body: "notification pipeline working".to_owned(),
                priority: 3,
                tags,
                click_url: None,
            };
            assert(tag_views(m.tags@) =~= seq!["motorcycle"@, "white_check_mark"@]);
            let token = match &cfg.token {
                Some(t) => Some(t.clone()),
                None => None,
            };
            Ok((NtfyConfig { url: cfg.url.clone(), token }, m))
        },
        Backend::Disabled => Err("no notification backend configured — add [notify.ntfy] to config.toml".to_owned()),
    }
}

/// Everything interesting in this scrape run, to be pushed in order: with no
/// backend nothing, otherwise the alert plan of the summary's new listings and
/// price changes against the pushed-state and the configured threshold.
pub fn dispatch_plan(config: &NotifyConfig, summary: &StoreSummary, state: &NotifyState) -> (r: Vec<Outgoing>)
    ensures
        match config.backend {
            Backend::Disabled => r@.len() == 0,
            Backend::Ntfy(_) => is_alert_plan(r@, summary.new@, summary.price_changes@, state@, config.min_alert_score),
        },
{
    match &config.backend {
        Backend::Ntfy(_) => plan_alerts(&summary.new, &summary.price_changes, state, config.min_alert_score),
        Backend::Disabled => Vec::new(),
    }
}

proof fn lemma_marked_hit(st: Map<u64, u32>, ms: Seq<(u64, u32)>, k: u64, p: u32)
    requires
        exists|i: int| 0 <= i < ms.len() && ms[i] == (k, p),
        forall|i: int| 0 <= i < ms.len() && (#[trigger] ms[i]).0 == k ==> ms[i].1 == p,
    ensures
        sent(marked(st, ms), k, p),
    decreases ms.len(),
{
    if ms.last().0 != k {
        let i = choose|i: int| 0 <= i < ms.len() && ms[i] == (k, p);
        assert(ms.drop_last()[i] == ms[i]);
        assert forall|j: int| 0 <= j < ms.drop_last().len() && (#[trigger] ms.drop_last()[j]).0 == k implies ms.drop_last()[j].1 == p by {
            assert(ms.drop_last()[j] == ms[j]);
        }
        lemma_marked_hit(st, ms.drop_last(), k, p);
    }
}

proof fn lemma_marked_miss(st: Map<u64, u32>, ms: Seq<(u64, u32)>, k: u64, p: u32)
    requires
        forall|i: int| 0 <= i < ms.len() ==> (#[trigger] ms[i]).0 != k,
    ensures
        sent(marked(st, ms), k, p) == sent(st, k, p),
    decreases ms.len(),
{
    if ms.len() > 0 {
        assert forall|i: int| 0 <= i < ms.drop_last().len() implies (#[trigger] ms.drop_last()[i]).0 != k by {
            assert(ms.drop_last()[i] == ms[i]);
        }
        lemma_marked_miss(st, ms.drop_last(), k, p);
        assert(ms[ms.len() - 1].0 != k);
    }
}

/// Every element of `picked_new` is an entry of `news` meeting the choice.
proof fn lemma_picked_new_from(news: Seq<MotorcycleListing>, st: Map<u64, u32>, min: i32, above: bool, i: int)
    requires
        0 <= i < picked_new(news, st, min, above).len(),
    ensures
        exists|j: int| 0 <= j < news.len() && #[trigger] news[j] == picked_new(news, st, min, above)[i],
        (picked_new(news, st, min, above)[i].price_score >= min) == above,
        !sent(st, picked_new(news, st, min, above)[i].listing_id, picked_new(news, st, min, above)[i].price_chf),
    decreases news.len(),
{
    let prev = picked_new(news.drop_last(), st, min, above);
    if i < prev.len() {
        lemma_picked_new_from(news.drop_last(), st, min, above, i);
        let j = choose|j: int| 0 <= j < news.drop_last().len() && #[trigger] news.drop_last()[j] == prev[i];
        assert(news[j] == news.drop_last()[j]);
    } else {
        assert(news[news.len() - 1] == news.last());
    }
}

/// Every entry of `news` meeting the choice is in `picked_new`.
proof fn lemma_picked_new_has(news: Seq<MotorcycleListing>, st: Map<u64, u32>, min: i32, above: bool, j: int)
    requires
        0 <= j < news.len(),
        (news[j].price_score >= min) == above,
        !sent(st, news[j].listing_id, news[j].price_chf),
    ensures
        exists|i: int| 0 <= i < picked_new(news, st, min, above).len() && #[trigger] picked_new(news, st, min, above)[i] == news[j],
    decreases news.len(),
{
    let prev = picked_new(news.drop_last(), st, min, above);
    if j < news.len() - 1 {
        assert(news.drop_last()[j] == news[j]);
        lemma_picked_new_has(news.drop_last(), st, min, above, j);
        let i = choose|i: int| 0 <= i < prev.len() && #[trigger] prev[i] == news[j];
        assert(picked_new(news, st, min, above)[i] == prev[i]);
    } else {
        let r = picked_new(news, st, min, above);
        assert(r[r.len() - 1] == news[j]);
    }
}

proof fn lemma_picked_drops_from(pcs: Seq<PriceChange>, st: Map<u64, u32>, min: i32, i: int)
    requires
        0 <= i < picked_drops(pcs, st, min).len(),
    ensures
        exists|j: int| 0 <= j < pcs.len() && #[trigger] pcs[j] == picked_drops(pcs, st, min)[i],
    decreases pcs.len(),
{
    let prev = picked_drops(pcs.drop_last(), st, min);
    if i < prev.len() {
        lemma_picked_drops_from(pcs.drop_last(), st, min, i);
        let j = choose|j: int| 0 <= j < pcs.drop_last().len() && #[trigger] pcs.drop_last()[j] == prev[i];
        assert(pcs[j] == pcs.drop_last()[j]);
    } else {
        assert(pcs[pcs.len() - 1] == pcs.last());
    }
}

proof fn lemma_picked_drops_has(pcs: Seq<PriceChange>, st: Map<u64, u32>, min: i32, j: int)
    requires
        0 <= j < pcs.len(),
        pcs[j].old_price > pcs[j].listing.price_chf,
        pcs[j].listing.price_score >= min,
        !sent(st, pcs[j].listing.listing_id, pcs[j].listing.price_chf),
    ensures
        exists|i: int| 0 <= i < picked_drops(pcs, st, min).len() && #[trigger] picked_drops(pcs, st, min)[i] == pcs[j],
    decreases pcs.len(),
{
    let prev = picked_drops(pcs.drop_last(), st, min);
    if j < pcs.len() - 1 {
        assert(pcs.drop_last()[j] == pcs[j]);
        lemma_picked_drops_has(pcs.drop_last(), st, min, j);
        let i = choose|i: int| 0 <= i < prev.len() && #[trigger] prev[i] == pcs[j];
        assert(picked_drops(pcs, st, min)[i] == prev[i]);
    } else {
        let r = picked_drops(pcs, st, min);
        assert(r[r.len() - 1] == pcs[j]);
    }
}

proof fn lemma_picked_new_empty(news: Seq<MotorcycleListing>, st: Map<u64, u32>, min: i32, above: bool)
    requires
        forall|j: int| 0 <= j < news.len() && (news[j].price_score >= min) == above
            ==> sent(st, (#[trigger] news[j]).listing_id, news[j].price_chf),
    ensures
        picked_new(news, st, min, above).len() == 0,
{
    if picked_new(news, st, min, above).len() > 0 {
        lemma_picked_new_from(news, st, min, above, 0);
        let j = choose|j: int| 0 <= j < news.len() && #[trigger] news[j] == picked_new(news, st, min, above)[0];
    }
}

proof fn lemma_picked_drops_empty(pcs: Seq<PriceChange>, st: Map<u64, u32>, min: i32)
    requires
        forall|j: int| 0 <= j < pcs.len() && pcs[j].old_price > pcs[j].listing.price_chf && pcs[j].listing.price_score >= min
            ==> sent(st, (#[trigger] pcs[j]).listing.listing_id, pcs[j].listing.price_chf),
    ensures
        picked_drops(pcs, st, min).len() == 0,
    decreases pcs.len(),
{
    if pcs.len() > 0 {
        assert forall|j: int| 0 <= j < pcs.drop_last().len() && pcs.drop_last()[j].old_price > pcs.drop_last()[j].listing.price_chf
            && pcs.drop_last()[j].listing.price_score >= min
            implies sent(st, (#[trigger] pcs.drop_last()[j]).listing.listing_id, pcs.drop_last()[j].listing.price_chf) by {
            assert(pcs.drop_last()[j] == pcs[j]);
        }
        lemma_picked_drops_empty(pcs.drop_last(), st, min);
        assert(pcs[pcs.len() - 1] == pcs.last());
    }
}

pub open spec fn ids_distinct(news: Seq<MotorcycleListing>) -> bool {
    forall|a: int, b: int| 0 <= a < b < news.len() ==> (#[trigger] news[a]).listing_id != (#[trigger] news[b]).listing_id
}

pub open spec fn change_ids_distinct(pcs: Seq<PriceChange>) -> bool {
    forall|a: int, b: int| 0 <= a < b < pcs.len() ==> (#[trigger] pcs[a]).listing.listing_id != (#[trigger] pcs[b]).listing.listing_id
}

pub open spec fn ids_apart(news: Seq<MotorcycleListing>, pcs: Seq<PriceChange>) -> bool {
    forall|a: int, b: int| 0 <= a < news.len() && 0 <= b < pcs.len() ==> (#[trigger] news[a]).listing_id != (#[trigger] pcs[b]).listing.listing_id
}

/// A picked new listing with the ad ID of `news[j]` is `news[j]` itself.
proof fn lemma_picked_new_unique(news: Seq<MotorcycleListing>, st: Map<u64, u32>, min: i32, above: bool, j: int, i: int)
    requires
        ids_distinct(news),
        0 <= j < news.len(),
        0 <= i < picked_new(news, st, min, above).len(),
        picked_new(news, st, min, above)[i].listing_id == news[j].listing_id,
    ensures
        picked_new(news, st, min, above)[i] == news[j],
{
    lemma_picked_new_from(news, st, min, above, i);
    let q = choose|q: int| 0 <= q < news.len() && #[trigger] news[q] == picked_new(news, st, min, above)[i];
    if q != j {
        if q < j {
            assert(news[q].listing_id != news[j].listing_id);
        } else {
            assert(news[j].listing_id != news[q].listing_id);
        }
    }
}

proof fn lemma_picked_drops_unique(pcs: Seq<PriceChange>, st: Map<u64, u32>, min: i32, j: int, i: int)
    requires
        change_ids_distinct(pcs),
        0 <= j < pcs.len(),
        0 <= i < picked_drops(pcs, st, min).len(),
        picked_drops(pcs, st, min)[i].listing.listing_id == pcs[j].listing.listing_id,
    ensures
        picked_drops(pcs, st, min)[i] == pcs[j],
{
    lemma_picked_drops_from(pcs, st, min, i);
    let q = choose|q: int| 0 <= q < pcs.len() && #[trigger] pcs[q] == picked_drops(pcs, st, min)[i];
    if q != j {
        if q < j {
            assert(pcs[q].listing.listing_id != pcs[j].listing.listing_id);
        } else {
            assert(pcs[j].listing.listing_id != pcs[q].listing.listing_id);
        }
    }
}

/// The pushed-state once every message of a run's alert plan is recorded.
pub open spec fn state_after_run(news: Seq<MotorcycleListing>, changes: Seq<PriceChange>, st: Map<u64, u32>, min: i32) -> Map<u64, u32> {
    let deals = picked_new(news, st, min, true);
    let st1 = marked(st, marks_of(deals));
    let drops = picked_drops(changes, st1, min);
    let st2 = marked(st1, marks_of(listings_of(drops)));
    let rest = picked_new(news, st2, min, false);
    marked(st2, marks_of(rest))
}

/// Law: once a run's pushes are recorded, the same run again pushes nothing;
/// no listing is pushed twice while its price stays the same.
pub proof fn law_second_run_is_quiet(
    news: Seq<MotorcycleListing>,
    changes: Seq<PriceChange>,
    st: Map<u64, u32>,
    min: i32,
    again: Seq<Outgoing>,
)
    requires
        ids_distinct(news),
        change_ids_distinct(changes),
        ids_apart(news, changes),
        is_alert_plan(again, news, changes, state_after_run(news, changes, st, min), min),
    ensures
        again.len() == 0,
{
    let deals = picked_new(news, st, min, true);
    let st1 = marked(st, marks_of(deals));
    let drops = picked_drops(changes, st1, min);
    let st2 = marked(st1, marks_of(listings_of(drops)));
    let rest = picked_new(news, st2, min, false);
    let st3 = marked(st2, marks_of(rest));
    let dm = marks_of(deals);
    let pm = marks_of(listings_of(drops));
    let rm = marks_of(rest);

    assert forall|j: int| 0 <= j < news.len() implies sent(st3, (#[trigger] news[j]).listing_id, news[j].price_chf) by {
        let l = news[j];
        let k = l.listing_id;
        // drop marks never carry the ID of a new listing
        assert forall|i: int| 0 <= i < pm.len() implies (#[trigger] pm[i]).0 != k by {
            lemma_picked_drops_from(changes, st1, min, i);
            let q = choose|q: int| 0 <= q < changes.len() && #[trigger] changes[q] == drops[i];
            assert(news[j].listing_id != changes[q].listing.listing_id);
        }
        lemma_marked_miss(st1, pm, k, l.price_chf);
        if l.price_score >= min {
            if sent(st, k, l.price_chf) {
                assert forall|i: int| 0 <= i < dm.len() implies (#[trigger] dm[i]).0 != k by {
                    if dm[i].0 == k {
                        lemma_picked_new_unique(news, st, min, true, j, i);
                        lemma_picked_new_from(news, st, min, true, i);
                    }
                }
                lemma_marked_miss(st, dm, k, l.price_chf);
            } else {
                lemma_picked_new_has(news, st, min, true, j);
                let i0 = choose|i: int| 0 <= i < deals.len() && #[trigger] deals[i] == news[j];
                assert(dm[i0] == (k, l.price_chf));
                assert forall|i: int| 0 <= i < dm.len() && (#[trigger] dm[i]).0 == k implies dm[i].1 == l.price_chf by {
                    lemma_picked_new_unique(news, st, min, true, j, i);
                }
                lemma_marked_hit(st, dm, k, l.price_chf);
            }
            assert forall|i: int| 0 <= i < rm.len() implies (#[trigger] rm[i]).0 != k by {
                if rm[i].0 == k {
                    lemma_picked_new_unique(news, st2, min, false, j, i);
                    lemma_picked_new_from(news, st2, min, false, i);
                }
            }
            lemma_marked_miss(st2, rm, k, l.price_chf);
        } else {
            if sent(st2, k, l.price_chf) {
                assert forall|i: int| 0 <= i < rm.len() implies (#[trigger] rm[i]).0 != k by {
                    if rm[i].0 == k {
                        lemma_picked_new_unique(news, st2, min, false, j, i);
                        lemma_picked_new_from(news, st2, min, false, i);
                    }
                }
                lemma_marked_miss(st2, rm, k, l.price_chf);
            } else {
                lemma_picked_new_has(news, st2, min, false, j);
                let i0 = choose|i: int| 0 <= i < rest.len() && #[trigger] rest[i] == news[j];
                assert(rm[i0] == (k, l.price_chf));
                assert forall|i: int| 0 <= i < rm.len() && (#[trigger] rm[i]).0 == k implies rm[i].1 == l.price_chf by {
                    lemma_picked_new_unique(news, st2, min, false, j, i);
                }
                lemma_marked_hit(st2, rm, k, l.price_chf);
            }
        }
    }

    assert forall|j: int| 0 <= j < changes.len() && changes[j].old_price > changes[j].listing.price_chf
        && changes[j].listing.price_score >= min
        implies sent(st3, (#[trigger] changes[j]).listing.listing_id, changes[j].listing.price_chf) by {
        let pc = changes[j];
        let k = pc.listing.listing_id;
        let p = pc.listing.price_chf;
        assert forall|i: int| 0 <= i < rm.len() implies (#[trigger] rm[i]).0 != k by {
            lemma_picked_new_from(news, st2, min, false, i);
            let q = choose|q: int| 0 <= q < news.len() && #[trigger] news[q] == rest[i];
            assert(news[q].listing_id != changes[j].listing.listing_id);
        }
        lemma_marked_miss(st2, rm, k, p);
        if sent(st1, k, p) {
            assert forall|i: int| 0 <= i < pm.len() implies (#[trigger] pm[i]).0 != k by {
                if pm[i].0 == k {
                    lemma_picked_drops_unique(changes, st1, min, j, i);
                    let r = picked_drops(changes, st1, min);
                    assert(r[i] == changes[j]);
                    lemma_drops_unsent(changes, st1, min, i);
                }
            }
            lemma_marked_miss(st1, pm, k, p);
        } else {
            lemma_picked_drops_has(changes, st1, min, j);
            let i0 = choose|i: int| 0 <= i < drops.len() && #[trigger] drops[i] == changes[j];
            assert(pm[i0] == (k, p));
            assert forall|i: int| 0 <= i < pm.len() && (#[trigger] pm[i]).0 == k implies pm[i].1 == p by {
                lemma_picked_drops_unique(changes, st1, min, j, i);
            }
            lemma_marked_hit(st1, pm, k, p);
        }
    }

    lemma_picked_new_empty(news, st3, min, true);
    assert(marks_of(Seq::<MotorcycleListing>::empty()) =~= Seq::<(u64, u32)>::empty());
    assert(marked(st3, marks_of(picked_new(news, st3, min, true))) == st3);
    lemma_picked_drops_empty(changes, st3, min);
    assert(marks_of(listings_of(Seq::<PriceChange>::empty())) =~= Seq::<(u64, u32)>::empty());
    assert(marked(st3, marks_of(listings_of(picked_drops(changes, st3, min)))) == st3);
    lemma_picked_new_empty(news, st3, min, false);
}

/// A picked price drop was not yet pushed at its new price.
proof fn lemma_drops_unsent(pcs: Seq<PriceChange>, st: Map<u64, u32>, min: i32, i: int)
    requires
        0 <= i < picked_drops(pcs, st, min).len(),
    ensures
        !sent(st, picked_drops(pcs, st, min)[i].listing.listing_id, picked_drops(pcs, st, min)[i].listing.price_chf),
    decreases pcs.len(),
{
    let prev = picked_drops(pcs.drop_last(), st, min);
    if i < prev.len() {
        lemma_drops_unsent(pcs.drop_last(), st, min, i);
    }
}

/// The pushed-state after recording, message by message and in order, the
/// marks of each message of `plan` (what `record_sent` does once per sent
/// message).
pub open spec fn recorded(st: Map<u64, u32>, plan: Seq<Outgoing>) -> Map<u64, u32>
    decreases plan.len(),
{
    if plan.len() == 0 {
        st
    } else {
        marked(recorded(st, plan.drop_last()), plan.last().marks@)
    }
}

/// The marks of all messages of `plan`, in order.
pub open spec fn plan_marks(plan: Seq<Outgoing>) -> Seq<(u64, u32)>
    decreases plan.len(),
{
    if plan.len() == 0 {
        Seq::empty()
    } else {
        plan_marks(plan.drop_last()) + plan.last().marks@
    }
}

proof fn lemma_marked_concat(st: Map<u64, u32>, a: Seq<(u64, u32)>, b: Seq<(u64, u32)>)
    ensures
        marked(st, a + b) == marked(marked(st, a), b),
    decreases b.len(),
{
    if b.len() == 0 {
        assert(a + b =~= a);
    } else {
        assert((a + b).drop_last() =~= a + b.drop_last());
        assert((a + b).last() == b.last());
        lemma_marked_concat(st, a, b.drop_last());
    }
}

proof fn lemma_recorded_is_marked(st: Map<u64, u32>, plan: Seq<Outgoing>)
    ensures
        recorded(st, plan) == marked(st, plan_marks(plan)),
    decreases plan.len(),
{
    if plan.len() > 0 {
        lemma_recorded_is_marked(st, plan.drop_last());
        lemma_marked_concat(st, plan_marks(plan.drop_last()), plan.last().marks@);
    }
}

proof fn lemma_deal_marks(plan: Seq<Outgoing>, deals: Seq<MotorcycleListing>, i: int)
    requires
        0 <= i <= deals.len(),
        deals.len() <= plan.len(),
        forall|j: int| 0 <= j < deals.len() ==> (#[trigger] plan[j]).marks@ == seq![(deals[j].listing_id, deals[j].price_chf)],
    ensures
        plan_marks(plan.take(i)) == marks_of(deals.take(i)),
    decreases i,
{
    if i > 0 {
        lemma_deal_marks(plan, deals, i - 1);
        assert(plan.take(i).drop_last() =~= plan.take(i - 1));
        assert(plan.take(i).last() == plan[i - 1]);
        assert(marks_of(deals.take(i)) =~= marks_of(deals.take(i - 1)) + seq![(deals[i - 1].listing_id, deals[i - 1].price_chf)]);
    } else {
        assert(plan_marks(plan.take(0)) =~= marks_of(deals.take(0)));
    }
}

proof fn lemma_drop_marks(plan: Seq<Outgoing>, d: int, drops: Seq<PriceChange>, i: int)
    requires
        0 <= d,
        0 <= i <= drops.len(),
        d + drops.len() <= plan.len(),
        forall|j: int| 0 <= j < drops.len() ==>
            (#[trigger] plan[d + j]).marks@ == seq![(drops[j].listing.listing_id, drops[j].listing.price_chf)],
    ensures
        plan_marks(plan.take(d + i)) == plan_marks(plan.take(d)) + marks_of(listings_of(drops.take(i))),
    decreases i,
{
    if i > 0 {
        lemma_drop_marks(plan, d, drops, i - 1);
        assert(plan.take(d + i).drop_last() =~= plan.take(d + i - 1));
        assert(plan.take(d + i).last() == plan[d + (i - 1)]);
        assert(marks_of(listings_of(drops.take(i))) =~= marks_of(listings_of(drops.take(i - 1)))
            + seq![(drops[i - 1].listing.listing_id, drops[i - 1].listing.price_chf)]);
    } else {
        assert(marks_of(listings_of(drops.take(0))) =~= Seq::<(u64, u32)>::empty());
        assert(plan_marks(plan.take(d)) + Seq::<(u64, u32)>::empty() =~= plan_marks(plan.take(d)));
    }
}

/// Law: recording, message by message and in order, what each message of a
/// run's alert plan pushed leaves exactly the pushed-state `state_after_run`.
pub proof fn law_recorded_plan_is_state_after_run(
    plan: Seq<Outgoing>,
    news: Seq<MotorcycleListing>,
    changes: Seq<PriceChange>,
    st: Map<u64, u32>,
    min: i32,
)
    requires
        is_alert_plan(plan, news, changes, st, min),
    ensures
        recorded(st, plan) == state_after_run(news, changes, st, min),
{
    let deals = picked_new(news, st, min, true);
    let st1 = marked(st, marks_of(deals));
    let drops = picked_drops(changes, st1, min);
    let st2 = marked(st1, marks_of(listings_of(drops)));
    let rest = picked_new(news, st2, min, false);
    let dn = deals.len() as int;
    let pn = drops.len() as int;
    assert forall|j: int| 0 <= j < deals.len() implies (#[trigger] plan[j]).marks@ == seq![(deals[j].listing_id, deals[j].price_chf)] by {
        assert(is_deal_message(plan[j].message, deals[j]));
    }
    assert forall|j: int| 0 <= j < drops.len() implies
        (#[trigger] plan[dn + j]).marks@ == seq![(drops[j].listing.listing_id, drops[j].listing.price_chf)] by {
        assert(is_drop_message(plan[dn + j].message, drops[j]));
    }
    lemma_deal_marks(plan, deals, dn);
    assert(deals.take(dn) =~= deals);
    lemma_drop_marks(plan, dn, drops, pn);
    assert(drops.take(pn) =~= drops);
    let ab = marks_of(deals) + marks_of(listings_of(drops));
    assert(plan_marks(plan.take(dn + pn)) == ab);
    lemma_recorded_is_marked(st, plan);
    lemma_marked_concat(st, marks_of(deals), marks_of(listings_of(drops)));
    if rest.len() > 0 {
        assert(plan.take(dn + pn + 1) =~= plan);
        assert(plan.take(dn + pn + 1).drop_last() =~= plan.take(dn + pn));
        assert(plan_marks(plan) == ab + marks_of(rest));
        lemma_marked_concat(st, ab, marks_of(rest));
    } else {
        assert(plan.take(dn + pn) =~= plan);
        assert(marks_of(rest) =~= Seq::<(u64, u32)>::empty());
    }
}

/// Law: once every message of a run's plan has been sent and its marks
/// recorded in order, the same run again pushes nothing.
pub proof fn law_recorded_run_is_quiet(
    first: Seq<Outgoing>,
    again: Seq<Outgoing>,
    news: Seq<MotorcycleListing>,
    changes: Seq<PriceChange>,
    st: Map<u64, u32>,
    min: i32,
)
    requires
        ids_distinct(news),
        change_ids_distinct(changes),
        ids_apart(news, changes),
        is_alert_plan(first, news, changes, st, min),
        is_alert_plan(again, news, changes, recorded(st, first), min),
    ensures
        again.len() == 0,
{
    law_recorded_plan_is_state_after_run(first, news, changes, st, min);
    law_second_run_is_quiet(news, changes, st, min, again);
}

/// Law: the push for a new deal names its seller on its first line, right
/// after the place: a dealer by the dealer's own name, a private seller by
/// the word "private".
pub proof fn law_deal_push_names_the_seller(m: Message, l: MotorcycleListing)
    requires
        is_deal_message(m, l),
    ensures
        !l.is_private ==> contains_seq(m.body@, " · "@ + l.location@ + " · "@ + l.seller_name@ + "\n"@),
        l.is_private ==> contains_seq(m.body@, " · "@ + l.location@ + " · "@ + "private"@ + "\n"@),
{
    let pre = l.title@ + " · "@ + dec(l.mileage_km as nat) + "km · "@ + dec(l.year as nat) + " · CHF "@
        + dec(l.price_chf as nat);
    let mid = " · "@ + l.location@ + " · "@ + seller_text(l) + "\n"@;
    let post = l.price_label@ + " ("@ + signed_dec(l.price_score as int) + "%, vs "@ + dec(l.score_peers as nat)
        + ")\n"@ + l.url@;
    assert(m.body@ =~= pre + mid + post);
    assert(m.body@.subrange(pre.len() as int, (pre.len() + mid.len()) as int) =~= mid);
    assert(occurs_at(m.body@, mid, pre.len() as int));
}

} // verus!
