//! The text report of a merge: what is new, what changed price, what sold,
//! what was relisted, and how many listings are tracked.
use vstd::prelude::*;
use crate::backend::infrastructure::scrapers::motoscout::views;
use crate::models::motorcycle::MotorcycleListing;
use crate::notify::seller_text;
use crate::store::{PriceChange, StoreSummary};
use crate::text::{contains_seq, dec, fmt_signed, fmt_u64, lower, occurs_at, signed_dec, to_lowercase};

verus! {

/// Decimal representation of `n` with a minus sign when negative, as `{}` prints it.
pub open spec fn int_dec(n: int) -> Seq<char> {
    if n >= 0 { dec(n as nat) } else { seq!['-'] + dec((-n) as nat) }
}

/// The two report lines of a new listing: its facts and its URL. The line
/// carries no yearly-mileage figure: the listing holds no per-year mileage
/// to show.
pub open spec fn new_entry(l: MotorcycleListing) -> Seq<Seq<char>> {
    seq![
        "    + "@ + lower(l.title@) + " · "@ + dec(l.mileage_km as nat) + "km · "@ + dec(l.year as nat)
            + " · chf "@ + dec(l.price_chf as nat) + " · "@ + l.location@ + " · "@ + seller_text(l) + " · "@
            + l.price_label@ + " ("@ + signed_dec(l.price_score as int) + "%, vs "@ + dec(l.score_peers as nat) + ")"@,
        "      "@ + l.url@,
    ]
}

/// The report line of a price change: an arrow down for a drop, up otherwise.
pub open spec fn change_entry(pc: PriceChange) -> Seq<Seq<char>> {
    let l = pc.listing;
    let diff = l.price_chf as int - pc.old_price as int;
    seq![
        "    "@ + (if diff < 0 { "↓"@ } else { "↑"@ }) + " "@ + lower(l.title@) + " · chf "@ + dec(pc.old_price as nat)
            + " → "@ + dec(l.price_chf as nat) + " ("@ + signed_dec(diff) + ") · "@ + l.location@ + " · "@ + l.url@,
    ]
}

/// The report line of a sold listing, with its days on the market.
pub open spec fn sold_entry(l: MotorcycleListing) -> Seq<Seq<char>> {
    seq![
        "    - "@ + lower(l.title@) + " · "@ + dec(l.mileage_km as nat) + "km · "@ + dec(l.year as nat) + " · chf "@
            + dec(l.price_chf as nat) + " · "@ + l.location@ + " · "@ + int_dec(l.last_seen as int - l.first_seen as int)
            + " days on market"@,
    ]
}

/// The two report lines of a relist: its facts with the ad it replaced (0
/// when unknown), and its URL.
pub open spec fn relisted_entry(l: MotorcycleListing) -> Seq<Seq<char>> {
    let was = match l.previous_listing_id { Some(p) => p, None => 0 };
    seq![
        "    ~ "@ + lower(l.title@) + " · "@ + dec(l.mileage_km as nat) + "km · "@ + dec(l.year as nat) + " · chf "@
            + dec(l.price_chf as nat) + " · "@ + l.location@ + " · "@ + seller_text(l) + " · "@ + l.price_label@ + " ("@
            + signed_dec(l.price_score as int) + "%, vs "@ + dec(l.score_peers as nat) + ")"@ + " · was id "@ + dec(was as nat),
        "      "@ + l.url@,
    ]
}

/// Which kind of entry a block holds.
pub open spec fn entry(kind: nat, l: MotorcycleListing) -> Seq<Seq<char>> {
    if kind == 0 { new_entry(l) } else if kind == 1 { sold_entry(l) } else { relisted_entry(l) }
}

/// The entries of `ls`, in order.
pub open spec fn block(kind: nat, ls: Seq<MotorcycleListing>) -> Seq<Seq<char>>
    decreases ls.len(),
{
    if ls.len() == 0 { Seq::empty() } else { block(kind, ls.drop_last()) + entry(kind, ls.last()) }
}

pub open spec fn change_block(pcs: Seq<PriceChange>) -> Seq<Seq<char>>
    decreases pcs.len(),
{
    if pcs.len() == 0 { Seq::empty() } else { change_block(pcs.drop_last()) + change_entry(pcs.last()) }
}

/// The whole report of a merge summary; `store` names where the table is kept.
pub open spec fn report_text(s: StoreSummary, store: Seq<char>) -> Seq<Seq<char>> {
    seq![""@, "  new           "@ + dec(s.new.len() as nat)]
        + block(0, s.new@)
        + seq!["  price changes "@ + dec(s.price_changes.len() as nat)]
        + change_block(s.price_changes@)
        + seq!["  sold          "@ + dec(s.sold.len() as nat)]
        + block(1, s.sold@)
        + seq!["  relisted      "@ + dec(s.relisted.len() as nat)]
        + block(2, s.relisted@)
        + seq![
            "  updated       "@ + dec(s.updated as nat),
            ""@,
            "  tracking  "@ + dec(s.total_tracked as nat) + " listings — "@ + store,
        ]
}

fn shown_seller(l: &MotorcycleListing) -> (r: String)
    ensures
        r@ == seller_text(*l),
{
    if l.is_private { "private".to_owned() } else { l.seller_name.clone() }
}

fn int_text(n: i64) -> (r: String)
    ensures
        r@ == int_dec(n as int),
{
    proof {
        reveal_strlit("-");
    }
    if n >= 0 {
        fmt_u64(n as u64)
    } else {
        let m: i128 = -(n as i128);
        "-".to_owned().concat(fmt_u64(m as u64).as_str())
    }
}

fn count_line(label: &str, n: usize) -> (r: String)
    ensures
        r@ == label@ + dec(n as nat),
{
    label.to_owned().concat(fmt_u64(n as u64).as_str())
}

fn push_entry(out: &mut Vec<String>, kind: u8, l: &MotorcycleListing)
    requires
        kind <= 2,
    ensures
        views(final(out)@) == views(old(out)@) + entry(kind as nat, *l),
{
    let ghost before = views(out@);
    let title = to_lowercase(l.title.as_str());
    let head = if kind == 0 { "    + " } else if kind == 1 { "    - " } else { "    ~ " };
    let facts = head.to_owned().concat(title.as_str()).concat(" · ").concat(fmt_u64(l.mileage_km as u64).as_str())
        .concat("km · ").concat(fmt_u64(l.year as u64).as_str()).concat(" · chf ")
        .concat(fmt_u64(l.price_chf as u64).as_str()).concat(" · ").concat(l.location.as_str());
    if kind == 1 {
        let days = int_text(l.last_seen as i64 - l.first_seen as i64);
        out.push(facts.concat(" · ").concat(days.as_str()).concat(" days on market"));
        assert(views(out@) =~= before + entry(kind as nat, *l));
    } else {
        let scored = facts.concat(" · ").concat(shown_seller(l).as_str()).concat(" · ").concat(l.price_label.as_str())
            .concat(" (").concat(fmt_signed(l.price_score as i64).as_str()).concat("%, vs ")
            .concat(fmt_u64(l.score_peers as u64).as_str()).concat(")");
        let line = if kind == 0 {
            scored
        } else {
            let was = match l.previous_listing_id { Some(p) => p, None => 0 };
            scored.concat(" · was id ").concat(fmt_u64(was).as_str())
        };
        out.push(line);
        out.push("      ".to_owned().concat(l.url.as_str()));
        assert(views(out@) =~= before + entry(kind as nat, *l));
    }
}

fn push_block(out: &mut Vec<String>, kind: u8, ls: &Vec<MotorcycleListing>)
    requires
        kind <= 2,
    ensures
        views(final(out)@) == views(old(out)@) + block(kind as nat, ls@),
{
    let ghost start = views(out@);
    let mut i: usize = 0;
    while i < ls.len()
        invariant
            kind <= 2,
            i <= ls.len(),
            views(out@) == start + block(kind as nat, ls@.take(i as int)),
        decreases ls.len() - i,
    {
        assert(ls@.take(i + 1).drop_last() =~= ls@.take(i as int));
        push_entry(out, kind, &ls[i]);
        assert(start + block(kind as nat, ls@.take(i as int)) + entry(kind as nat, ls@[i as int])
            =~= start + block(kind as nat, ls@.take(i + 1)));
        i = i + 1;
    }
    assert(ls@.take(ls.len() as int) =~= ls@);
}

fn push_changes(out: &mut Vec<String>, pcs: &Vec<PriceChange>)
    ensures
        views(final(out)@) == views(old(out)@) + change_block(pcs@),
{
    let ghost start = views(out@);
    let mut i: usize = 0;
    while i < pcs.len()
        invariant
            i <= pcs.len(),
            views(out@) == start + change_block(pcs@.take(i as int)),
        decreases pcs.len() - i,
    {
        assert(pcs@.take(i + 1).drop_last() =~= pcs@.take(i as int));
        let pc = &pcs[i];
        let l = &pc.listing;
        let diff: i64 = l.price_chf as i64 - pc.old_price as i64;
        let arrow = if diff < 0 { "↓" } else { "↑" };
        let line = "    ".to_owned().concat(arrow).concat(" ").concat(to_lowercase(l.title.as_str()).as_str())
            .concat(" · chf ").concat(fmt_u64(pc.old_price as u64).as_str()).concat(" → ")
            .concat(fmt_u64(l.price_chf as u64).as_str()).concat(" (").concat(fmt_signed(diff).as_str())
            .concat(") · ").concat(l.location.as_str()).concat(" · ").concat(l.url.as_str());
        let ghost before = views(out@);
        out.push(line);
        assert(views(out@) =~= before + change_entry(pcs@[i as int]));
        assert(start + change_block(pcs@.take(i as int)) + change_entry(pcs@[i as int])
            =~= start + change_block(pcs@.take(i + 1)));
        i = i + 1;
    }
    assert(pcs@.take(pcs.len() as int) =~= pcs@);
}

impl StoreSummary {
    /// The report lines, in order; `store_name` names where the table is kept.
    pub fn report_lines(&self, store_name: &str) -> (r: Vec<String>)
        ensures
            views(r@) == report_text(*self, store_name@),
    {
        proof {
            reveal_strlit("");
        }
        let mut out: Vec<String> = Vec::new();
        out.push(String::new());
        out.push(count_line("  new           ", self.new.len()));
        let ghost a = views(out@);
        assert(a =~~= seq![""@, "  new           "@ + dec(self.new.len() as nat)]);
        push_block(&mut out, 0, &self.new);
        out.push(count_line("  price changes ", self.price_changes.len()));
        let ghost b = views(out@);
        assert(b =~= a + block(0, self.new@) + seq!["  price changes "@ + dec(self.price_changes.len() as nat)]);
        push_changes(&mut out, &self.price_changes);
        out.push(count_line("  sold          ", self.sold.len()));
        let ghost c = views(out@);
        assert(c =~= b + change_block(self.price_changes@) + seq!["  sold          "@ + dec(self.sold.len() as nat)]);
        push_block(&mut out, 1, &self.sold);
        out.push(count_line("  relisted      ", self.relisted.len()));
        let ghost d = views(out@);
        assert(d =~= c + block(1, self.sold@) + seq!["  relisted      "@ + dec(self.relisted.len() as nat)]);
        push_block(&mut out, 2, &self.relisted);
        let ghost e = views(out@);
        out.push(count_line("  updated       ", self.updated));
        out.push(String::new());
        out.push("  tracking  ".to_owned().concat(fmt_u64(self.total_tracked as u64).as_str()).concat(" listings — ").concat(store_name));
        assert(views(out@) =~~= e + seq![
            "  updated       "@ + dec(self.updated as nat),
            ""@,
            "  tracking  "@ + dec(self.total_tracked as nat) + " listings — "@ + store_name@,
        ]);
        assert(views(out@) =~= report_text(*self, store_name@));
        out
    }
}

/// Law: the report line of a new listing names its seller right after the
/// place: a dealer by the dealer's own name, a private seller by the word
/// "private".
pub proof fn law_new_entry_names_the_seller(l: MotorcycleListing)
    ensures
        !l.is_private ==> contains_seq(new_entry(l)[0], " · "@ + l.location@ + " · "@ + l.seller_name@ + " · "@),
        l.is_private ==> contains_seq(new_entry(l)[0], " · "@ + l.location@ + " · "@ + "private"@ + " · "@),
{
    let line = new_entry(l)[0];
    let pre = "    + "@ + lower(l.title@) + " · "@ + dec(l.mileage_km as nat) + "km · "@ + dec(l.year as nat)
        + " · chf "@ + dec(l.price_chf as nat);
    let mid = " · "@ + l.location@ + " · "@ + seller_text(l) + " · "@;
    let post = l.price_label@ + " ("@ + signed_dec(l.price_score as int) + "%, vs "@ + dec(l.score_peers as nat) + ")"@;
    assert(line =~= pre + mid + post);
    assert(line.subrange(pre.len() as int, (pre.len() + mid.len()) as int) =~= mid);
    assert(occurs_at(line, mid, pre.len() as int));
}

} // verus!
