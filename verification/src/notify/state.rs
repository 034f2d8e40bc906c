//! Which listings have already been pushed, so that nothing is pushed twice
//! while it is unchanged: a map from listing ID to the price at notification
//! time. A listing is pushed again when it is missing from the map or its
//! price has changed since.
use vstd::prelude::*;
use std::collections::HashMap;

verus! {

broadcast use vstd::std_specs::hash::group_hash_axioms;

pub type NotifyState = HashMap<u64, u32>;

/// Whether the listing was already pushed at this price.
pub open spec fn sent(state: Map<u64, u32>, listing_id: u64, price_chf: u32) -> bool {
    state.contains_key(listing_id) && state[listing_id] == price_chf
}

/// Returns true if this listing+price combo was already notified.
pub fn already_sent(state: &NotifyState, listing_id: u64, price_chf: u32) -> (r: bool)
    ensures
        r == sent(state@, listing_id, price_chf),
{
    match state.get(&listing_id) {
        Some(p) => *p == price_chf,
        None => false,
    }
}

/// `state` with each `(listing_id, price)` of `marks` recorded, in order.
pub open spec fn marked(state: Map<u64, u32>, marks: Seq<(u64, u32)>) -> Map<u64, u32>
    decreases marks.len(),
{
    if marks.len() == 0 {
        state
    } else {
        marked(state, marks.drop_last()).insert(marks.last().0, marks.last().1)
    }
}

/// Records that the listings of `marks` were pushed at their prices.
pub fn record_sent(state: &mut NotifyState, marks: &Vec<(u64, u32)>)
    ensures
        final(state)@ == marked(old(state)@, marks@),
{
    let mut i: usize = 0;
    while i < marks.len()
        invariant
            i <= marks.len(),
            state@ == marked(old(state)@, marks@.take(i as int)),
        decreases marks.len() - i,
    {
        assert(marks@.take(i + 1).drop_last() =~= marks@.take(i as int));
        let (k, p) = marks[i];
        state.insert(k, p);
        i = i + 1;
    }
    assert(marks@.take(marks.len() as int) =~= marks@);
}

/// What `serde_json::from_str::<HashMap<u64, u32>>` reads from a text: the
/// map that the JSON object describes, or `None` when the text is not such an
/// object.
pub uninterp spec fn state_json(raw: Seq<char>) -> Option<Map<u64, u32>>;

/// `serde_json::from_str::<HashMap<u64, u32>>`; its result is named by `state_json`.
#[verifier::external_body]
fn decode_state_json(raw: &str) -> (r: Option<NotifyState>)
    ensures
        match r {
            Some(m) => state_json(raw@) == Some(m@),
            None => state_json(raw@) is None,
        },
{
    serde_json::from_str(raw).ok()
}

/// The notification state that a stored text describes; empty when the text
/// is not such JSON.
pub open spec fn parsed_state(raw: Seq<char>) -> Map<u64, u32> {
    match state_json(raw) {
        Some(m) => m,
        None => Map::empty(),
    }
}

pub fn parse_state(raw: &str) -> (r: NotifyState)
    ensures
        r@ == parsed_state(raw@),
{
    match decode_state_json(raw) {
        Some(m) => m,
        None => HashMap::new(),
    }
}

/// `serde_json::to_string_pretty` of the state. Trusted: it succeeds (the
/// source writes each `u64` key as a quoted number and each `u32` value as a
/// number into an in-memory buffer, where no step can fail), and the text it
/// gives reads back, through `serde_json::from_str`, as the same map. The
/// order of the entries follows the map's iteration order and is not stated.
#[verifier::external_body]
fn encode_state_json(state: &NotifyState) -> (r: Option<String>)
    ensures
        r is Some,
        r matches Some(s) ==> state_json(s@) == Some(state@),
{
    serde_json::to_string_pretty(state).ok()
}

/// The text that the state is saved as: pretty JSON of listing ID (as a
/// string key) to price, which `parse_state` reads back as the same state.
pub fn render_state(state: &NotifyState) -> (r: Option<String>)
    ensures
        r is Some,
        r matches Some(s) ==> parsed_state(s@) == state@,
{
    encode_state_json(state)
}

/// Law: a state that `render_state` wrote reads back through `parse_state`
/// as the same state.
pub proof fn law_state_round_trip(state: Map<u64, u32>, text: Seq<char>)
    requires
        state_json(text) == Some(state),
    ensures
        parsed_state(text) == state,
{
}

} // verus!
