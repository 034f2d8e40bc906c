//! ntfy.sh messages: one HTTP POST per message.
use vstd::prelude::*;

verus! {

/// Where to post: the topic URL, and a bearer token for self-hosted servers.
#[derive(Clone, Debug)]
pub struct NtfyConfig {
    pub url: String,
    pub token: Option<String>,
}

/// One push message.
#[derive(Clone, Debug)]
pub struct Message {
    pub title: String,
    pub body: String,
    /// 1 = min, 2 = low, 3 = default, 4 = high, 5 = max.
    pub priority: u8,
    pub tags: Vec<&'static str>,
    pub click_url: Option<String>,
}

/// The views of a list of tags.
pub open spec fn tag_views(tags: Seq<&'static str>) -> Seq<Seq<char>> {
    tags.map_values(|t: &'static str| t@)
}

} // verus!
