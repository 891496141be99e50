use vstd::prelude::*;
use crate::ids::{id_set, unique_ids, views};

verus! {

/// Regular expression for a track link; group 1 is the track token.
pub const TRACK_LINK_PATTERN: &'static str = "https://open\\.spotify\\.com/track/([a-zA-Z0-9]{22})";

/// Number of characters in a track token.
pub const TOKEN_LEN: usize = 22;

/// The literal text that precedes a track token.
pub open spec fn link_prefix() -> Seq<char> {
    "https://open.spotify.com/track/"@
}

/// ASCII letters and digits.
pub open spec fn is_token_char(c: char) -> bool {
    ('a' <= c && c <= 'z') || ('A' <= c && c <= 'Z') || ('0' <= c && c <= '9')
}

/// A whole track link starts at position `i` of `t`.
pub open spec fn link_at(t: Seq<char>, i: int) -> bool {
    let p = link_prefix().len() as int;
    &&& 0 <= i
    &&& i + p + TOKEN_LEN <= t.len()
    &&& t.subrange(i, i + p) == link_prefix()
    &&& forall|k: int| i + p <= k < i + p + TOKEN_LEN ==> is_token_char(#[trigger] t[k])
}

/// The tokens of the successive non-overlapping links of `t` found from position `i`
/// on, leftmost first.
pub open spec fn link_tokens_from(t: Seq<char>, i: int) -> Seq<Seq<char>>
    decreases t.len() - i,
{
    let p = link_prefix().len() as int;
    if i < 0 || i + p + TOKEN_LEN > t.len() {
        Seq::empty()
    } else if link_at(t, i) {
        seq![t.subrange(i + p, i + p + TOKEN_LEN)] + link_tokens_from(t, i + p + TOKEN_LEN)
    } else {
        link_tokens_from(t, i + 1)
    }
}

/// The tokens of all track links of `t`, in order of appearance.
pub open spec fn link_tokens(t: Seq<char>) -> Seq<Seq<char>> {
    link_tokens_from(t, 0)
}

/// Relies on regex::Regex::new and regex::Regex::captures_iter: the pattern compiles,
/// and the iterator yields successive non-overlapping leftmost-first matches; each
/// match of this fixed-length pattern is one link, and group 1 is its token.
#[verifier::external_body]
fn capture_tokens(pattern: &str, text: &str) -> (r: Vec<String>)
    requires
        pattern@ == TRACK_LINK_PATTERN@,
    ensures
        views(r@) == link_tokens(text@),
{
    match regex::Regex::new(pattern) {
        Ok(re) => re.captures_iter(text).map(|c| c[1].to_string()).collect(),
        Err(_) => Vec::new(),
    }
}

/// The view of an optional string.
pub open spec fn opt_view(o: Option<String>) -> Option<Seq<char>> {
    match o {
        Some(s) => Some(s@),
        None => None,
    }
}

/// The track references of one message.
pub struct TrackRefs {
    /// Each referenced token once.
    pub ids: Vec<String>,
    /// The token of the last link in the text.
    pub last: Option<String>,
}

/// Collects the track tokens referenced by links in `text`: the set of distinct tokens,
/// and the token of the last link.
pub fn extract_track_refs(text: &str) -> (r: TrackRefs)
    ensures
        views(r.ids@).no_duplicates(),
        id_set(r.ids@) == link_tokens(text@).to_set(),
        opt_view(r.last) == (if link_tokens(text@).len() == 0 {
            None
        } else {
            Some(link_tokens(text@).last())
        }),
{
    let tokens = capture_tokens(TRACK_LINK_PATTERN, text);
    let ids = unique_ids(&tokens);
    let last = if tokens.len() == 0 {
        None
    } else {
        Some(tokens[tokens.len() - 1].clone())
    };
    TrackRefs { ids, last }
}

} // verus!
