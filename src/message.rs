use vstd::prelude::*;
use vstd::string::{StrSliceExecFns, StringExecFns};
use crate::ids::{id_set, views};
use crate::links::{extract_track_refs, link_tokens, opt_view, TrackRefs};

verus! {

/// The chat command that asks for the link to the collection.
pub open spec fn playlist_command() -> Seq<char> {
    "!playlist"@
}

/// The text starts with the playlist command.
pub open spec fn is_playlist_command(t: Seq<char>) -> bool {
    t.len() >= playlist_command().len() && t.subrange(0, playlist_command().len() as int)
        == playlist_command()
}

/// What to do with an inbound chat message.
pub enum MessageAction {
    /// Nothing: another channel, or no track link.
    Ignore,
    /// Reply with the link to the collection.
    ShowPlaylist,
    /// Synchronize the referenced tracks into the collection.
    Synchronize(TrackRefs),
}

fn starts_with_command(text: &str) -> (r: bool)
    ensures
        r == is_playlist_command(text@),
{
    let cmd = "!playlist";
    proof {
        reveal_strlit("!playlist");
    }
    let n = cmd.unicode_len();
    if text.unicode_len() < n {
        return false;
    }
    let mut i: usize = 0;
    while i < n
        invariant
            n == cmd@.len(),
            n <= text@.len(),
            i <= n,
            cmd@ == playlist_command(),
            forall|k: int| 0 <= k < i ==> text@[k] == cmd@[k],
        decreases n - i,
    {
        if text.get_char(i) != cmd.get_char(i) {
            assert(text@.subrange(0, n as int)[i as int] != playlist_command()[i as int]);
            return false;
        }
        i += 1;
    }
    assert(text@.subrange(0, n as int) =~= playlist_command());
    true
}

/// Decides what to do with a message: messages from other channels are ignored, the
/// playlist command asks for the collection's link, and a message with track links
/// starts a synchronization of the tracks it references.
pub fn route_message(in_channel: bool, content: &str) -> (r: MessageAction)
    ensures
        !in_channel ==> r is Ignore,
        in_channel && is_playlist_command(content@) ==> r is ShowPlaylist,
        in_channel && !is_playlist_command(content@) && link_tokens(content@).len() == 0 ==> r is Ignore,
        in_channel && !is_playlist_command(content@) && link_tokens(content@).len() > 0 ==> (
        r matches MessageAction::Synchronize(refs) && refs.ids.len() > 0 && views(
            refs.ids@,
        ).no_duplicates() && id_set(refs.ids@) == link_tokens(content@).to_set() && opt_view(
            refs.last,
        ) == Some(link_tokens(content@).last())),
{
    if !in_channel {
        return MessageAction::Ignore;
    }
    if starts_with_command(content) {
        return MessageAction::ShowPlaylist;
    }
    let refs = extract_track_refs(content);
    if refs.ids.len() == 0 {
        proof {
            crate::ids::lemma_id_set_empty(refs.ids@);
            if link_tokens(content@).len() > 0 {
                assert(link_tokens(content@).to_set().contains(link_tokens(content@)[0]));
            }
        }
        MessageAction::Ignore
    } else {
        proof {
            crate::ids::lemma_id_set_empty(refs.ids@);
            if link_tokens(content@).len() == 0 {
                assert(link_tokens(content@).to_set() =~= Set::empty());
            }
        }
        MessageAction::Synchronize(refs)
    }
}

/// Number of characters before the collection's identifier in its URI
/// (`spotify:playlist:<id>`).
pub const PLAYLIST_URI_PREFIX_LEN: usize = 17;

/// The web link of the collection whose URI is `uri`: the identifier after the URI's
/// prefix, appended to the web address of playlists. `None` when `uri` is too short.
pub fn playlist_link(uri: &str) -> (r: Option<String>)
    ensures
        uri@.len() < PLAYLIST_URI_PREFIX_LEN ==> r is None,
        uri@.len() >= PLAYLIST_URI_PREFIX_LEN ==> (r matches Some(s) && s@
            == "https://open.spotify.com/playlist/"@ + uri@.subrange(
            PLAYLIST_URI_PREFIX_LEN as int,
            uri@.len() as int,
        )),
{
    let n = uri.unicode_len();
    if n < PLAYLIST_URI_PREFIX_LEN {
        return None;
    }
    let id = uri.substring_char(PLAYLIST_URI_PREFIX_LEN, n);
    let mut link = "https://open.spotify.com/playlist/".to_owned();
    link.append(id);
    Some(link)
}

} // verus!
