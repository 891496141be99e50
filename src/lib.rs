//! Keeps a remote playlist free of duplicates while tracks linked in a chat channel are
//! added to it: track links are extracted from messages, the playlist is scanned page by
//! page for tracks already in it, and only the new ones are added.

pub mod ids;
pub mod laws;
pub mod links;
pub mod message;
pub mod outcome;
pub mod sync;

pub use links::{extract_track_refs, TrackRefs};
pub use message::{playlist_link, route_message, MessageAction};
pub use outcome::{FailReason, SyncOutcome};
pub use sync::{Action, Phase, Synchronizer, PAGE_SIZE};
