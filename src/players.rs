//! How a discovered player is reported.
use vstd::prelude::*;

use crate::text::{push_str, string_of};

verus! {

/// The title part of a player's report: the track's title, a note that none is
/// playing, or a note that its metadata could not be read (`None`).
pub open spec fn title_part(metadata: Option<Option<String>>) -> Seq<char> {
    match metadata {
        Some(Some(t)) => t@,
        Some(None) => "No track currently playing."@,
        None => "Unable to ascertain current track."@,
    }
}

/// The line that reports a discovered player:
/// `Found player: <identity> (bus name <unique name>) (<title part>)`.
pub fn describe(identity: &str, unique_name: &str, metadata: Option<Option<String>>) -> (r: String)
    ensures
        r@ == "Found player: "@ + identity@ + " (bus name "@ + unique_name@ + ") ("@ + title_part(
            metadata,
        ) + ")"@,
{
    let ghost m = metadata;
    let mut v: Vec<char> = Vec::new();
    push_str(&mut v, "Found player: ");
    push_str(&mut v, identity);
    push_str(&mut v, " (bus name ");
    push_str(&mut v, unique_name);
    push_str(&mut v, ") (");
    match metadata {
        Some(Some(t)) => push_str(&mut v, t.as_str()),
        Some(None) => push_str(&mut v, "No track currently playing."),
        None => push_str(&mut v, "Unable to ascertain current track."),
    }
    push_str(&mut v, ")");
    assert(v@ =~= "Found player: "@ + identity@ + " (bus name "@ + unique_name@ + ") ("@
        + title_part(m) + ")"@);
    string_of(v.as_slice())
}

} // verus!
