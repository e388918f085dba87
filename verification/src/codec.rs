//! Serialization of the entry map, relied on from serde_json.
//!
//! The plaintext inside a container file is a JSON object with one member
//! per entry; it only has to round-trip losslessly.

use crate::model::{entry_views, keys_sorted};
use std::collections::BTreeMap;
use vstd::prelude::*;

verus! {

/// The JSON object that serde_json writes for an entry sequence, one member
/// per pair, in order. Deterministic in the sequence alone.
pub uninterp spec fn json_bytes_of(entries: Seq<(Seq<char>, Seq<char>)>) -> Seq<u8>;

/// What serde_json reads back from a byte sequence: the members of a JSON
/// object of strings, in increasing name order, or nothing when the bytes
/// are not such an object. Deterministic in the bytes alone.
pub uninterp spec fn json_entries_of(bytes: Seq<u8>) -> Option<Seq<(Seq<char>, Seq<char>)>>;

/// Serializes the entry map as a JSON object.
///
/// Relies on serde_json's `to_vec` over an ordered map of strings: string
/// keys take the only serializer error path off the table, and a byte buffer
/// as the sink cannot fail to write, so serialization always succeeds; and
/// `from_slice` recovers from the output exactly the entries that went in.
/// The entries are required to come sorted and the ordered map iterates its
/// members sorted, so the order also survives the round trip (strings order
/// the same way byte by byte as character by character in UTF-8).
#[verifier::external_body]
pub(crate) fn entries_to_json(entries: &Vec<(String, String)>) -> (r: Option<Vec<u8>>)
    requires
        keys_sorted(entry_views(entries@)),
    ensures
        r is Some,
        r is Some ==> r->0@ == json_bytes_of(entry_views(entries@)),
        r is Some ==> json_entries_of(r->0@) == Some(entry_views(entries@)),
{
    let map: BTreeMap<&str, &str> = entries.iter().map(|p| (p.0.as_str(), p.1.as_str())).collect();
    serde_json::to_vec(&map).ok()
}

/// Parses a JSON object of strings back into the entry map.
///
/// Relies on serde_json's `from_slice` into an ordered map of strings: it
/// fails exactly on bytes that are not a JSON object with string values, and
/// iterating the map yields the members with strictly increasing names
/// (strings order the same way byte by byte as character by character in
/// UTF-8).
#[verifier::external_body]
pub(crate) fn entries_from_json(bytes: &[u8]) -> (r: Option<Vec<(String, String)>>)
    ensures
        r is Some <==> json_entries_of(bytes@) is Some,
        r is Some ==> Some(entry_views(r->0@)) == json_entries_of(bytes@),
        r is Some ==> keys_sorted(entry_views(r->0@)),
{
    let map: BTreeMap<String, String> = match serde_json::from_slice(bytes) {
        Ok(m) => m,
        Err(_) => return None,
    };
    Some(map.into_iter().collect())
}

} // verus!
