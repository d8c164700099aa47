//! The stable B-tree map that holds the records, and the few operations of
//! it that the store uses. Nothing in this file is proved: each contract
//! states what `ic_stable_structures` documents of the call in its body.

use crate::byte_order::lists_in_order;
use crate::key_codec::blob_bytes;
use crate::records::{StoredAchievement, StoredAchievementView};
use ic_stable_structures::storable::Blob;
use ic_stable_structures::{DefaultMemoryImpl, StableBTreeMap};
use vstd::prelude::*;
use vstd::utf8::*;

verus! {

/// Most UTF-8 bytes that the three texts of a record may have together.
/// The map writes the length of an encoded value as a `u32`, and a record
/// is encoded as its texts, its flag and at most fifteen bytes of framing.
pub const MAX_RECORD_TEXT_BYTES: usize = 0xFFFF_FFF0;

/// Whether the map can hold the record.
pub open spec fn fits_in_map(record: StoredAchievementView) -> bool {
    encode_utf8(record.achievement_id).len() + encode_utf8(record.user_id).len() + encode_utf8(
        record.unlocked_at,
    ).len() <= MAX_RECORD_TEXT_BYTES
}

/// A `StableBTreeMap` from key blobs to records, in the default memory.
/// A record is stored as nested tuples of its fields, which the map
/// serialises by itself.
#[verifier::external_body]
pub struct RecordMap {
    map: StableBTreeMap<Blob<64>, (String, String, (String, bool, ())), DefaultMemoryImpl>,
}

/// What the map holds: the record under each key, a key being the bytes
/// of its blob.
pub uninterp spec fn record_map_contents(map: RecordMap) -> Map<Seq<u8>, StoredAchievementView>;

/// The contents of a map without entries.
pub open spec fn no_records() -> Map<Seq<u8>, StoredAchievementView> {
    Map::empty()
}

/// The keys of a sequence of entries, as bytes.
pub open spec fn entry_keys(entries: Seq<(Blob<64>, StoredAchievement)>) -> Seq<Seq<u8>> {
    entries.map_values(|entry: (Blob<64>, StoredAchievement)| blob_bytes(entry.0))
}

/// Calls `StableBTreeMap::new` on a default memory, which lays out a map
/// without entries. Outside a canister each default memory is a vector of
/// its own. In a canister there is one, the stable memory, and a second
/// map made on it would overwrite the first: a canister makes one map.
#[verifier::external_body]
pub(crate) fn record_map_new() -> (records: RecordMap)
    ensures
        record_map_contents(records) == no_records(),
{
    RecordMap { map: StableBTreeMap::new(DefaultMemoryImpl::default()) }
}

/// Calls `StableBTreeMap::contains_key`, which says whether the map has
/// an entry whose key equals `key`. Blobs are equal when their bytes are.
#[verifier::external_body]
pub(crate) fn record_map_contains_key(map: &RecordMap, key: &Blob<64>) -> (present: bool)
    ensures
        present == record_map_contents(*map).dom().contains(blob_bytes(*key)),
{
    map.map.contains_key(key)
}

/// Calls `StableBTreeMap::insert`, which puts the value under the key and
/// replaces the value of an entry whose key equals it. The value that was
/// replaced is dropped. As an allocation does, the call ends the process
/// where the memory cannot grow any further.
#[verifier::external_body]
pub(crate) fn record_map_insert(map: &mut RecordMap, key: Blob<64>, record: StoredAchievement)
    requires
        fits_in_map(record@),
    ensures
        record_map_contents(*final(map)) == record_map_contents(*old(map)).insert(
            blob_bytes(key),
            record@,
        ),
{
    let fields = (record.achievement_id, record.user_id, (record.unlocked_at, record.verified, ()));
    map.map.insert(key, fields);
}

/// Calls `StableBTreeMap::iter` and collects what it yields. The iterator
/// yields every entry once, sorted by key; blobs are ordered as their
/// bytes are, lexicographically.
#[verifier::external_body]
pub(crate) fn record_map_entries(map: &RecordMap) -> (entries: Vec<(Blob<64>, StoredAchievement)>)
    ensures
        lists_in_order(entry_keys(entries@), record_map_contents(*map).dom()),
        forall|i: int|
            0 <= i < entries@.len() ==> record_map_contents(*map)[#[trigger] entry_keys(
                entries@,
            )[i]] == entries@[i].1@,
{
    map.map.iter().map(|entry| {
        let (key, (achievement_id, user_id, (unlocked_at, verified, ()))) = entry.into_pair();
        (key, StoredAchievement { achievement_id, user_id, unlocked_at, verified })
    }).collect()
}

} // verus!
