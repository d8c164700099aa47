//! The achievement store: validation with idempotent recording, and the
//! listing of one user's records by key prefix.

use crate::byte_order::{lemma_ordered_keys_are, lemma_ordered_keys_list, ordered_keys};
use crate::key_codec::{
    blob_as_slice, blob_bytes, composite_key, encode_key, encode_prefix, lemma_key_has_own_prefix,
    lemma_prefix_isolation, starts_with, truncated_id, user_prefix,
};
use crate::records::{
    AchievementData, AchievementDataView, StoredAchievement, StoredAchievementView,
};
use crate::stable_map::{
    entry_keys, fits_in_map, no_records, record_map_contains_key, record_map_contents,
    record_map_entries, record_map_insert, record_map_new, RecordMap, MAX_RECORD_TEXT_BYTES,
};
use vstd::prelude::*;
use vstd::string::*;
use vstd::utf8::*;

verus! {

/// The key under which a submission is recorded.
pub open spec fn key_of(data: AchievementDataView) -> Seq<u8> {
    composite_key(data.user_id, data.achievement_id)
}

/// The record that an accepted submission leaves in the store.
pub open spec fn record_of(data: AchievementDataView) -> StoredAchievementView {
    StoredAchievementView {
        achievement_id: data.achievement_id,
        user_id: data.user_id,
        unlocked_at: data.timestamp,
        verified: true,
    }
}

/// Whether a store with these contents accepts the submission: the visits
/// reach the threshold and nothing is recorded under the submission's key.
pub open spec fn accepts(
    contents: Map<Seq<u8>, StoredAchievementView>,
    data: AchievementDataView,
) -> bool {
    data.current_visits >= data.required_visits && !contents.dom().contains(key_of(data))
}

/// The contents after the submission was handled: with its record where it
/// was accepted, unchanged where it was not.
pub open spec fn recorded(
    contents: Map<Seq<u8>, StoredAchievementView>,
    data: AchievementDataView,
) -> Map<Seq<u8>, StoredAchievementView> {
    if accepts(contents, data) {
        contents.insert(key_of(data), record_of(data))
    } else {
        contents
    }
}

/// What every store keeps true of its contents: the records are finitely
/// many, and each is verified and sits under the key of its own identifiers.
pub open spec fn well_keyed(contents: Map<Seq<u8>, StoredAchievementView>) -> bool {
    &&& contents.dom().finite()
    &&& forall|key: Seq<u8>| #[trigger]
        contents.dom().contains(key) ==> contents[key].verified && key == composite_key(
            contents[key].user_id,
            contents[key].achievement_id,
        )
}

/// The records whose keys begin with `prefix`, in key order.
pub open spec fn records_with_prefix(
    contents: Map<Seq<u8>, StoredAchievementView>,
    prefix: Seq<u8>,
) -> Seq<StoredAchievementView> {
    ordered_keys(contents.dom()).filter(|key: Seq<u8>| prefix.is_prefix_of(key)).map_values(
        |key: Seq<u8>| contents[key],
    )
}

/// The submission-shaped entry that stands for a record in a user's
/// history. A record keeps neither the achievement's name, nor the visit
/// counts, nor the wallet address, so the entry has fixed values there.
pub open spec fn history_entry(record: StoredAchievementView) -> AchievementDataView {
    AchievementDataView {
        user_id: record.user_id,
        achievement_id: record.achievement_id,
        achievement_name: "Achievement"@,
        required_visits: 0,
        current_visits: 0,
        timestamp: record.unlocked_at,
        wallet_address: ""@,
    }
}

/// The values of a sequence of records.
pub open spec fn record_views(records: Seq<StoredAchievement>) -> Seq<StoredAchievementView> {
    records.map_values(|record: StoredAchievement| record@)
}

/// The values of a sequence of submissions.
pub open spec fn data_views(entries: Seq<AchievementData>) -> Seq<AchievementDataView> {
    entries.map_values(|entry: AchievementData| entry@)
}

/// Whether the record of the submission is small enough for the stable map.
pub fn record_fits(data: &AchievementData) -> (fits: bool)
    ensures
        fits == fits_in_map(record_of(data@)),
{
    let id_len = data.achievement_id.as_str().as_bytes().len();
    let user_len = data.user_id.as_str().as_bytes().len();
    let time_len = data.timestamp.as_str().as_bytes().len();
    if id_len > MAX_RECORD_TEXT_BYTES {
        return false;
    }
    let after_id = MAX_RECORD_TEXT_BYTES - id_len;
    if user_len > after_id {
        return false;
    }
    time_len <= after_id - user_len
}

/// The persistent map from composite keys to unlock records. It is made
/// once, when the process starts, and handed to whatever serves the calls.
pub struct AchievementStore {
    records: RecordMap,
}

impl View for AchievementStore {
    type V = Map<Seq<u8>, StoredAchievementView>;

    closed spec fn view(&self) -> Map<Seq<u8>, StoredAchievementView> {
        record_map_contents(self.records)
    }
}

impl AchievementStore {
    /// A store without records, on a default memory. A canister has one
    /// such memory and so makes one store, when it starts.
    pub fn new() -> (store: AchievementStore)
        ensures
            store@ == no_records(),
            well_keyed(store@),
    {
        AchievementStore { records: record_map_new() }
    }

    /// Validates a submission and records it. The submission is accepted,
    /// and its record inserted, where the visits reach the required number
    /// and the pair has no record yet; otherwise the store stays as it is.
    /// The record has to fit the stable map, which `record_fits` tests.
    pub fn validate_achievement(&mut self, achievement_data: AchievementData) -> (accepted: bool)
        requires
            fits_in_map(record_of(achievement_data@)),
        ensures
            accepted == accepts(old(self)@, achievement_data@),
            final(self)@ == recorded(old(self)@, achievement_data@),
            achievement_data.current_visits < achievement_data.required_visits ==> !accepted
                && final(self)@ == old(self)@,
            well_keyed(old(self)@) ==> well_keyed(final(self)@),
    {
        if achievement_data.current_visits < achievement_data.required_visits {
            return false;
        }
        let key = encode_key(
            achievement_data.user_id.as_str(),
            achievement_data.achievement_id.as_str(),
        );
        if record_map_contains_key(&self.records, &key) {
            return false;
        }
        let stored_achievement = StoredAchievement {
            achievement_id: achievement_data.achievement_id,
            user_id: achievement_data.user_id,
            unlocked_at: achievement_data.timestamp,
            verified: true,
        };
        record_map_insert(&mut self.records, key, stored_achievement);
        true
    }

    /// The records of `user_id`: every stored record whose key begins with
    /// the user's prefix, in key order.
    pub fn get_user_achievements(&self, user_id: String) -> (achievements: Vec<StoredAchievement>)
        ensures
            record_views(achievements@) == records_with_prefix(self@, user_prefix(user_id@)),
    {
        let prefix = encode_prefix(user_id.as_str());
        let entries = record_map_entries(&self.records);
        let ghost keys = entry_keys(entries@);
        let ghost matches = |key: Seq<u8>| user_prefix(user_id@).is_prefix_of(key);
        let ghost lookup = |key: Seq<u8>| self@[key];
        let mut achievements: Vec<StoredAchievement> = Vec::new();
        let mut i: usize = 0;
        proof {
            lemma_ordered_keys_are(keys, self@.dom());
            reveal(Seq::filter);
            assert(keys.take(0).filter(matches) =~= Seq::<Seq<u8>>::empty());
            assert(record_views(achievements@) =~= keys.take(0).filter(matches).map_values(lookup));
        }
        while i < entries.len()
            invariant
                i <= entries@.len(),
                keys == entry_keys(entries@),
                matches == |key: Seq<u8>| user_prefix(user_id@).is_prefix_of(key),
                lookup == |key: Seq<u8>| self@[key],
                blob_bytes(prefix) == user_prefix(user_id@),
                forall|j: int|
                    0 <= j < entries@.len() ==> self@[#[trigger] keys[j]] == entries@[j].1@,
                record_views(achievements@) == keys.take(i as int).filter(matches).map_values(
                    lookup,
                ),
            decreases entries@.len() - i,
        {
            let entry = &entries[i];
            let selected = starts_with(blob_as_slice(&entry.0), blob_as_slice(&prefix));
            proof {
                let until = keys.take(i as int);
                let through = keys.take(i + 1);
                assert(through.drop_last() =~= until);
                assert(through.last() == keys[i as int]);
                assert(keys[i as int] == blob_bytes(entry.0));
                assert(selected == matches(keys[i as int]));
                reveal(Seq::filter);
                if selected {
                    assert(through.filter(matches) == until.filter(matches).push(keys[i as int]));
                    assert(through.filter(matches).map_values(lookup) =~= until.filter(
                        matches,
                    ).map_values(lookup).push(entry.1@));
                } else {
                    assert(through.filter(matches) == until.filter(matches));
                }
            }
            if selected {
                let ghost before = record_views(achievements@);
                achievements.push(copy_record(&entry.1));
                assert(record_views(achievements@) =~= before.push(entry.1@));
            }
            i += 1;
        }
        assert(keys.take(i as int) =~= keys);
        achievements
    }

    /// The history of `user_id`: the user's records, each reshaped into a
    /// submission by `history_entry`.
    pub fn get_achievement_history(&self, user_id: String) -> (history: Vec<AchievementData>)
        ensures
            data_views(history@) == records_with_prefix(self@, user_prefix(user_id@)).map_values(
                |record: StoredAchievementView| history_entry(record),
            ),
    {
        let achievements = self.get_user_achievements(user_id);
        let ghost reshape = |record: StoredAchievementView| history_entry(record);
        let mut history: Vec<AchievementData> = Vec::new();
        let mut i: usize = 0;
        assert(data_views(history@) =~= record_views(achievements@).take(0).map_values(reshape));
        while i < achievements.len()
            invariant
                i <= achievements@.len(),
                reshape == |record: StoredAchievementView| history_entry(record),
                data_views(history@) == record_views(achievements@).take(i as int).map_values(
                    reshape,
                ),
            decreases achievements@.len() - i,
        {
            let achievement = &achievements[i];
            let ghost before = data_views(history@);
            history.push(
                AchievementData {
                    user_id: achievement.user_id.clone(),
                    achievement_id: achievement.achievement_id.clone(),
                    achievement_name: String::from_str("Achievement"),
                    required_visits: 0,
                    current_visits: 0,
                    timestamp: achievement.unlocked_at.clone(),
                    wallet_address: String::from_str(""),
                },
            );
            proof {
                assert(data_views(history@) =~= before.push(history_entry(achievement@)));
                assert(record_views(achievements@).take(i + 1).map_values(reshape)
                    =~= record_views(achievements@).take(i as int).map_values(reshape).push(
                    history_entry(achievement@),
                ));
            }
            i += 1;
        }
        assert(record_views(achievements@).take(i as int) =~= record_views(achievements@));
        history
    }
}

/// Idempotency. Once a submission has been handled, handling it again is
/// never accepted and changes nothing, whatever the first outcome was.
pub proof fn lemma_resubmission_rejected(
    contents: Map<Seq<u8>, StoredAchievementView>,
    data: AchievementDataView,
)
    ensures
        !accepts(recorded(contents, data), data),
        recorded(recorded(contents, data), data) == recorded(contents, data),
{
}

/// A submission that reaches its threshold, for a pair without a record,
/// is accepted the first time and rejected the second time.
pub proof fn lemma_accepted_once(
    contents: Map<Seq<u8>, StoredAchievementView>,
    data: AchievementDataView,
)
    requires
        data.current_visits >= data.required_visits,
        !contents.dom().contains(key_of(data)),
    ensures
        accepts(contents, data),
        !accepts(recorded(contents, data), data),
        recorded(contents, data)[key_of(data)] == record_of(data),
{
}

/// Handling a submission keeps the contents well keyed, and takes no
/// record away nor changes one.
pub proof fn lemma_recorded_well_keyed(
    contents: Map<Seq<u8>, StoredAchievementView>,
    data: AchievementDataView,
)
    requires
        well_keyed(contents),
    ensures
        well_keyed(recorded(contents, data)),
        forall|key: Seq<u8>| #[trigger]
            contents.dom().contains(key) ==> recorded(contents, data).dom().contains(key)
                && recorded(contents, data)[key] == contents[key],
{
}

/// Whether `record` is stored under some key that begins with `prefix`.
pub open spec fn stored_under(
    contents: Map<Seq<u8>, StoredAchievementView>,
    prefix: Seq<u8>,
    record: StoredAchievementView,
) -> bool {
    exists|key: Seq<u8>| #[trigger]
        contents.dom().contains(key) && prefix.is_prefix_of(key) && contents[key] == record
}

/// What a listing holds: each of its records is stored under a key that
/// begins with the prefix, and every record stored under such a key is in it.
pub proof fn lemma_listing_members(contents: Map<Seq<u8>, StoredAchievementView>, prefix: Seq<u8>)
    requires
        contents.dom().finite(),
    ensures
        forall|i: int|
            0 <= i < records_with_prefix(contents, prefix).len() ==> stored_under(
                contents,
                prefix,
                #[trigger] records_with_prefix(contents, prefix)[i],
            ),
        forall|key: Seq<u8>|
            contents.dom().contains(key) && prefix.is_prefix_of(key) ==> records_with_prefix(
                contents,
                prefix,
            ).contains(#[trigger] contents[key]),
{
    let keys = ordered_keys(contents.dom());
    let matches = |key: Seq<u8>| prefix.is_prefix_of(key);
    let selected = keys.filter(matches);
    let listing = records_with_prefix(contents, prefix);
    lemma_ordered_keys_list(contents.dom());
    assert forall|i: int| 0 <= i < listing.len() implies stored_under(
        contents,
        prefix,
        #[trigger] listing[i],
    ) by {
        let key = selected[i];
        keys.lemma_filter_pred(matches, i);
        assert(selected.contains(key));
        keys.lemma_filter_contains_rev(matches, key);
        assert(contents.dom().contains(key) && prefix.is_prefix_of(key) && contents[key]
            == listing[i]);
    }
    assert forall|key: Seq<u8>|
        contents.dom().contains(key) && prefix.is_prefix_of(key) implies listing.contains(
        #[trigger] contents[key],
    ) by {
        assert(keys.contains(key));
        let at = choose|at: int| 0 <= at < keys.len() && keys[at] == key;
        keys.lemma_filter_contains(matches, at);
        let i = choose|i: int| 0 <= i < selected.len() && selected[i] == key;
        assert(listing[i] == contents[key]);
    }
}

/// Prefix isolation. Where neither of two user identifiers, cut to the key
/// width, is a prefix of the other, the listing of the first user holds no
/// record of the second.
pub proof fn lemma_listing_isolated(
    contents: Map<Seq<u8>, StoredAchievementView>,
    user_id: Seq<char>,
    other_id: Seq<char>,
)
    requires
        well_keyed(contents),
        !truncated_id(user_id).is_prefix_of(truncated_id(other_id)),
        !truncated_id(other_id).is_prefix_of(truncated_id(user_id)),
    ensures
        forall|i: int|
            0 <= i < records_with_prefix(contents, user_prefix(user_id)).len() ==> (
            #[trigger] records_with_prefix(contents, user_prefix(user_id))[i]).user_id != other_id,
{
    let listing = records_with_prefix(contents, user_prefix(user_id));
    lemma_listing_members(contents, user_prefix(user_id));
    assert forall|i: int| 0 <= i < listing.len() implies (#[trigger] listing[i]).user_id
        != other_id by {
        assert(stored_under(contents, user_prefix(user_id), listing[i]));
        let key = choose|key: Seq<u8>| #[trigger]
            contents.dom().contains(key) && user_prefix(user_id).is_prefix_of(key) && contents[key]
                == listing[i];
        if listing[i].user_id == other_id {
            lemma_prefix_isolation(user_id, other_id, listing[i].achievement_id);
        }
    }
}

/// The listing of a user holds every record that the store has of that user.
pub proof fn lemma_listing_complete(
    contents: Map<Seq<u8>, StoredAchievementView>,
    user_id: Seq<char>,
)
    requires
        well_keyed(contents),
    ensures
        forall|key: Seq<u8>|
            contents.dom().contains(key) && contents[key].user_id == user_id
                ==> records_with_prefix(contents, user_prefix(user_id)).contains(
                #[trigger] contents[key],
            ),
{
    lemma_listing_members(contents, user_prefix(user_id));
    assert forall|key: Seq<u8>|
        contents.dom().contains(key) && contents[key].user_id
            == user_id implies records_with_prefix(contents, user_prefix(user_id)).contains(
        #[trigger] contents[key],
    ) by {
        lemma_key_has_own_prefix(user_id, contents[key].achievement_id);
    }
}

/// An accepted submission is listed from then on: its record is in the
/// listing of its user.
pub proof fn lemma_accepted_is_listed(
    contents: Map<Seq<u8>, StoredAchievementView>,
    data: AchievementDataView,
)
    requires
        well_keyed(contents),
        accepts(contents, data),
    ensures
        records_with_prefix(recorded(contents, data), user_prefix(data.user_id)).contains(
            record_of(data),
        ),
{
    let after = recorded(contents, data);
    lemma_recorded_well_keyed(contents, data);
    lemma_listing_complete(after, data.user_id);
    assert(after.dom().contains(key_of(data)));
    assert(after[key_of(data)] == record_of(data));
}

/// A record with the same value as `record`.
fn copy_record(record: &StoredAchievement) -> (copy: StoredAchievement)
    ensures
        copy@ == record@,
{
    StoredAchievement {
        achievement_id: record.achievement_id.clone(),
        user_id: record.user_id.clone(),
        unlocked_at: record.unlocked_at.clone(),
        verified: record.verified,
    }
}

} // verus!
