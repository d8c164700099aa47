//! The key codec: how a user identifier and an achievement identifier become
//! the fixed-width byte key under which an unlock record is stored, and how
//! a user identifier becomes the byte prefix that selects that user's keys.

use ic_stable_structures::storable::Blob;
use vstd::prelude::*;
use vstd::slice::*;
use vstd::string::*;
use vstd::utf8::*;

verus! {

/// Width of a stored key, and capacity of every blob the codec makes.
pub const KEY_WIDTH: usize = 64;

/// `ic_stable_structures::storable::Blob`, a byte buffer of bounded length.
#[verifier::external_type_specification]
#[verifier::external_body]
pub struct ExBlob<const N: usize>(Blob<N>);

/// The bytes that a blob holds, which are what `Blob::as_slice` hands out
/// and what `Blob`'s equality and ordering compare.
pub uninterp spec fn blob_bytes(blob: Blob<64>) -> Seq<u8>;

/// Calls `Blob::try_from(&[u8])`. That function copies the slice into the
/// blob and records its length, and fails only for a slice longer than the
/// blob's capacity, which `requires` leaves out.
#[verifier::external_body]
fn blob_from_slice(bytes: &[u8]) -> (blob: Blob<64>)
    requires
        bytes@.len() <= KEY_WIDTH,
    ensures
        blob_bytes(blob) == bytes@,
{
    Blob::try_from(bytes).unwrap()
}

/// Calls `Blob::as_slice`, which returns the stored bytes up to the
/// recorded length.
#[verifier::external_body]
pub(crate) fn blob_as_slice(blob: &Blob<64>) -> (bytes: &[u8])
    ensures
        bytes@ == blob_bytes(*blob),
{
    blob.as_slice()
}

/// `bytes` cut to at most `KEY_WIDTH` bytes.
pub open spec fn truncated(bytes: Seq<u8>) -> Seq<u8> {
    if bytes.len() <= KEY_WIDTH {
        bytes
    } else {
        bytes.subrange(0, KEY_WIDTH as int)
    }
}

/// `bytes` laid left-aligned into exactly `KEY_WIDTH` bytes: cut if longer,
/// filled with zero bytes if shorter.
pub open spec fn fixed_width(bytes: Seq<u8>) -> Seq<u8> {
    Seq::new(
        KEY_WIDTH as nat,
        |i: int|
            if i < bytes.len() {
                bytes[i]
            } else {
                0u8
            },
    )
}

/// The text `user_id:achievement_id` that a key encodes.
pub open spec fn key_text(user_id: Seq<char>, achievement_id: Seq<char>) -> Seq<char> {
    user_id + seq![':'] + achievement_id
}

/// The text `user_id:` with which the key text of every record of that user begins.
pub open spec fn prefix_text(user_id: Seq<char>) -> Seq<char> {
    user_id + seq![':']
}

/// The key of the pair: the UTF-8 bytes of its key text at fixed width.
pub open spec fn composite_key(user_id: Seq<char>, achievement_id: Seq<char>) -> Seq<u8> {
    fixed_width(encode_utf8(key_text(user_id, achievement_id)))
}

/// The prefix that selects a user's keys: the UTF-8 bytes of the prefix
/// text, cut to the key width and not padded.
pub open spec fn user_prefix(user_id: Seq<char>) -> Seq<u8> {
    truncated(encode_utf8(prefix_text(user_id)))
}

/// Encodes `s` as a key-width blob: its UTF-8 bytes left-aligned, zero
/// padded, and silently cut at `KEY_WIDTH` bytes.
pub fn str_to_blob64(s: &str) -> (key: Blob<64>)
    ensures
        blob_bytes(key) == fixed_width(encode_utf8(s@)),
{
    let mut bytes = [0u8; 64];
    let s_bytes = s.as_bytes();
    let len: usize = if s_bytes.len() < KEY_WIDTH {
        s_bytes.len()
    } else {
        KEY_WIDTH
    };
    let mut i: usize = 0;
    while i < len
        invariant
            i <= len <= KEY_WIDTH,
            len <= s_bytes@.len(),
            bytes@.len() == KEY_WIDTH,
            forall|j: int| 0 <= j < i ==> bytes@[j] == s_bytes@[j],
            forall|j: int| i <= j < KEY_WIDTH ==> bytes@[j] == 0u8,
        decreases len - i,
    {
        bytes[i] = s_bytes[i];
        i += 1;
    }
    assert(bytes@ =~= fixed_width(s_bytes@));
    blob_from_slice(bytes.as_slice())
}

/// Encodes the pair as the key of its record.
pub fn encode_key(user_id: &str, achievement_id: &str) -> (key: Blob<64>)
    ensures
        blob_bytes(key) == composite_key(user_id@, achievement_id@),
{
    let mut text = String::from_str(user_id);
    text.append(":");
    text.append(achievement_id);
    proof {
        reveal_strlit(":");
        assert(text@ =~= key_text(user_id@, achievement_id@));
    }
    str_to_blob64(text.as_str())
}

/// Encodes the prefix that selects the keys of `user_id`. The blob is as
/// long as the prefix, so that none of its bytes is padding.
pub fn encode_prefix(user_id: &str) -> (prefix: Blob<64>)
    ensures
        blob_bytes(prefix) == user_prefix(user_id@),
{
    let mut text = String::from_str(user_id);
    text.append(":");
    proof {
        reveal_strlit(":");
        assert(text@ =~= prefix_text(user_id@));
    }
    let bytes = text.as_str().as_bytes();
    let len: usize = if bytes.len() < KEY_WIDTH {
        bytes.len()
    } else {
        KEY_WIDTH
    };
    let head = slice_subrange(bytes, 0, len);
    assert(head@ =~= truncated(bytes@));
    blob_from_slice(head)
}

/// Whether `key` begins with the bytes of `prefix`.
pub fn starts_with(key: &[u8], prefix: &[u8]) -> (found: bool)
    ensures
        found == prefix@.is_prefix_of(key@),
{
    if prefix.len() > key.len() {
        return false;
    }
    let mut i: usize = 0;
    while i < prefix.len()
        invariant
            i <= prefix@.len() <= key@.len(),
            forall|j: int| 0 <= j < i ==> key@[j] == prefix@[j],
        decreases prefix@.len() - i,
    {
        if key[i] != prefix[i] {
            assert(key@.subrange(0, prefix@.len() as int)[i as int] != prefix@[i as int]);
            return false;
        }
        i += 1;
    }
    assert(prefix@ =~= key@.subrange(0, prefix@.len() as int));
    true
}

/// UTF-8 encoding distributes over concatenation.
pub proof fn lemma_encode_utf8_concat(a: Seq<char>, b: Seq<char>)
    ensures
        encode_utf8(a + b) == encode_utf8(a) + encode_utf8(b),
    decreases a.len(),
{
    if a.len() == 0 {
        assert(a + b =~= b);
        assert(encode_utf8(a) + encode_utf8(b) =~= encode_utf8(b));
    } else {
        assert((a + b).drop_first() =~= a.drop_first() + b);
        lemma_encode_utf8_concat(a.drop_first(), b);
        assert(encode_utf8(a + b) =~= encode_utf8(a) + encode_utf8(b));
    }
}

/// Every key is exactly `KEY_WIDTH` bytes wide and no prefix is wider.
pub proof fn lemma_widths(user_id: Seq<char>, achievement_id: Seq<char>)
    ensures
        composite_key(user_id, achievement_id).len() == KEY_WIDTH,
        user_prefix(user_id).len() <= KEY_WIDTH,
{
}

/// A key is a function of the pair it encodes and of nothing else: equal
/// pairs always have the same key.
pub proof fn lemma_key_deterministic(
    user_a: Seq<char>,
    achievement_a: Seq<char>,
    user_b: Seq<char>,
    achievement_b: Seq<char>,
)
    requires
        user_a == user_b,
        achievement_a == achievement_b,
    ensures
        composite_key(user_a, achievement_a) == composite_key(user_b, achievement_b),
        user_prefix(user_a) == user_prefix(user_b),
{
}

/// The key of every pair of a user begins with that user's prefix.
pub proof fn lemma_key_has_own_prefix(user_id: Seq<char>, achievement_id: Seq<char>)
    ensures
        user_prefix(user_id).is_prefix_of(composite_key(user_id, achievement_id)),
{
    let head = encode_utf8(prefix_text(user_id));
    let prefix = user_prefix(user_id);
    let key = composite_key(user_id, achievement_id);
    lemma_encode_utf8_concat(prefix_text(user_id), achievement_id);
    assert(key_text(user_id, achievement_id) =~= prefix_text(user_id) + achievement_id);
    assert(encode_utf8(key_text(user_id, achievement_id)) == head + encode_utf8(achievement_id));
    assert(prefix =~= key.subrange(0, prefix.len() as int));
}

/// The UTF-8 bytes of a user identifier, cut to the key width: the part
/// of the identifier that a key can hold.
pub open spec fn truncated_id(user_id: Seq<char>) -> Seq<u8> {
    truncated(encode_utf8(user_id))
}

/// Two byte strings of which neither is a prefix of the other differ at a
/// position that both have.
proof fn lemma_differing_position(a: Seq<u8>, b: Seq<u8>) -> (i: int)
    requires
        !a.is_prefix_of(b),
        !b.is_prefix_of(a),
    ensures
        0 <= i < a.len(),
        i < b.len(),
        a[i] != b[i],
{
    if a.len() <= b.len() {
        if forall|j: int| 0 <= j < a.len() ==> a[j] == b[j] {
            assert(a =~= b.subrange(0, a.len() as int));
        }
        choose|j: int| 0 <= j < a.len() && a[j] != b[j]
    } else {
        if forall|j: int| 0 <= j < b.len() ==> a[j] == b[j] {
            assert(b =~= a.subrange(0, b.len() as int));
        }
        choose|j: int| 0 <= j < b.len() && a[j] != b[j]
    }
}

/// Prefix isolation: where neither of two user identifiers, cut to the
/// key width, is a prefix of the other, no key of the second user begins
/// with the prefix of the first.
pub proof fn lemma_prefix_isolation(
    user_id: Seq<char>,
    other_id: Seq<char>,
    achievement_id: Seq<char>,
)
    requires
        !truncated_id(user_id).is_prefix_of(truncated_id(other_id)),
        !truncated_id(other_id).is_prefix_of(truncated_id(user_id)),
    ensures
        !user_prefix(user_id).is_prefix_of(composite_key(other_id, achievement_id)),
{
    let i = lemma_differing_position(truncated_id(user_id), truncated_id(other_id));
    let prefix = user_prefix(user_id);
    let key = composite_key(other_id, achievement_id);
    lemma_encode_utf8_concat(user_id, seq![':']);
    lemma_encode_utf8_concat(other_id + seq![':'], achievement_id);
    lemma_encode_utf8_concat(other_id, seq![':']);
    assert(prefix[i] == truncated_id(user_id)[i]);
    assert(key[i] == truncated_id(other_id)[i]);
    if prefix.is_prefix_of(key) {
        assert(key.subrange(0, prefix.len() as int)[i] == prefix[i]);
    }
}

} // verus!
