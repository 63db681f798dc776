//! What a pass over the entries does to the store, and what holds of it.
//!
//! A pass takes the entries one at a time: it reads what the store holds
//! under the key of an entry, decides, and where a download is due and
//! succeeds, writes the new record. An entry whose record cannot be read, or
//! whose download or sealing fails, leaves the store as it was. Entries
//! with different keys do not touch each other's records, so the order in
//! which a pass takes them is the order of a list. Of the entries that
//! share a key a pass handles the first, so the entries of a pass share no
//! key; what holds of lists in which entries with a shared key agree holds
//! of them.

use crate::encryption::{EncryptionMethod, TAG_SIZE};
use crate::error::FetchError;
use crate::fetcher::{
    decision, fetched_value, file_for, first_of_key, holds_fetched, key_bytes, pair_for,
    picks_firsts, stored_value, url_file_name, Decision,
};
use crate::store::{lookup, record_opened, Contents, Write};
use crate::traits::{Entry, EntryValue, NONCE_SIZE};
use vstd::prelude::*;

verus! {

/// The decision for an entry on a store.
pub open spec fn decided<E: Entry>(
    cipher: Option<EncryptionMethod>,
    entry: E,
    contents: Contents,
) -> Result<Decision, FetchError> {
    decision::<E::Value>(
        cipher,
        key_bytes(entry),
        entry.value_of(),
        lookup(contents, key_bytes(entry)),
    )
}

/// Whether the store holds a record for the entry, of the identity that
/// the entry has now.
pub open spec fn cached<E: Entry>(
    cipher: Option<EncryptionMethod>,
    entry: E,
    contents: Contents,
) -> bool {
    decided(cipher, entry, contents) == Ok::<Decision, FetchError>(Decision::Hit)
}

/// Whether the record under the key of the entry, if there is one, can be
/// opened and decoded.
pub open spec fn readable<E: Entry>(
    cipher: Option<EncryptionMethod>,
    entry: E,
    contents: Contents,
) -> bool {
    decided(cipher, entry, contents) is Ok
}

/// The number of requests that handling the entry issues: one where a
/// download is due, none otherwise.
pub open spec fn requests_for<E: Entry>(
    cipher: Option<EncryptionMethod>,
    entry: E,
    contents: Contents,
) -> nat {
    match decided(cipher, entry, contents) {
        Ok(Decision::Miss) | Ok(Decision::Stale) => 1,
        _ => 0,
    }
}

/// What the store holds after the entry was handled. `outcome` is the
/// record that the download led to, or nothing where the download or the
/// sealing failed; it is looked at only where a download is due.
pub open spec fn entry_effect<E: Entry>(
    cipher: Option<EncryptionMethod>,
    entry: E,
    contents: Contents,
    outcome: Option<Seq<u8>>,
) -> Contents {
    match (decided(cipher, entry, contents), outcome) {
        (Ok(Decision::Miss), Some(record)) | (Ok(Decision::Stale), Some(record)) => Write::storing(
            key_bytes(entry),
            lookup(contents, key_bytes(entry)),
            record,
        ).apply(contents),
        _ => contents,
    }
}

/// What the store holds after the first `n` entries were handled.
pub open spec fn store_after<E: Entry>(
    cipher: Option<EncryptionMethod>,
    entries: Seq<E>,
    contents: Contents,
    outcomes: Seq<Option<Seq<u8>>>,
    n: nat,
) -> Contents
    decreases n,
{
    if n == 0 {
        contents
    } else {
        entry_effect(
            cipher,
            entries[n - 1],
            store_after(cipher, entries, contents, outcomes, (n - 1) as nat),
            outcomes[n - 1],
        )
    }
}

/// The number of requests that handling the first `n` entries issues.
pub open spec fn requests_upto<E: Entry>(
    cipher: Option<EncryptionMethod>,
    entries: Seq<E>,
    contents: Contents,
    outcomes: Seq<Option<Seq<u8>>>,
    n: nat,
) -> nat
    decreases n,
{
    if n == 0 {
        0
    } else {
        requests_upto(cipher, entries, contents, outcomes, (n - 1) as nat) + requests_for(
            cipher,
            entries[n - 1],
            store_after(cipher, entries, contents, outcomes, (n - 1) as nat),
        )
    }
}

/// What the store holds after a pass.
pub open spec fn pass_effect<E: Entry>(
    cipher: Option<EncryptionMethod>,
    entries: Seq<E>,
    contents: Contents,
    outcomes: Seq<Option<Seq<u8>>>,
) -> Contents {
    store_after(cipher, entries, contents, outcomes, entries.len())
}

/// The number of requests that a pass issues.
pub open spec fn pass_requests<E: Entry>(
    cipher: Option<EncryptionMethod>,
    entries: Seq<E>,
    contents: Contents,
    outcomes: Seq<Option<Seq<u8>>>,
) -> nat {
    requests_upto(cipher, entries, contents, outcomes, entries.len())
}

/// Whether entries that share a key have the same identity.
pub open spec fn agreeing<E: Entry>(entries: Seq<E>) -> bool {
    forall|i: int, j: int|
        0 <= i < entries.len() && 0 <= j < entries.len() && key_bytes(entries[i]) == key_bytes(
            entries[j],
        ) ==> <E::Value as EntryValue>::same_identity(
            #[trigger] entries[i].value_of(),
            #[trigger] entries[j].value_of(),
        )
}

/// Whether each outcome that is a record is a record for its entry and
/// the body at its place.
pub open spec fn outcomes_hold<E: Entry>(
    cipher: Option<EncryptionMethod>,
    entries: Seq<E>,
    bodies: Seq<Seq<u8>>,
    outcomes: Seq<Option<Seq<u8>>>,
) -> bool {
    &&& bodies.len() == entries.len()
    &&& outcomes.len() == entries.len()
    &&& forall|i: int|
        0 <= i < entries.len() ==> (#[trigger] outcomes[i] matches Some(record) ==> holds_fetched(
            cipher,
            entries[i],
            bodies[i],
            record,
        ))
}

/// Handling an entry comes to this: where the decision on what was read
/// under its key is a hit, or the record cannot be read, or the download
/// fails, the store is left alone; otherwise the operation that stores the
/// new record against what was read is performed, and the record is then
/// what the store holds under the key.
pub proof fn lemma_effect_of_write<E: Entry>(
    cipher: Option<EncryptionMethod>,
    entry: E,
    contents: Contents,
    record: Seq<u8>,
)
    ensures
        requests_for(cipher, entry, contents) == 0 ==> entry_effect(
            cipher,
            entry,
            contents,
            Some(record),
        ) == Write::Keep.apply(contents),
        requests_for(cipher, entry, contents) == 1 ==> entry_effect(
            cipher,
            entry,
            contents,
            Some(record),
        ) == Write::storing(key_bytes(entry), lookup(contents, key_bytes(entry)), record).apply(
            contents,
        ) && lookup(entry_effect(cipher, entry, contents, Some(record)), key_bytes(entry)) == Some(
            record,
        ),
        entry_effect(cipher, entry, contents, None) == contents,
{
}

/// After an entry was handled and its download, if one was due, led to a
/// record, the store holds a record of the identity of the entry, unless
/// the record that was there cannot be read.
pub proof fn lemma_entry_cached<E: Entry>(
    cipher: Option<EncryptionMethod>,
    entry: E,
    contents: Contents,
    body: Seq<u8>,
    record: Seq<u8>,
)
    requires
        holds_fetched(cipher, entry, body, record),
    ensures
        readable(cipher, entry, contents) ==> cached(
            cipher,
            entry,
            entry_effect(cipher, entry, contents, Some(record)),
        ),
        !readable(cipher, entry, contents) ==> entry_effect(cipher, entry, contents, Some(record))
            == contents,
{
    <E::Value as EntryValue>::lemma_payload_apart(entry.value_of(), body);
}

/// Handling an entry leaves alone what is under every other key, and
/// without a record to write it leaves the store as it was.
pub proof fn lemma_entry_frame<E: Entry>(
    cipher: Option<EncryptionMethod>,
    entry: E,
    contents: Contents,
    outcome: Option<Seq<u8>>,
    key: Seq<u8>,
)
    ensures
        key != key_bytes(entry) ==> lookup(entry_effect(cipher, entry, contents, outcome), key)
            == lookup(contents, key),
        outcome is None ==> entry_effect(cipher, entry, contents, outcome) == contents,
{
}

/// An entry for which the store holds a record of its identity still has
/// one after another entry was handled, whether that went well or failed,
/// as long as the two have different keys or the same identity.
pub proof fn lemma_others_stay_cached<E: Entry>(
    cipher: Option<EncryptionMethod>,
    entry: E,
    other: E,
    contents: Contents,
    body: Seq<u8>,
    outcome: Option<Seq<u8>>,
)
    requires
        cached(cipher, other, contents),
        outcome matches Some(record) ==> holds_fetched(cipher, entry, body, record),
        key_bytes(entry) == key_bytes(other) ==> <E::Value as EntryValue>::same_identity(
            entry.value_of(),
            other.value_of(),
        ),
    ensures
        cached(cipher, other, entry_effect(cipher, entry, contents, outcome)),
{
    if key_bytes(entry) == key_bytes(other) {
        let old = stored_value::<E::Value>(
            cipher,
            key_bytes(other),
            lookup(contents, key_bytes(other)).unwrap(),
        ).unwrap();
        <E::Value as EntryValue>::lemma_identity_equivalence(
            entry.value_of(),
            other.value_of(),
            old,
        );
        assert(cached(cipher, entry, contents));
    }
}

/// Whether handling the entry issues no request and changes nothing: the
/// store holds a record of its identity, or one that cannot be read.
pub open spec fn settled<E: Entry>(
    cipher: Option<EncryptionMethod>,
    entry: E,
    contents: Contents,
) -> bool {
    requests_for(cipher, entry, contents) == 0
}

/// A settled entry stays settled when another entry is handled, as long as
/// the two have different keys or the same identity.
proof fn lemma_settled_stays<E: Entry>(
    cipher: Option<EncryptionMethod>,
    entry: E,
    other: E,
    contents: Contents,
    body: Seq<u8>,
    outcome: Option<Seq<u8>>,
)
    requires
        settled(cipher, other, contents),
        outcome matches Some(record) ==> holds_fetched(cipher, entry, body, record),
        key_bytes(entry) == key_bytes(other) ==> <E::Value as EntryValue>::same_identity(
            entry.value_of(),
            other.value_of(),
        ),
    ensures
        settled(cipher, other, entry_effect(cipher, entry, contents, outcome)),
{
    if key_bytes(entry) == key_bytes(other) {
        if cached(cipher, other, contents) {
            lemma_others_stay_cached(cipher, entry, other, contents, body, outcome);
        }
    }
}

/// After the first `n` entries of a pass, each of them whose download led
/// to a record, or for which none was due, is settled.
proof fn lemma_prefix_settles<E: Entry>(
    cipher: Option<EncryptionMethod>,
    entries: Seq<E>,
    contents: Contents,
    bodies: Seq<Seq<u8>>,
    outcomes: Seq<Option<Seq<u8>>>,
    n: nat,
)
    requires
        agreeing(entries),
        outcomes_hold(cipher, entries, bodies, outcomes),
        n <= entries.len(),
    ensures
        forall|i: int|
            0 <= i < n && outcomes[i] is Some ==> settled(
                cipher,
                #[trigger] entries[i],
                store_after(cipher, entries, contents, outcomes, n),
            ),
    decreases n,
{
    if n > 0 {
        let m = (n - 1) as nat;
        lemma_prefix_settles(cipher, entries, contents, bodies, outcomes, m);
        let before = store_after(cipher, entries, contents, outcomes, m);
        let last = entries[n - 1];
        assert forall|i: int| 0 <= i < n && outcomes[i] is Some implies settled(
            cipher,
            #[trigger] entries[i],
            store_after(cipher, entries, contents, outcomes, n),
        ) by {
            if i < n - 1 {
                assert(key_bytes(last) == key_bytes(entries[i]) ==> <E::Value as EntryValue>::same_identity(
                    entries[n - 1].value_of(),
                    entries[i].value_of(),
                ));
                lemma_settled_stays(cipher, last, entries[i], before, bodies[n - 1], outcomes[n - 1]);
            } else {
                lemma_entry_cached(cipher, last, before, bodies[n - 1], outcomes[n - 1].unwrap());
            }
        }
    }
}

/// A pass over entries that are all settled issues no request and leaves
/// the store as it is.
proof fn lemma_settled_pass<E: Entry>(
    cipher: Option<EncryptionMethod>,
    entries: Seq<E>,
    contents: Contents,
    outcomes: Seq<Option<Seq<u8>>>,
    n: nat,
)
    requires
        n <= entries.len(),
        forall|i: int| 0 <= i < n ==> settled(cipher, #[trigger] entries[i], contents),
    ensures
        store_after(cipher, entries, contents, outcomes, n) == contents,
        requests_upto(cipher, entries, contents, outcomes, n) == 0,
    decreases n,
{
    if n > 0 {
        lemma_settled_pass(cipher, entries, contents, outcomes, (n - 1) as nat);
        assert(settled(cipher, entries[n - 1], contents));
    }
}

/// A second pass right after a pass in which every download led to a
/// record issues no request and leaves the store as the first pass left
/// it, provided that entries which share a key have the same identity.
pub proof fn lemma_fetch_twice<E: Entry>(
    cipher: Option<EncryptionMethod>,
    entries: Seq<E>,
    contents: Contents,
    bodies: Seq<Seq<u8>>,
    outcomes: Seq<Option<Seq<u8>>>,
    again: Seq<Option<Seq<u8>>>,
)
    requires
        agreeing(entries),
        outcomes_hold(cipher, entries, bodies, outcomes),
        forall|i: int| 0 <= i < entries.len() ==> (#[trigger] outcomes[i]) is Some,
    ensures
        pass_requests(cipher, entries, pass_effect(cipher, entries, contents, outcomes), again)
            == 0,
        pass_effect(cipher, entries, pass_effect(cipher, entries, contents, outcomes), again)
            == pass_effect(cipher, entries, contents, outcomes),
{
    lemma_prefix_settles(cipher, entries, contents, bodies, outcomes, entries.len());
    lemma_settled_pass(
        cipher,
        entries,
        pass_effect(cipher, entries, contents, outcomes),
        again,
        entries.len(),
    );
}

/// An entry whose record can be read still has a readable record after
/// another entry was handled.
proof fn lemma_readable_stays<E: Entry>(
    cipher: Option<EncryptionMethod>,
    entry: E,
    other: E,
    contents: Contents,
    body: Seq<u8>,
    outcome: Option<Seq<u8>>,
)
    requires
        readable(cipher, other, contents),
        outcome matches Some(record) ==> holds_fetched(cipher, entry, body, record),
    ensures
        readable(cipher, other, entry_effect(cipher, entry, contents, outcome)),
{
}

/// After the first `n` entries of a pass, every entry whose download led to
/// a record and whose record could be read before the pass can still be
/// read, and those among the first `n` have a record of their identity.
proof fn lemma_prefix_cached<E: Entry>(
    cipher: Option<EncryptionMethod>,
    entries: Seq<E>,
    contents: Contents,
    bodies: Seq<Seq<u8>>,
    outcomes: Seq<Option<Seq<u8>>>,
    n: nat,
)
    requires
        agreeing(entries),
        outcomes_hold(cipher, entries, bodies, outcomes),
        n <= entries.len(),
    ensures
        forall|i: int|
            0 <= i < entries.len() && readable(cipher, entries[i], contents) ==> readable(
                cipher,
                #[trigger] entries[i],
                store_after(cipher, entries, contents, outcomes, n),
            ),
        forall|i: int|
            0 <= i < n && outcomes[i] is Some && readable(cipher, entries[i], contents) ==> cached(
                cipher,
                #[trigger] entries[i],
                store_after(cipher, entries, contents, outcomes, n),
            ),
    decreases n,
{
    if n > 0 {
        let m = (n - 1) as nat;
        lemma_prefix_cached(cipher, entries, contents, bodies, outcomes, m);
        lemma_prefix_settles(cipher, entries, contents, bodies, outcomes, n);
        let before = store_after(cipher, entries, contents, outcomes, m);
        let last = entries[n - 1];
        assert forall|i: int|
            0 <= i < entries.len() && readable(cipher, entries[i], contents) implies readable(
            cipher,
            #[trigger] entries[i],
            store_after(cipher, entries, contents, outcomes, n),
        ) by {
            lemma_readable_stays(cipher, last, entries[i], before, bodies[n - 1], outcomes[n - 1]);
        }
    }
}

/// After a pass, the store holds a record of the identity of every entry
/// whose download led to a record, or for which none was due, and whose
/// record, if there was one before the pass, could be read, provided that
/// entries which share a key have the same identity. The failure of some
/// entries, on a record that cannot be read or on their download, takes
/// nothing from the others.
pub proof fn lemma_pass_caches<E: Entry>(
    cipher: Option<EncryptionMethod>,
    entries: Seq<E>,
    contents: Contents,
    bodies: Seq<Seq<u8>>,
    outcomes: Seq<Option<Seq<u8>>>,
)
    requires
        agreeing(entries),
        outcomes_hold(cipher, entries, bodies, outcomes),
    ensures
        forall|i: int|
            0 <= i < entries.len() && outcomes[i] is Some && readable(cipher, entries[i], contents)
                ==> cached(
                cipher,
                #[trigger] entries[i],
                pass_effect(cipher, entries, contents, outcomes),
            ),
{
    lemma_prefix_cached(cipher, entries, contents, bodies, outcomes, entries.len());
}

/// Once the store holds a record of the identity of an entry, a change to
/// the entry that keeps its identity leads to no download, and a change of
/// its identity leads to one download and a swap against the record that
/// was read.
pub proof fn lemma_identity_decides<E: Entry>(
    cipher: Option<EncryptionMethod>,
    before: E,
    after: E,
    contents: Contents,
    record: Seq<u8>,
)
    requires
        key_bytes(before) == key_bytes(after),
        cached(cipher, before, contents),
    ensures
        <E::Value as EntryValue>::same_identity(before.value_of(), after.value_of()) ==> cached(
            cipher,
            after,
            contents,
        ) && requests_for(cipher, after, contents) == 0 && entry_effect(
            cipher,
            after,
            contents,
            Some(record),
        ) == contents,
        !<E::Value as EntryValue>::same_identity(before.value_of(), after.value_of()) ==> decided(
            cipher,
            after,
            contents,
        ) == Ok::<Decision, FetchError>(Decision::Stale) && requests_for(cipher, after, contents)
            == 1 && Write::storing(
            key_bytes(after),
            lookup(contents, key_bytes(after)),
            record,
        ) is CompareAndSwap && lookup(
            entry_effect(cipher, after, contents, Some(record)),
            key_bytes(after),
        ) == Some(record),
{
    let old = stored_value::<E::Value>(
        cipher,
        key_bytes(before),
        lookup(contents, key_bytes(before)).unwrap(),
    ).unwrap();
    <E::Value as EntryValue>::lemma_identity_equivalence(before.value_of(), after.value_of(), old);
    <E::Value as EntryValue>::lemma_identity_equivalence(after.value_of(), before.value_of(), old);
    <E::Value as EntryValue>::lemma_identity_equivalence(before.value_of(), old, after.value_of());
    <E::Value as EntryValue>::lemma_identity_equivalence(after.value_of(), old, before.value_of());
}

/// The record of a download holds a value of the identity of the entry
/// whose payload is the body of the response, and it is exported to a file
/// that is named after the URL of the entry and holds that body.
pub proof fn lemma_round_trip<E: Entry>(
    cipher: Option<EncryptionMethod>,
    entry: E,
    body: Seq<u8>,
    record: Seq<u8>,
)
    requires
        holds_fetched(cipher, entry, body, record),
    ensures
        stored_value::<E::Value>(cipher, key_bytes(entry), record) matches Ok(value)
            && <E::Value as EntryValue>::payload_of(value) == body
            && <E::Value as EntryValue>::same_identity(entry.value_of(), value),
        file_for::<E::Value>(cipher, key_bytes(entry), record) == match url_file_name(
            <E::Value as EntryValue>::url_of(entry.value_of()),
        ) {
            Some(name) => Ok::<(Seq<char>, Seq<u8>), FetchError>((name, body)),
            None => Err::<(Seq<char>, Seq<u8>), FetchError>(FetchError::Url),
        },
{
    <E::Value as EntryValue>::lemma_payload_apart(entry.value_of(), body);
}

/// A sealed record and the unsealed record of the same download hold the
/// same value. The sealed one is longer by a nonce and a tag, so the two
/// differ, and it is what sealing under the nonce in front of it gives.
pub proof fn lemma_cipher_transparent<E: Entry>(
    method: EncryptionMethod,
    entry: E,
    body: Seq<u8>,
    sealed: Seq<u8>,
    plain: Seq<u8>,
)
    requires
        holds_fetched(Some(method), entry, body, sealed),
        holds_fetched(None, entry, body, plain),
    ensures
        stored_value::<E::Value>(Some(method), key_bytes(entry), sealed) == stored_value::<
            E::Value,
        >(None, key_bytes(entry), plain),
        sealed.len() == NONCE_SIZE + plain.len() + TAG_SIZE,
        sealed != plain,
        method.encrypted(key_bytes(entry), sealed.subrange(0, NONCE_SIZE as int), plain) == Ok::<
            Seq<u8>,
            crate::error::CryptoError,
        >(sealed),
{
}

/// Whether no two entries share a key, as among the entries that a pass
/// handles.
pub open spec fn distinct_keys<E: Entry>(entries: Seq<E>) -> bool {
    forall|i: int, j: int|
        0 <= i < entries.len() && 0 <= j < entries.len() && i != j ==> key_bytes(
            #[trigger] entries[i],
        ) != key_bytes(#[trigger] entries[j])
}

/// The entries at the given places, in the order of the places.
pub open spec fn picked<E: Entry>(entries: Seq<E>, places: Seq<usize>) -> Seq<E> {
    Seq::new(places.len(), |a: int| entries[places[a] as int])
}

/// The entries that a pass handles, the first of each key, share no key.
pub proof fn lemma_picked_distinct<E: Entry>(entries: Seq<E>, places: Seq<usize>)
    requires
        picks_firsts(entries, places),
    ensures
        distinct_keys(picked(entries, places)),
{
    let chosen = picked(entries, places);
    assert forall|a: int, b: int|
        0 <= a < chosen.len() && 0 <= b < chosen.len() && a != b implies key_bytes(
        #[trigger] chosen[a],
    ) != key_bytes(#[trigger] chosen[b]) by {
        if a < b {
            assert(places[a] < places[b]);
            assert(first_of_key(entries, places[b] as int));
            assert(key_bytes(entries[places[a] as int]) != key_bytes(entries[places[b] as int]));
        } else {
            assert(places[b] < places[a]);
            assert(first_of_key(entries, places[a] as int));
            assert(key_bytes(entries[places[b] as int]) != key_bytes(entries[places[a] as int]));
        }
    }
}

/// A second pass right after a pass in which every download led to a
/// record issues no request and leaves the store as the first pass left
/// it, whatever the list: a pass handles the first entry of each key.
pub proof fn lemma_pass_twice<E: Entry>(
    cipher: Option<EncryptionMethod>,
    entries: Seq<E>,
    places: Seq<usize>,
    contents: Contents,
    bodies: Seq<Seq<u8>>,
    outcomes: Seq<Option<Seq<u8>>>,
    again: Seq<Option<Seq<u8>>>,
)
    requires
        picks_firsts(entries, places),
        outcomes_hold(cipher, picked(entries, places), bodies, outcomes),
        forall|a: int| 0 <= a < places.len() ==> (#[trigger] outcomes[a]) is Some,
    ensures
        pass_requests(
            cipher,
            picked(entries, places),
            pass_effect(cipher, picked(entries, places), contents, outcomes),
            again,
        ) == 0,
        pass_effect(
            cipher,
            picked(entries, places),
            pass_effect(cipher, picked(entries, places), contents, outcomes),
            again,
        ) == pass_effect(cipher, picked(entries, places), contents, outcomes),
{
    lemma_picked_distinct(entries, places);
    lemma_distinct_keys_agree(picked(entries, places));
    lemma_fetch_twice(cipher, picked(entries, places), contents, bodies, outcomes, again);
}

/// Whether `key` is the key of none of the first `n` entries.
pub open spec fn foreign_key<E: Entry>(entries: Seq<E>, n: int, key: Seq<u8>) -> bool {
    forall|i: int| 0 <= i < n ==> key_bytes(#[trigger] entries[i]) != key
}

/// What a pass leaves under the key of an entry of a list without shared
/// keys: the record that its download led to where one was due and
/// succeeded, and otherwise what was there.
pub open spec fn left_for<E: Entry>(
    cipher: Option<EncryptionMethod>,
    entry: E,
    contents: Contents,
    outcome: Option<Seq<u8>>,
) -> Option<Seq<u8>> {
    if requests_for(cipher, entry, contents) == 1 && outcome is Some {
        outcome
    } else {
        lookup(contents, key_bytes(entry))
    }
}

/// The number of requests that the first `n` entries lead to when each is
/// decided on the store as it was before the pass.
pub open spec fn requests_on<E: Entry>(
    cipher: Option<EncryptionMethod>,
    entries: Seq<E>,
    contents: Contents,
    n: nat,
) -> nat
    decreases n,
{
    if n == 0 {
        0
    } else {
        requests_on(cipher, entries, contents, (n - 1) as nat) + requests_for(
            cipher,
            entries[n - 1],
            contents,
        )
    }
}

/// Entries with different keys agree.
pub proof fn lemma_distinct_keys_agree<E: Entry>(entries: Seq<E>)
    requires
        distinct_keys(entries),
    ensures
        agreeing(entries),
{
    assert forall|i: int, j: int|
        0 <= i < entries.len() && 0 <= j < entries.len() && key_bytes(entries[i]) == key_bytes(
            entries[j],
        ) implies <E::Value as EntryValue>::same_identity(
        #[trigger] entries[i].value_of(),
        #[trigger] entries[j].value_of(),
    ) by {
        assert(i == j);
        <E::Value as EntryValue>::lemma_identity_equivalence(
            entries[i].value_of(),
            entries[i].value_of(),
            entries[i].value_of(),
        );
    }
}

/// After the first `n` entries of a list without shared keys, each of them
/// has had its turn on what the store held under its key before the pass,
/// and every other key is as it was.
proof fn lemma_prefix_writes<E: Entry>(
    cipher: Option<EncryptionMethod>,
    entries: Seq<E>,
    contents: Contents,
    outcomes: Seq<Option<Seq<u8>>>,
    n: nat,
)
    requires
        distinct_keys(entries),
        outcomes.len() == entries.len(),
        n <= entries.len(),
    ensures
        forall|i: int|
            0 <= i < n ==> lookup(
                store_after(cipher, entries, contents, outcomes, n),
                key_bytes(#[trigger] entries[i]),
            ) == left_for(cipher, entries[i], contents, outcomes[i]),
        forall|key: Seq<u8>|
            #[trigger] foreign_key(entries, n as int, key) ==> lookup(
                store_after(cipher, entries, contents, outcomes, n),
                key,
            ) == lookup(contents, key),
    decreases n,
{
    if n > 0 {
        let m = (n - 1) as nat;
        lemma_prefix_writes(cipher, entries, contents, outcomes, m);
        let before = store_after(cipher, entries, contents, outcomes, m);
        let after = store_after(cipher, entries, contents, outcomes, n);
        let last = entries[n - 1];
        assert(after == entry_effect(cipher, last, before, outcomes[n - 1]));
        assert(foreign_key(entries, m as int, key_bytes(last))) by {
            assert forall|i: int| 0 <= i < m implies key_bytes(#[trigger] entries[i]) != key_bytes(
                last,
            ) by {
                assert(entries[n - 1] == last);
            }
        }
        assert(lookup(before, key_bytes(last)) == lookup(contents, key_bytes(last)));
        lemma_turn(cipher, last, before, contents, outcomes[n - 1]);
        assert forall|i: int| 0 <= i < n implies lookup(after, key_bytes(#[trigger] entries[i]))
            == left_for(cipher, entries[i], contents, outcomes[i]) by {
            if i < n - 1 {
                assert(key_bytes(entries[i]) != key_bytes(entries[n - 1]));
                lemma_entry_frame(cipher, last, before, outcomes[n - 1], key_bytes(entries[i]));
            }
        }
        assert forall|key: Seq<u8>| #[trigger] foreign_key(entries, n as int, key) implies lookup(
            after,
            key,
        ) == lookup(contents, key) by {
            assert(key_bytes(entries[n - 1]) != key);
            assert(foreign_key(entries, m as int, key));
            lemma_entry_frame(cipher, last, before, outcomes[n - 1], key);
        }
    }
}

/// An entry whose key holds in one store what it holds in another is
/// decided alike on both, and its turn leaves under its key the record of
/// its download where one was due and succeeded, and otherwise what was
/// there.
proof fn lemma_turn<E: Entry>(
    cipher: Option<EncryptionMethod>,
    entry: E,
    before: Contents,
    contents: Contents,
    outcome: Option<Seq<u8>>,
)
    requires
        lookup(before, key_bytes(entry)) == lookup(contents, key_bytes(entry)),
    ensures
        requests_for(cipher, entry, before) == requests_for(cipher, entry, contents),
        lookup(entry_effect(cipher, entry, before, outcome), key_bytes(entry)) == left_for(
            cipher,
            entry,
            contents,
            outcome,
        ),
{
}

/// In a pass over a list without shared keys, the entry at `i` is decided
/// at its turn as on the store before the pass.
proof fn lemma_turn_requests<E: Entry>(
    cipher: Option<EncryptionMethod>,
    entries: Seq<E>,
    contents: Contents,
    outcomes: Seq<Option<Seq<u8>>>,
    i: int,
)
    requires
        distinct_keys(entries),
        outcomes.len() == entries.len(),
        0 <= i < entries.len(),
    ensures
        requests_for(
            cipher,
            entries[i],
            store_after(cipher, entries, contents, outcomes, i as nat),
        ) == requests_for(cipher, entries[i], contents),
{
    lemma_prefix_writes(cipher, entries, contents, outcomes, i as nat);
    assert(foreign_key(entries, i, key_bytes(entries[i]))) by {
        assert forall|j: int| 0 <= j < i implies key_bytes(#[trigger] entries[j]) != key_bytes(
            entries[i],
        ) by {}
    }
    lemma_turn(
        cipher,
        entries[i],
        store_after(cipher, entries, contents, outcomes, i as nat),
        contents,
        outcomes[i],
    );
}

/// In a pass over a list without shared keys, the first `n` entries lead
/// to as many requests as they do on the store before the pass.
proof fn lemma_prefix_requests<E: Entry>(
    cipher: Option<EncryptionMethod>,
    entries: Seq<E>,
    contents: Contents,
    outcomes: Seq<Option<Seq<u8>>>,
    n: nat,
)
    requires
        distinct_keys(entries),
        outcomes.len() == entries.len(),
        n <= entries.len(),
    ensures
        requests_upto(cipher, entries, contents, outcomes, n) == requests_on(
            cipher,
            entries,
            contents,
            n,
        ),
    decreases n,
{
    if n > 0 {
        lemma_prefix_requests(cipher, entries, contents, outcomes, (n - 1) as nat);
        lemma_turn_requests(cipher, entries, contents, outcomes, n - 1);
    }
}

/// What a pass over a list without shared keys does: under the key of each
/// entry it leaves the record of its download, where one was due and
/// succeeded, and otherwise what was there; every other key is as it was;
/// and each entry leads to a request just when it does so on the store as
/// it was before the pass.
pub proof fn lemma_pass_writes<E: Entry>(
    cipher: Option<EncryptionMethod>,
    entries: Seq<E>,
    contents: Contents,
    outcomes: Seq<Option<Seq<u8>>>,
)
    requires
        distinct_keys(entries),
        outcomes.len() == entries.len(),
    ensures
        forall|i: int|
            0 <= i < entries.len() ==> lookup(
                pass_effect(cipher, entries, contents, outcomes),
                key_bytes(#[trigger] entries[i]),
            ) == left_for(cipher, entries[i], contents, outcomes[i]),
        forall|key: Seq<u8>|
            #[trigger] foreign_key(entries, entries.len() as int, key) ==> lookup(
                pass_effect(cipher, entries, contents, outcomes),
                key,
            ) == lookup(contents, key),
        forall|i: int|
            0 <= i < entries.len() ==> requests_for(
                cipher,
                #[trigger] entries[i],
                store_after(cipher, entries, contents, outcomes, i as nat),
            ) == requests_for(cipher, entries[i], contents),
        pass_requests(cipher, entries, contents, outcomes) == requests_on(
            cipher,
            entries,
            contents,
            entries.len(),
        ),
{
    lemma_prefix_writes(cipher, entries, contents, outcomes, entries.len());
    lemma_prefix_requests(cipher, entries, contents, outcomes, entries.len());
    assert forall|i: int| 0 <= i < entries.len() implies requests_for(
        cipher,
        #[trigger] entries[i],
        store_after(cipher, entries, contents, outcomes, i as nat),
    ) == requests_for(cipher, entries[i], contents) by {
        lemma_turn_requests(cipher, entries, contents, outcomes, i);
    }
}

/// Where only the entry at `k` leads to a request, the first `n` entries
/// lead to one request if `k` is among them and to none otherwise.
proof fn lemma_single_request<E: Entry>(
    cipher: Option<EncryptionMethod>,
    entries: Seq<E>,
    contents: Contents,
    k: int,
    n: nat,
)
    requires
        0 <= k < entries.len(),
        n <= entries.len(),
        requests_for(cipher, entries[k], contents) == 1,
        forall|i: int|
            0 <= i < entries.len() && i != k ==> requests_for(
                cipher,
                #[trigger] entries[i],
                contents,
            ) == 0,
    ensures
        requests_on(cipher, entries, contents, n) == if n > k {
            1nat
        } else {
            0nat
        },
    decreases n,
{
    if n > 0 {
        lemma_single_request(cipher, entries, contents, k, (n - 1) as nat);
    }
}

/// After a pass that went well, a change of the identity of one entry, its
/// key staying the same, leads in the next pass to one request in all, and
/// that request is for the changed entry; no other entry leads to one. The
/// entries are those that a pass handles, so no two share a key.
pub proof fn lemma_one_change_one_request<E: Entry>(
    cipher: Option<EncryptionMethod>,
    entries: Seq<E>,
    changed: E,
    k: int,
    contents: Contents,
    outcomes: Seq<Option<Seq<u8>>>,
)
    requires
        distinct_keys(entries),
        0 <= k < entries.len(),
        outcomes.len() == entries.len(),
        forall|i: int| 0 <= i < entries.len() ==> cached(cipher, #[trigger] entries[i], contents),
        key_bytes(changed) == key_bytes(entries[k]),
        !<E::Value as EntryValue>::same_identity(entries[k].value_of(), changed.value_of()),
    ensures
        pass_requests(cipher, entries.update(k, changed), contents, outcomes) == 1,
        requests_for(
            cipher,
            changed,
            store_after(cipher, entries.update(k, changed), contents, outcomes, k as nat),
        ) == 1,
        forall|i: int|
            0 <= i < entries.len() && i != k ==> requests_for(
                cipher,
                #[trigger] entries[i],
                store_after(cipher, entries.update(k, changed), contents, outcomes, i as nat),
            ) == 0,
{
    let next = entries.update(k, changed);
    lemma_identity_decides(cipher, entries[k], changed, contents, Seq::empty());
    assert forall|i: int, j: int|
        0 <= i < next.len() && 0 <= j < next.len() && i != j implies key_bytes(
        #[trigger] next[i],
    ) != key_bytes(#[trigger] next[j]) by {
        assert(key_bytes(next[i]) == key_bytes(entries[i]));
        assert(key_bytes(next[j]) == key_bytes(entries[j]));
    }
    lemma_pass_writes(cipher, next, contents, outcomes);
    assert forall|i: int| 0 <= i < next.len() && i != k implies requests_for(
        cipher,
        #[trigger] next[i],
        contents,
    ) == 0 by {
        assert(next[i] == entries[i]);
        assert(cached(cipher, entries[i], contents));
    }
    lemma_single_request(cipher, next, contents, k, next.len());
    assert forall|i: int| 0 <= i < entries.len() && i != k implies requests_for(
        cipher,
        #[trigger] entries[i],
        store_after(cipher, next, contents, outcomes, i as nat),
    ) == 0 by {
        assert(next[i] == entries[i]);
    }
    assert(next[k] == changed);
}

/// After a pass in which every entry was due a download and every download
/// led to a record, as on an empty store, the store holds under the key of
/// each entry the record of its download: it opens to the encoded value of
/// the entry with the body of the response as payload, so reading it back
/// gives a value of the identity of the entry with just that payload. The
/// entries are those that a pass handles, so no two share a key.
pub proof fn lemma_pass_round_trip<E: Entry>(
    cipher: Option<EncryptionMethod>,
    entries: Seq<E>,
    contents: Contents,
    bodies: Seq<Seq<u8>>,
    outcomes: Seq<Option<Seq<u8>>>,
)
    requires
        distinct_keys(entries),
        outcomes_hold(cipher, entries, bodies, outcomes),
        forall|i: int| 0 <= i < entries.len() ==> (#[trigger] outcomes[i]) is Some,
        forall|i: int|
            0 <= i < entries.len() ==> requests_for(cipher, #[trigger] entries[i], contents) == 1,
    ensures
        forall|i: int|
            0 <= i < entries.len() ==> lookup(
                pass_effect(cipher, entries, contents, outcomes),
                key_bytes(#[trigger] entries[i]),
            ) == outcomes[i],
        forall|i: int|
            0 <= i < entries.len() ==> record_opened(
                cipher,
                key_bytes(#[trigger] entries[i]),
                outcomes[i].unwrap(),
            ) == Ok::<Seq<u8>, crate::error::CryptoError>(
                <E::Value as EntryValue>::encoding(fetched_value(entries[i], bodies[i])),
            ),
        forall|i: int|
            0 <= i < entries.len() ==> stored_value::<E::Value>(
                cipher,
                key_bytes(#[trigger] entries[i]),
                outcomes[i].unwrap(),
            ) == Ok::<<E::Value as View>::V, FetchError>(fetched_value(entries[i], bodies[i])),
        forall|i: int|
            0 <= i < entries.len() ==> <E::Value as EntryValue>::payload_of(
                fetched_value(#[trigger] entries[i], bodies[i]),
            ) == bodies[i] && <E::Value as EntryValue>::same_identity(
                entries[i].value_of(),
                fetched_value(entries[i], bodies[i]),
            ),
        forall|key: Seq<u8>|
            #[trigger] foreign_key(entries, entries.len() as int, key) ==> lookup(
                pass_effect(cipher, entries, contents, outcomes),
                key,
            ) == lookup(contents, key),
{
    lemma_pass_writes(cipher, entries, contents, outcomes);
    assert forall|i: int| 0 <= i < entries.len() implies <E::Value as EntryValue>::payload_of(
        fetched_value(#[trigger] entries[i], bodies[i]),
    ) == bodies[i] && <E::Value as EntryValue>::same_identity(
        entries[i].value_of(),
        fetched_value(entries[i], bodies[i]),
    ) by {
        <E::Value as EntryValue>::lemma_payload_apart(entries[i].value_of(), bodies[i]);
    }
    assert forall|i: int| 0 <= i < entries.len() implies stored_value::<E::Value>(
        cipher,
        key_bytes(#[trigger] entries[i]),
        outcomes[i].unwrap(),
    ) == Ok::<<E::Value as View>::V, FetchError>(fetched_value(entries[i], bodies[i])) by {
        assert(outcomes[i] is Some);
    }
    assert forall|i: int| 0 <= i < entries.len() implies record_opened(
        cipher,
        key_bytes(#[trigger] entries[i]),
        outcomes[i].unwrap(),
    ) == Ok::<Seq<u8>, crate::error::CryptoError>(
        <E::Value as EntryValue>::encoding(fetched_value(entries[i], bodies[i])),
    ) by {
        assert(outcomes[i] is Some);
    }
}

/// A pass with a cipher and a pass without one, over the same entries and
/// the same responses, both on an empty store, leave stores with the same
/// keys, and under each key records that hold the same key and value: a
/// reader sees no difference. Under the key of each entry the sealed
/// record opens to the unsealed one, which is the encoded value of the
/// entry with the body as payload. The entries are those that a pass
/// handles, so no two share a key.
pub proof fn lemma_pass_cipher_transparent<E: Entry>(
    method: EncryptionMethod,
    entries: Seq<E>,
    bodies: Seq<Seq<u8>>,
    sealed: Seq<Option<Seq<u8>>>,
    plain: Seq<Option<Seq<u8>>>,
)
    requires
        distinct_keys(entries),
        outcomes_hold(Some(method), entries, bodies, sealed),
        outcomes_hold(None, entries, bodies, plain),
        forall|i: int| 0 <= i < entries.len() ==> (#[trigger] sealed[i]) is Some,
        forall|i: int| 0 <= i < entries.len() ==> (#[trigger] plain[i]) is Some,
    ensures
        forall|key: Seq<u8>|
            #![trigger lookup(pass_effect(Some(method), entries, Map::empty(), sealed), key)]
            #![trigger lookup(pass_effect(None, entries, Map::empty(), plain), key)]
            match (
                lookup(pass_effect(Some(method), entries, Map::empty(), sealed), key),
                lookup(pass_effect(None, entries, Map::empty(), plain), key),
            ) {
                (Some(a), Some(b)) => pair_for::<E::Key, E::Value>(Some(method), key, a)
                    == pair_for::<E::Key, E::Value>(None, key, b) && stored_value::<E::Value>(
                    Some(method),
                    key,
                    a,
                ) == stored_value::<E::Value>(None, key, b) && stored_value::<E::Value>(
                    None,
                    key,
                    b,
                ) is Ok && method.decrypted(key, a) == Ok::<Seq<u8>, crate::error::CryptoError>(b),
                (None, None) => true,
                _ => false,
            },
        forall|i: int|
            0 <= i < entries.len() ==> lookup(
                pass_effect(Some(method), entries, Map::empty(), sealed),
                key_bytes(#[trigger] entries[i]),
            ) == sealed[i] && lookup(
                pass_effect(None, entries, Map::empty(), plain),
                key_bytes(entries[i]),
            ) == plain[i] && plain[i] == Some(
                <E::Value as EntryValue>::encoding(fetched_value(entries[i], bodies[i])),
            ),
{
    let empty: Contents = Map::empty();
    assert forall|i: int| 0 <= i < entries.len() implies requests_for(
        Some(method),
        #[trigger] entries[i],
        empty,
    ) == 1 && requests_for(None, entries[i], empty) == 1 by {}
    lemma_pass_round_trip(Some(method), entries, empty, bodies, sealed);
    lemma_pass_round_trip(None, entries, empty, bodies, plain);
    let with = pass_effect(Some(method), entries, empty, sealed);
    let without = pass_effect(None, entries, empty, plain);
    assert forall|key: Seq<u8>|
        #![trigger lookup(with, key)]
        #![trigger lookup(without, key)]
        match (lookup(with, key), lookup(without, key)) {
            (Some(a), Some(b)) => pair_for::<E::Key, E::Value>(Some(method), key, a) == pair_for::<
                E::Key,
                E::Value,
            >(None, key, b) && stored_value::<E::Value>(Some(method), key, a) == stored_value::<
                E::Value,
            >(None, key, b) && stored_value::<E::Value>(None, key, b) is Ok && method.decrypted(
                key,
                a,
            ) == Ok::<Seq<u8>, crate::error::CryptoError>(b),
            (None, None) => true,
            _ => false,
        } by {
        if foreign_key(entries, entries.len() as int, key) {
            assert(lookup(with, key) == lookup(empty, key));
            assert(lookup(without, key) == lookup(empty, key));
        } else {
            let i = choose|i: int| 0 <= i < entries.len() && key_bytes(#[trigger] entries[i]) == key;
            assert(lookup(with, key_bytes(entries[i])) == sealed[i]);
            assert(lookup(without, key_bytes(entries[i])) == plain[i]);
            assert(sealed[i] is Some);
            assert(plain[i] is Some);
        }
    }
    assert forall|i: int| 0 <= i < entries.len() implies plain[i] == Some(
        <E::Value as EntryValue>::encoding(fetched_value(#[trigger] entries[i], bodies[i])),
    ) by {
        assert(plain[i] is Some);
    }
}

} // verus!
