//! The coordinator: which entries need a download, and what is written to
//! the store for them.
//!
//! The coordinator does no I/O. A pass handles the entries at the places
//! that `first_of_each_key` gives. For each of them the caller reads what
//! the store holds under its key and asks `handle_entry` what to do; where
//! a download is due, the caller makes the request and hands the body to
//! `store_response`, which gives the operation to perform on the store.

use crate::encryption::{EncryptionMethod, KEY_SIZE};
use crate::error::{CryptoError, FetchError};
use crate::package::Mode;
use crate::store::{
    dec_or_clone, encrypt_bytes, encrypt_bytes_with_nonce, record_len, record_opened,
    record_sealed, record_view, write_for, StoreOp, Write,
};
use crate::traits::{Entry, EntryKey, EntryValue, NONCE_SIZE};
use vstd::prelude::*;

verus! {

/// How the body of a response is read.
#[derive(Debug, Copy, Clone, PartialEq, Eq, PartialOrd, Ord, Structural)]
pub enum ResponseMethod {
    /// In one piece.
    Bytes,
    /// Chunk by chunk, as the server frames them.
    Chunk,
    /// As a stream of bytes.
    BytesStream,
}

/// How the user is told of progress.
#[derive(Debug, Copy, Clone, PartialEq, Eq, PartialOrd, Ord, Structural)]
pub enum NotifyMethod {
    /// A log line per entry.
    Log,
    /// A progress bar per download.
    ProgressBar,
    /// Not at all.
    Silent,
}

/// How a pass over the entries is run.
#[derive(Debug, Copy, Clone, PartialEq, Eq, Structural)]
pub enum FetchMethod {
    /// One task per entry, each looking up, fetching and storing on its
    /// own.
    Async,
    /// Producers look up and fetch and post to a bounded channel; one
    /// consumer stores.
    Channel,
    /// One task per entry, again whenever the configuration file changes.
    Watch,
}

impl Default for ResponseMethod {
    fn default() -> (out: Self)
        ensures
            out == ResponseMethod::Bytes,
    {
        ResponseMethod::Bytes
    }
}

impl Default for NotifyMethod {
    fn default() -> (out: Self)
        ensures
            out == NotifyMethod::Log,
    {
        NotifyMethod::Log
    }
}

impl Default for FetchMethod {
    fn default() -> (out: Self)
        ensures
            out == FetchMethod::Async,
    {
        FetchMethod::Async
    }
}

/// Whether progress can be shown in the way `notify` asks for when bodies
/// are read in the way `response` says: a progress bar moves chunk by
/// chunk, so it needs a body that arrives in pieces.
pub open spec fn compatible(response: ResponseMethod, notify: NotifyMethod) -> bool {
    notify == NotifyMethod::ProgressBar ==> response == ResponseMethod::Chunk || response
        == ResponseMethod::BytesStream
}

/// Whether progress can be shown in the way `notify` asks for when bodies
/// are read in the way `response` says.
pub fn compatible_with(response: ResponseMethod, notify: NotifyMethod) -> (out: bool)
    ensures
        out == compatible(response, notify),
{
    match notify {
        NotifyMethod::ProgressBar => match response {
            ResponseMethod::Bytes => false,
            _ => true,
        },
        _ => true,
    }
}

/// What the store holds for an entry, seen from the entry as it is now.
#[derive(Debug, Copy, Clone, PartialEq, Eq, Structural)]
pub enum Decision {
    /// A record of the same identity: nothing to do.
    Hit,
    /// No record: fetch and insert.
    Miss,
    /// A record of another identity: fetch and swap.
    Stale,
}

/// What to tell the user about an entry.
#[derive(Debug, Copy, Clone, PartialEq, Eq, Structural)]
pub enum Notice {
    /// The cached payload serves.
    Cached,
    /// The payload is being fetched.
    Caching,
}

/// What to do for an entry.
#[derive(Debug, Clone)]
pub struct EntryPlan {
    /// What the store holds for the entry.
    pub decision: Decision,
    /// The line to log, if any.
    pub notice: Option<Notice>,
    /// The URL to fetch, if a download is due.
    pub request: Option<String>,
    /// The name of the entry in logs and on progress bars.
    pub label: String,
}

/// The value that a stored record holds.
pub open spec fn stored_value<V: EntryValue>(
    cipher: Option<EncryptionMethod>,
    key: Seq<u8>,
    record: Seq<u8>,
) -> Result<V::V, FetchError> {
    match record_opened(cipher, key, record) {
        Err(e) => Err(FetchError::Crypto(e)),
        Ok(plain) => match V::decoding(plain) {
            Some(value) => Ok(value),
            None => Err(FetchError::Store),
        },
    }
}

/// The decision for an entry with the given key and value when the store
/// holds `prior` under the key. A record that cannot be opened or decoded
/// fails the entry.
pub open spec fn decision<V: EntryValue>(
    cipher: Option<EncryptionMethod>,
    key: Seq<u8>,
    value: V::V,
    prior: Option<Seq<u8>>,
) -> Result<Decision, FetchError> {
    match prior {
        None => Ok(Decision::Miss),
        Some(record) => match stored_value::<V>(cipher, key, record) {
            Err(e) => Err(e),
            Ok(old) => if V::same_identity(value, old) {
                Ok(Decision::Hit)
            } else {
                Ok(Decision::Stale)
            },
        },
    }
}

/// The line to log for a decision.
pub open spec fn notice_for(notify: NotifyMethod, decision: Decision) -> Option<Notice> {
    if notify == NotifyMethod::Log {
        if decision == Decision::Hit {
            Some(Notice::Cached)
        } else {
            Some(Notice::Caching)
        }
    } else {
        None
    }
}

/// The bytes of the key of an entry.
pub open spec fn key_bytes<E: Entry>(entry: E) -> Seq<u8> {
    <E::Key as EntryKey>::bytes_of(entry.key_of())
}

/// The value of an entry with `body` as its payload.
pub open spec fn fetched_value<E: Entry>(entry: E, body: Seq<u8>) -> <E::Value as View>::V {
    <E::Value as EntryValue>::with_payload(entry.value_of(), body)
}

/// Whether `record` is the record of `value` under `key`. It opens to the
/// encoded value, so it holds the value, and it has the length that a
/// record of the value has. Without a cipher it is the encoded value; with
/// one it is what sealing the encoded value under the nonce in front of it
/// gives.
pub open spec fn holds_value<V: EntryValue>(
    cipher: Option<EncryptionMethod>,
    key: Seq<u8>,
    value: V::V,
    record: Seq<u8>,
) -> bool {
    &&& record_opened(cipher, key, record) == Ok::<Seq<u8>, CryptoError>(V::encoding(value))
    &&& stored_value::<V>(cipher, key, record) == Ok::<V::V, FetchError>(value)
    &&& record.len() == record_len(cipher, V::encoding(value).len())
    &&& cipher is None ==> record == V::encoding(value)
    &&& cipher is Some ==> record_sealed(
        cipher,
        key,
        record.subrange(0, NONCE_SIZE as int),
        V::encoding(value),
    ) == Ok::<Seq<u8>, CryptoError>(record)
}

/// Whether `record` is the record for an entry whose download gave `body`:
/// the record, under the key of the entry, of the value of the entry with
/// `body` as its payload.
pub open spec fn holds_fetched<E: Entry>(
    cipher: Option<EncryptionMethod>,
    entry: E,
    body: Seq<u8>,
    record: Seq<u8>,
) -> bool {
    holds_value::<E::Value>(cipher, key_bytes(entry), fetched_value(entry, body), record)
}

/// The text of an optional string.
pub open spec fn text_view(text: Option<String>) -> Option<Seq<char>> {
    match text {
        Some(t) => Some(t@),
        None => None,
    }
}

/// A file to write when the cache is exported.
#[derive(Debug, Clone, PartialEq, Eq)]
pub struct FileWrite {
    /// The name of the file within the target directory.
    pub name: String,
    /// What the file holds.
    pub contents: Vec<u8>,
}

/// The segments of the path of a URL, as `Url::path_segments` of the `url`
/// crate gives them after `Url::parse`. There are none where the text does
/// not parse as a URL, or the URL has no path to split.
pub uninterp spec fn url_path_segments(url: Seq<char>) -> Option<Seq<Seq<char>>>;

/// The texts of a list of strings.
pub open spec fn texts_view(texts: Vec<String>) -> Seq<Seq<char>> {
    Seq::new(texts@.len(), |i: int| texts@[i]@)
}

/// The texts of an optional list of strings.
pub open spec fn segments_view(segments: Option<Vec<String>>) -> Option<Seq<Seq<char>>> {
    match segments {
        Some(texts) => Some(texts_view(texts)),
        None => None,
    }
}

/// Calls `Url::parse` and then `Url::path_segments`, and hands out the
/// segments in their order, each as a string of its own. The result is a
/// function of the text.
#[verifier::external_body]
fn path_segments_of(url: &str) -> (out: Option<Vec<String>>)
    ensures
        segments_view(out) == url_path_segments(url@),
{
    let parsed = url::Url::parse(url).ok()?;
    Some(parsed.path_segments()?.map(String::from).collect())
}

/// The segment that names a file: the last one. Without segments there is
/// no name.
pub open spec fn naming_segment(segments: Option<Seq<Seq<char>>>) -> Option<Seq<char>> {
    match segments {
        Some(texts) => if texts.len() > 0 {
            Some(texts[texts.len() - 1])
        } else {
            None
        },
        None => None,
    }
}

/// The name of the file that a URL leads to: the last segment of its path.
pub open spec fn url_file_name(url: Seq<char>) -> Option<Seq<char>> {
    naming_segment(url_path_segments(url))
}

/// The segment that names a file: the last of `segments`. Without segments
/// there is no name.
pub fn last_segment(segments: Option<Vec<String>>) -> (out: Option<String>)
    ensures
        text_view(out) == naming_segment(segments_view(segments)),
{
    match segments {
        Some(texts) => {
            let mut rest = texts;
            rest.pop()
        },
        None => None,
    }
}

/// The file that a stored record is exported to: it is named by the last
/// path segment of the URL of the stored value and holds its payload.
pub open spec fn file_for<V: EntryValue>(
    cipher: Option<EncryptionMethod>,
    key: Seq<u8>,
    record: Seq<u8>,
) -> Result<(Seq<char>, Seq<u8>), FetchError> {
    match stored_value::<V>(cipher, key, record) {
        Err(e) => Err(e),
        Ok(value) => match url_file_name(V::url_of(value)) {
            None => Err(FetchError::Url),
            Some(name) => Ok((name, V::payload_of(value))),
        },
    }
}

/// The file of the given name and contents. Without a name there is no
/// file.
pub fn file_write(name: Option<String>, contents: Vec<u8>) -> (out: Result<FileWrite, FetchError>)
    ensures
        match name {
            Some(n) => out matches Ok(file) && file.name == n && file.contents == contents,
            None => out matches Err(e) && e == FetchError::Url,
        },
{
    match name {
        Some(name) => Ok(FileWrite { name, contents }),
        None => Err(FetchError::Url),
    }
}

/// The outcome of a pass from the outcomes of its entries, in the order of
/// the entries: the first error, if there is one.
pub fn first_error(outcomes: &Vec<Result<(), FetchError>>) -> (out: Result<(), FetchError>)
    ensures
        out is Ok <==> forall|i: int| 0 <= i < outcomes@.len() ==> outcomes@[i] is Ok,
        out matches Err(e) ==> exists|i: int|
            0 <= i < outcomes@.len() && #[trigger] outcomes@[i] == Err::<(), FetchError>(e)
                && forall|j: int| 0 <= j < i ==> outcomes@[j] is Ok,
{
    let mut i: usize = 0;
    while i < outcomes.len()
        invariant
            i <= outcomes@.len(),
            forall|j: int| 0 <= j < i ==> outcomes@[j] is Ok,
        decreases outcomes@.len() - i,
    {
        match outcomes[i] {
            Ok(()) => {},
            Err(e) => {
                assert(outcomes@[i as int] == Err::<(), FetchError>(e));
                return Err(e);
            },
        }
        i = i + 1;
    }
    Ok(())
}

/// Whether two byte strings are the same.
fn same_bytes(a: &[u8], b: &[u8]) -> (same: bool)
    ensures
        same == (a@ == b@),
{
    if a.len() != b.len() {
        return false;
    }
    let mut i: usize = 0;
    while i < a.len()
        invariant
            i <= a@.len(),
            a@.len() == b@.len(),
            forall|j: int| 0 <= j < i ==> a@[j] == b@[j],
        decreases a@.len() - i,
    {
        if a[i] != b[i] {
            return false;
        }
        i = i + 1;
    }
    assert(a@ =~= b@);
    true
}

/// Whether the entry at `place` is the first of the list with its key.
pub open spec fn first_of_key<E: Entry>(entries: Seq<E>, place: int) -> bool {
    &&& 0 <= place < entries.len()
    &&& forall|j: int| 0 <= j < place ==> key_bytes(#[trigger] entries[j]) != key_bytes(entries[place])
}

/// The key of the entry at the place that `places` holds at `at`.
pub open spec fn place_key<E: Entry>(entries: Seq<E>, places: Seq<usize>, at: int) -> Seq<u8> {
    key_bytes(entries[places[at] as int])
}

/// Whether one of `places` is the place of an entry with the given key.
pub open spec fn covers_key<E: Entry>(entries: Seq<E>, places: Seq<usize>, key: Seq<u8>) -> bool {
    exists|a: int| 0 <= a < places.len() && #[trigger] place_key(entries, places, a) == key
}

/// Whether `places` holds, in rising order, just the places below `upto`
/// of the entries that are the first with their key.
pub open spec fn picks_firsts_upto<E: Entry>(entries: Seq<E>, places: Seq<usize>, upto: int) -> bool {
    &&& forall|a: int|
        0 <= a < places.len() ==> (#[trigger] places[a]) < upto && first_of_key(
            entries,
            places[a] as int,
        )
    &&& forall|a: int, b: int| 0 <= a < b < places.len() ==> #[trigger] places[a] < #[trigger] places[b]
    &&& forall|i: int|
        0 <= i < upto && #[trigger] first_of_key(entries, i) ==> places.contains(i as usize)
}

/// Whether `places` holds, in rising order, just the places of the entries
/// that are the first with their key.
pub open spec fn picks_firsts<E: Entry>(entries: Seq<E>, places: Seq<usize>) -> bool {
    picks_firsts_upto(entries, places, entries.len() as int)
}

/// The place of an item of `keys` that is `key`, if there is one.
fn seen_before(keys: &Vec<Vec<u8>>, key: &[u8]) -> (seen: Option<usize>)
    ensures
        seen matches Some(j) ==> j < keys@.len() && keys@[j as int]@ == key@,
        seen is None ==> forall|e: int| 0 <= e < keys@.len() ==> (#[trigger] keys@[e])@ != key@,
{
    let mut j: usize = 0;
    while j < keys.len()
        invariant
            j <= keys@.len(),
            forall|e: int| 0 <= e < j ==> (#[trigger] keys@[e])@ != key@,
        decreases keys@.len() - j,
    {
        if same_bytes(keys[j].as_slice(), key) {
            return Some(j);
        }
        j = j + 1;
    }
    None
}

/// Taking the place `i` into the list if its entry is the first with its
/// key, and passing it over otherwise, keeps the list to the first places.
proof fn lemma_picks_next<E: Entry>(entries: Seq<E>, before: Seq<usize>, after: Seq<usize>, i: int)
    requires
        0 <= i < entries.len(),
        i <= usize::MAX,
        picks_firsts_upto(entries, before, i),
        first_of_key(entries, i) ==> after == before.push(i as usize),
        !first_of_key(entries, i) ==> after == before,
    ensures
        picks_firsts_upto(entries, after, i + 1),
{
    assert forall|e: int| 0 <= e < i + 1 && #[trigger] first_of_key(entries, e) implies after.contains(
        e as usize,
    ) by {
        if e < i {
            assert(before.contains(e as usize));
            let a = choose|a: int| 0 <= a < before.len() && before[a] == e as usize;
            assert(after[a] == e as usize);
        } else {
            assert(after[before.len() as int] == e as usize);
        }
    }
}

/// The first places cover every key of the list, each once.
pub proof fn lemma_firsts_cover<E: Entry>(entries: Seq<E>, places: Seq<usize>)
    requires
        picks_firsts(entries, places),
        entries.len() <= usize::MAX,
    ensures
        forall|a: int, b: int|
            0 <= a < b < places.len() ==> #[trigger] place_key(entries, places, a)
                != #[trigger] place_key(entries, places, b),
        forall|i: int|
            0 <= i < entries.len() ==> covers_key(entries, places, key_bytes(#[trigger] entries[i])),
{
    assert forall|a: int, b: int| 0 <= a < b < places.len() implies #[trigger] place_key(
        entries,
        places,
        a,
    ) != #[trigger] place_key(entries, places, b) by {
        assert(places[a] < places[b]);
        assert(first_of_key(entries, places[b] as int));
    }
    assert forall|i: int| 0 <= i < entries.len() implies covers_key(
        entries,
        places,
        key_bytes(#[trigger] entries[i]),
    ) by {
        let a = lemma_key_is_covered(entries, places, i);
        assert(place_key(entries, places, a) == key_bytes(entries[i]));
    }
}

/// A place among the first places whose entry has the key of the entry at
/// `i`.
proof fn lemma_key_is_covered<E: Entry>(entries: Seq<E>, places: Seq<usize>, i: int) -> (a: int)
    requires
        picks_firsts(entries, places),
        entries.len() <= usize::MAX,
        0 <= i < entries.len(),
    ensures
        0 <= a < places.len(),
        place_key(entries, places, a) == key_bytes(entries[i]),
    decreases i,
{
    if first_of_key(entries, i) {
        assert(places.contains(i as usize));
        let a = choose|a: int| 0 <= a < places.len() && places[a] == i as usize;
        a
    } else {
        let j = choose|j: int| 0 <= j < i && key_bytes(#[trigger] entries[j]) == key_bytes(entries[i]);
        lemma_key_is_covered(entries, places, j)
    }
}

/// What the consumer of a channel does with a message.
#[derive(Debug, Clone)]
pub enum Consumed {
    /// Perform this operation on the store.
    Store(StoreOp),
    /// Proceed as for any entry.
    Plan(EntryPlan),
}

/// Fetches the artifacts of a list of entries and caches them.
#[derive(Debug, Clone)]
pub struct Fetcher<E: Entry> {
    entries: Vec<E>,
    config_type: Mode,
    response_method: ResponseMethod,
    notify_method: NotifyMethod,
    encryption_method: Option<EncryptionMethod>,
}

impl<E: Entry> Fetcher<E> {
    /// The entries.
    pub closed spec fn entries_of(&self) -> Seq<E> {
        self.entries@
    }

    /// The format of the configuration file.
    pub closed spec fn config_type_of(&self) -> Mode {
        self.config_type
    }

    /// How bodies are read.
    pub closed spec fn response_method_of(&self) -> ResponseMethod {
        self.response_method
    }

    /// How the user is told of progress.
    pub closed spec fn notify_method_of(&self) -> NotifyMethod {
        self.notify_method
    }

    /// The cipher that records are sealed with, if any.
    pub closed spec fn cipher_of(&self) -> Option<EncryptionMethod> {
        self.encryption_method
    }

    /// A coordinator for `entries`, which were read from a configuration
    /// file of the given format. Bodies are read in one piece, progress is
    /// logged and records are stored unsealed until set otherwise.
    pub fn new(entries: Vec<E>, config_type: Mode) -> (out: Self)
        ensures
            out.entries_of() == entries@,
            out.config_type_of() == config_type,
            out.response_method_of() == ResponseMethod::Bytes,
            out.notify_method_of() == NotifyMethod::Log,
            out.cipher_of() is None,
    {
        Fetcher {
            entries,
            config_type,
            response_method: ResponseMethod::Bytes,
            notify_method: NotifyMethod::Log,
            encryption_method: None,
        }
    }

    /// The entries.
    pub fn entries(&self) -> (out: &[E])
        ensures
            out@ == self.entries_of(),
    {
        self.entries.as_slice()
    }

    /// The format of the configuration file.
    pub fn config_type(&self) -> (out: Mode)
        ensures
            out == self.config_type_of(),
    {
        self.config_type
    }

    /// How bodies are read.
    pub fn response_method(&self) -> (out: ResponseMethod)
        ensures
            out == self.response_method_of(),
    {
        self.response_method
    }

    /// How the user is told of progress.
    pub fn notify_method(&self) -> (out: NotifyMethod)
        ensures
            out == self.notify_method_of(),
    {
        self.notify_method
    }

    /// The cipher that records are sealed with, if any.
    pub fn encryption_method(&self) -> (out: Option<EncryptionMethod>)
        ensures
            out == self.cipher_of(),
    {
        self.encryption_method
    }

    /// Sets how bodies are read.
    pub fn set_response_method(&mut self, response_method: ResponseMethod)
        ensures
            final(self).response_method_of() == response_method,
            final(self).entries_of() == old(self).entries_of(),
            final(self).config_type_of() == old(self).config_type_of(),
            final(self).notify_method_of() == old(self).notify_method_of(),
            final(self).cipher_of() == old(self).cipher_of(),
    {
        self.response_method = response_method;
    }

    /// Sets how the user is told of progress. A progress bar can only be
    /// asked for once bodies are read in pieces.
    pub fn set_notify_method(&mut self, notify_method: NotifyMethod)
        requires
            compatible(old(self).response_method_of(), notify_method),
        ensures
            final(self).notify_method_of() == notify_method,
            final(self).entries_of() == old(self).entries_of(),
            final(self).config_type_of() == old(self).config_type_of(),
            final(self).response_method_of() == old(self).response_method_of(),
            final(self).cipher_of() == old(self).cipher_of(),
    {
        self.notify_method = notify_method;
    }

    /// Sets the cipher that records are sealed with from now on.
    pub fn set_encryption_method(&mut self, encryption_method: EncryptionMethod)
        ensures
            final(self).cipher_of() == Some(encryption_method),
            final(self).entries_of() == old(self).entries_of(),
            final(self).config_type_of() == old(self).config_type_of(),
            final(self).response_method_of() == old(self).response_method_of(),
            final(self).notify_method_of() == old(self).notify_method_of(),
    {
        self.encryption_method = Some(encryption_method);
    }

    /// Puts another list of entries in place of the present one, as after
    /// the configuration file was read again.
    pub fn set_entries(&mut self, entries: Vec<E>)
        ensures
            final(self).entries_of() == entries@,
            final(self).config_type_of() == old(self).config_type_of(),
            final(self).response_method_of() == old(self).response_method_of(),
            final(self).notify_method_of() == old(self).notify_method_of(),
            final(self).cipher_of() == old(self).cipher_of(),
    {
        self.entries = entries;
    }

    /// What to do for `entry` when the store holds `prior` under its key.
    ///
    /// With no record the payload is fetched. With a record of the same
    /// identity nothing is fetched, whatever else of the entry has changed.
    /// With a record of another identity the payload is fetched again. A
    /// record that cannot be opened or decoded fails the entry.
    pub fn handle_entry(&self, entry: &E, prior: &Option<Vec<u8>>) -> (out: Result<
        EntryPlan,
        FetchError,
    >)
        ensures
            match decision::<E::Value>(
                self.cipher_of(),
                key_bytes(*entry),
                entry.value_of(),
                record_view(*prior),
            ) {
                Err(e) => (out matches Err(err) && err == e),
                Ok(d) => out matches Ok(plan) && plan.decision == d && plan.notice == notice_for(
                    self.notify_method_of(),
                    d,
                ) && plan.label@ == <E::Key as EntryKey>::label_of(entry.key_of()) && text_view(
                    plan.request,
                ) == if d == Decision::Hit {
                    None
                } else {
                    Some(<E::Value as EntryValue>::url_of(entry.value_of()))
                },
            },
    {
        let key = entry.key();
        let value = entry.value();
        let decision = match prior {
            None => Decision::Miss,
            Some(record) => {
                let key_bytes = key.bytes();
                let plain = match dec_or_clone(
                    &self.encryption_method,
                    record.as_slice(),
                    key_bytes.as_slice(),
                ) {
                    Ok(plain) => plain,
                    Err(e) => {
                        return Err(FetchError::Crypto(e));
                    },
                };
                match E::Value::from_bytes(plain.as_slice()) {
                    None => {
                        return Err(FetchError::Store);
                    },
                    Some(old) => if value.is_same(&old) {
                        Decision::Hit
                    } else {
                        Decision::Stale
                    },
                }
            },
        };
        let notice = match self.notify_method {
            NotifyMethod::Log => match decision {
                Decision::Hit => Some(Notice::Cached),
                _ => Some(Notice::Caching),
            },
            _ => None,
        };
        let request = match decision {
            Decision::Hit => None,
            _ => Some(value.url()),
        };
        Ok(EntryPlan { decision, notice, request, label: key.label() })
    }

    /// The operation that stores the body of a download for `entry`, when
    /// `prior` is what was read under its key before the download.
    ///
    /// The record holds the value of the entry with `body` as its payload,
    /// sealed under the key bytes where a cipher is set. It is inserted
    /// where nothing was read, and otherwise swapped in against what was
    /// read, so that a writer that came in between is not overwritten.
    /// Without a cipher this cannot fail.
    pub fn store_response(&self, entry: &E, prior: Option<Vec<u8>>, body: &[u8]) -> (out: Result<
        StoreOp,
        FetchError,
    >)
        ensures
            out matches Ok(op) ==> exists|record: Seq<u8>|
                #![trigger holds_fetched(self.cipher_of(), *entry, body@, record)]
                holds_fetched(self.cipher_of(), *entry, body@, record) && op@ == Write::storing(
                    key_bytes(*entry),
                    record_view(prior),
                    record,
                ),
            out matches Err(e) ==> self.cipher_of() is Some && (e matches FetchError::Crypto(c)
                && if key_bytes(*entry).len() != KEY_SIZE {
                c == CryptoError::KeyLength
            } else {
                c == CryptoError::Entropy || c == CryptoError::Seal
            }),
            self.cipher_of() is Some && key_bytes(*entry).len() != KEY_SIZE ==> out is Err,
    {
        let key = entry.key();
        let mut value = entry.value();
        value.set_response(body);
        let key_bytes = key.bytes();
        let plain = value.bytes();
        proof {
            <E::Value as EntryValue>::lemma_decoding_inverts(value@);
        }
        match encrypt_bytes(&self.encryption_method, plain.as_slice(), key_bytes.as_slice()) {
            Ok(record) => {
                assert(holds_fetched(self.cipher_of(), *entry, body@, record@));
                Ok(write_for(key_bytes, prior, record))
            },
            Err(e) => Err(FetchError::Crypto(e)),
        }
    }

    /// The operation that `store_response` gives when the record is sealed
    /// with `nonce`. Without a cipher the nonce plays no part.
    pub fn store_response_with_nonce(
        &self,
        entry: &E,
        prior: Option<Vec<u8>>,
        body: &[u8],
        nonce: &[u8; 12],
    ) -> (out: Result<StoreOp, FetchError>)
        ensures
            match record_sealed(
                self.cipher_of(),
                key_bytes(*entry),
                nonce@,
                <E::Value as EntryValue>::encoding(fetched_value(*entry, body@)),
            ) {
                Ok(record) => out matches Ok(op) && op@ == Write::storing(
                    key_bytes(*entry),
                    record_view(prior),
                    record,
                ) && holds_fetched(self.cipher_of(), *entry, body@, record),
                Err(e) => (out matches Err(err) && err == FetchError::Crypto(e)),
            },
    {
        let key = entry.key();
        let mut value = entry.value();
        value.set_response(body);
        let key_bytes = key.bytes();
        let plain = value.bytes();
        proof {
            <E::Value as EntryValue>::lemma_decoding_inverts(value@);
        }
        match encrypt_bytes_with_nonce(
            &self.encryption_method,
            plain.as_slice(),
            key_bytes.as_slice(),
            nonce,
        ) {
            Ok(record) => {
                assert(self.cipher_of() is Some ==> record@.subrange(0, NONCE_SIZE as int)
                    =~= nonce@);
                Ok(write_for(key_bytes, prior, record))
            },
            Err(e) => Err(FetchError::Crypto(e)),
        }
    }

    /// The places of the entries that a pass handles: of the entries that
    /// share a key the first, so that no two downloads for one key are ever
    /// under way. The places come in the order of the list, and each key of
    /// the list is the key of just one of them.
    pub fn first_of_each_key(&self) -> (places: Vec<usize>)
        ensures
            picks_firsts(self.entries_of(), places@),
            forall|a: int, b: int|
                0 <= a < b < places@.len() ==> #[trigger] place_key(self.entries_of(), places@, a)
                    != #[trigger] place_key(self.entries_of(), places@, b),
            forall|i: int|
                0 <= i < self.entries_of().len() ==> covers_key(
                    self.entries_of(),
                    places@,
                    key_bytes(#[trigger] self.entries_of()[i]),
                ),
    {
        let mut keys: Vec<Vec<u8>> = Vec::new();
        let mut places: Vec<usize> = Vec::new();
        let mut i: usize = 0;
        while i < self.entries.len()
            invariant
                i <= self.entries@.len(),
                keys@.len() == i,
                forall|j: int| 0 <= j < i ==> (#[trigger] keys@[j])@ == key_bytes(self.entries@[j]),
                picks_firsts_upto(self.entries@, places@, i as int),
            decreases self.entries@.len() - i,
        {
            let key = self.entries[i].key().bytes();
            let seen = seen_before(&keys, key.as_slice());
            let ghost before = places@;
            proof {
                let entries = self.entries@;
                if seen is None {
                    assert forall|e: int| 0 <= e < i implies key_bytes(#[trigger] entries[e])
                        != key_bytes(entries[i as int]) by {
                        assert(keys@[e]@ == key_bytes(entries[e]));
                    }
                } else {
                    let j = seen->Some_0 as int;
                    assert(keys@[j]@ == key_bytes(entries[j]));
                    assert(key_bytes(entries[j]) == key_bytes(entries[i as int]));
                }
            }
            if seen.is_none() {
                places.push(i);
            }
            keys.push(key);
            proof {
                lemma_picks_next(self.entries@, before, places@, i as int);
            }
            i = i + 1;
        }
        proof {
            lemma_firsts_cover(self.entries@, places@);
        }
        places
    }

    /// The number of messages that the channel between producers and
    /// consumer holds, and the number of producers at work at a time: one
    /// for each entry.
    pub fn channel_capacity(&self) -> (out: usize)
        ensures
            out == self.entries_of().len(),
    {
        self.entries.len()
    }

    /// What a producer does for `entry` once it knows whether the store has
    /// a record under its key: where there is none it fetches the URL that
    /// is handed out and posts the body, otherwise it posts the entry
    /// alone.
    pub fn produce(&self, entry: &E, present: bool) -> (request: Option<String>)
        ensures
            text_view(request) == if present {
                None
            } else {
                Some(<E::Value as EntryValue>::url_of(entry.value_of()))
            },
    {
        if present {
            None
        } else {
            Some(entry.value().url())
        }
    }

    /// What the consumer does with the message that a producer posted for
    /// `entry`. With a payload, the record is inserted. Without one, the
    /// consumer reads the store again and proceeds as for any entry with
    /// what it finds, `prior`.
    pub fn consume(&self, entry: &E, payload: Option<Vec<u8>>, prior: &Option<Vec<u8>>) -> (out:
        Result<Consumed, FetchError>)
        ensures
            payload matches Some(body) ==> (out matches Ok(Consumed::Store(op)) ==> exists|
                record: Seq<u8>,
            |
                #![trigger holds_fetched(self.cipher_of(), *entry, body@, record)]
                holds_fetched(self.cipher_of(), *entry, body@, record) && op@ == (Write::Insert {
                    key: key_bytes(*entry),
                    value: record,
                })) && (out matches Err(e) ==> self.cipher_of() is Some && (e matches FetchError::Crypto(
                c,
            ) && if key_bytes(*entry).len() != KEY_SIZE {
                c == CryptoError::KeyLength
            } else {
                c == CryptoError::Entropy || c == CryptoError::Seal
            })) && !(out matches Ok(Consumed::Plan(_))),
            payload is None ==> match decision::<E::Value>(
                self.cipher_of(),
                key_bytes(*entry),
                entry.value_of(),
                record_view(*prior),
            ) {
                Err(e) => (out matches Err(err) && err == e),
                Ok(d) => out matches Ok(Consumed::Plan(plan)) && plan.decision == d && plan.notice
                    == notice_for(self.notify_method_of(), d) && text_view(plan.request) == if d
                    == Decision::Hit {
                    None
                } else {
                    Some(<E::Value as EntryValue>::url_of(entry.value_of()))
                },
            },
    {
        match payload {
            Some(body) => match self.store_response(entry, None, body.as_slice()) {
                Ok(op) => Ok(Consumed::Store(op)),
                Err(e) => Err(e),
            },
            None => match self.handle_entry(entry, prior) {
                Ok(plan) => Ok(Consumed::Plan(plan)),
                Err(e) => Err(e),
            },
        }
    }

    /// The value that the store holds under `key`, when `stored` is the
    /// record that was read there.
    pub fn get<K: EntryKey, V: EntryValue>(&self, key: K, stored: &Option<Vec<u8>>) -> (out: Result<
        Option<V>,
        FetchError,
    >)
        ensures
            match record_view(*stored) {
                None => out matches Ok(None),
                Some(record) => match stored_value::<V>(self.cipher_of(), K::bytes_of(key@), record) {
                    Ok(value) => out matches Ok(Some(v)) && v@ == value,
                    Err(e) => (out matches Err(err) && err == e),
                },
            },
    {
        match stored {
            None => Ok(None),
            Some(record) => {
                let key_bytes = key.bytes();
                match open_value::<V>(
                    &self.encryption_method,
                    key_bytes.as_slice(),
                    record.as_slice(),
                ) {
                    Ok(value) => Ok(Some(value)),
                    Err(e) => Err(e),
                }
            },
        }
    }

    /// The keys and values of the store, when `stored` is what the store
    /// holds, in the order given. Each record is opened under its own key.
    /// The first key or record that cannot be read fails the call.
    pub fn pairs<K: EntryKey, V: EntryValue>(&self, stored: &Vec<(Vec<u8>, Vec<u8>)>) -> (out:
        Result<Vec<(K, V)>, FetchError>)
        ensures
            out matches Ok(list) ==> list@.len() == stored@.len() && forall|i: int|
                0 <= i < stored@.len() ==> pair_for::<K, V>(
                    self.cipher_of(),
                    stored@[i].0@,
                    stored@[i].1@,
                ) == Ok::<(K::V, V::V), FetchError>((#[trigger] list@[i].0@, list@[i].1@)),
            out matches Err(e) ==> exists|i: int|
                0 <= i < stored@.len() && #[trigger] pair_for::<K, V>(
                    self.cipher_of(),
                    stored@[i].0@,
                    stored@[i].1@,
                ) == Err::<(K::V, V::V), FetchError>(e) && forall|j: int|
                    0 <= j < i ==> (#[trigger] pair_for::<K, V>(
                        self.cipher_of(),
                        stored@[j].0@,
                        stored@[j].1@,
                    )) is Ok,
    {
        let mut list: Vec<(K, V)> = Vec::new();
        let mut i: usize = 0;
        while i < stored.len()
            invariant
                i <= stored@.len(),
                list@.len() == i,
                forall|j: int|
                    0 <= j < i ==> (#[trigger] pair_for::<K, V>(
                        self.cipher_of(),
                        stored@[j].0@,
                        stored@[j].1@,
                    )) is Ok,
                forall|j: int|
                    0 <= j < i ==> pair_for::<K, V>(
                        self.cipher_of(),
                        stored@[j].0@,
                        stored@[j].1@,
                    ) == Ok::<(K::V, V::V), FetchError>((#[trigger] list@[j].0@, list@[j].1@)),
            decreases stored@.len() - i,
        {
            let key = match K::from_bytes(stored[i].0.as_slice()) {
                Some(key) => key,
                None => {
                    assert(pair_for::<K, V>(self.cipher_of(), stored@[i as int].0@, stored@[i as int].1@)
                        == Err::<(K::V, V::V), FetchError>(FetchError::Store));
                    return Err(FetchError::Store);
                },
            };
            let value = match open_value::<V>(
                &self.encryption_method,
                stored[i].0.as_slice(),
                stored[i].1.as_slice(),
            ) {
                Ok(value) => value,
                Err(e) => {
                    assert(pair_for::<K, V>(self.cipher_of(), stored@[i as int].0@, stored@[i as int].1@)
                        == Err::<(K::V, V::V), FetchError>(e));
                    return Err(e);
                },
            };
            list.push((key, value));
            i = i + 1;
        }
        Ok(list)
    }

    /// The operation that takes away what is under `key`.
    pub fn remove<K: EntryKey>(&self, key: K) -> (op: StoreOp)
        ensures
            op@ == (Write::Remove { key: K::bytes_of(key@) }),
    {
        StoreOp::Remove { key: key.bytes() }
    }

    /// The operation that empties the store.
    pub fn clear(&self) -> (op: StoreOp)
        ensures
            op@ == Write::Clear,
    {
        StoreOp::Clear
    }

    /// The operation that puts `value` under `key`, when `prior` is what
    /// was read there. Nothing is done where nothing is stored or what is
    /// stored has the identity of `value`; otherwise the record of `value`
    /// is swapped in against what was read.
    pub fn update<K: EntryKey, V: EntryValue>(&self, key: K, value: V, prior: Option<Vec<u8>>) -> (out:
        Result<StoreOp, FetchError>)
        ensures
            match decision::<V>(self.cipher_of(), K::bytes_of(key@), value@, record_view(prior)) {
                Err(e) => (out matches Err(err) && err == e),
                Ok(Decision::Stale) => (out matches Ok(op) ==> exists|record: Seq<u8>|
                    #![trigger holds_value::<V>(self.cipher_of(), K::bytes_of(key@), value@, record)]
                    holds_value::<V>(self.cipher_of(), K::bytes_of(key@), value@, record) && op@
                        == Write::storing(
                        K::bytes_of(key@),
                        record_view(prior),
                        record,
                    )) && (out matches Err(e) ==> self.cipher_of() is Some && (e
                    == FetchError::Crypto(CryptoError::Entropy) || e == FetchError::Crypto(
                    CryptoError::Seal,
                ))),
                Ok(_) => out matches Ok(op) && op@ == Write::Keep,
            },
    {
        let key_bytes = key.bytes();
        match prior {
            None => Ok(StoreOp::Keep),
            Some(record) => {
                let old = match open_value::<V>(
                    &self.encryption_method,
                    key_bytes.as_slice(),
                    record.as_slice(),
                ) {
                    Ok(old) => old,
                    Err(e) => {
                        return Err(e);
                    },
                };
                if value.is_same(&old) {
                    Ok(StoreOp::Keep)
                } else {
                    let plain = value.bytes();
                    proof {
                        V::lemma_decoding_inverts(value@);
                    }
                    match encrypt_bytes(
                        &self.encryption_method,
                        plain.as_slice(),
                        key_bytes.as_slice(),
                    ) {
                        Ok(fresh) => {
                            assert(holds_value::<V>(
                                self.cipher_of(),
                                K::bytes_of(key@),
                                value@,
                                fresh@,
                            ));
                            Ok(write_for(key_bytes, Some(record), fresh))
                        },
                        Err(e) => Err(FetchError::Crypto(e)),
                    }
                }
            },
        }
    }

    /// The file that the record of `entry` is exported to.
    pub fn materialize(&self, entry: &E, record: &[u8]) -> (out: Result<FileWrite, FetchError>)
        ensures
            match file_for::<E::Value>(self.cipher_of(), key_bytes(*entry), record@) {
                Ok(file) => out matches Ok(f) && f.name@ == file.0 && f.contents@ == file.1,
                Err(e) => (out matches Err(err) && err == e),
            },
    {
        let key_bytes = entry.key().bytes();
        let value = match open_value::<E::Value>(
            &self.encryption_method,
            key_bytes.as_slice(),
            record,
        ) {
            Ok(value) => value,
            Err(e) => {
                return Err(e);
            },
        };
        let url = value.url();
        let name = last_segment(path_segments_of(url.as_str()));
        file_write(name, vstd::slice::slice_to_vec(value.response()))
    }

    /// The files that the cache is exported to, one for each entry in the
    /// order of the entries, when `records[i]` is the record that the store
    /// holds for the entry at `i`. The first record that gives no file
    /// fails the call.
    pub fn write_all(&self, records: &Vec<Vec<u8>>) -> (out: Result<Vec<FileWrite>, FetchError>)
        requires
            records@.len() == self.entries_of().len(),
        ensures
            out matches Ok(files) ==> files@.len() == records@.len() && forall|i: int|
                0 <= i < records@.len() ==> file_for::<E::Value>(
                    self.cipher_of(),
                    key_bytes(self.entries_of()[i]),
                    records@[i]@,
                ) == Ok::<(Seq<char>, Seq<u8>), FetchError>(
                    (#[trigger] files@[i].name@, files@[i].contents@),
                ),
            out matches Err(e) ==> exists|i: int|
                0 <= i < records@.len() && #[trigger] file_for::<E::Value>(
                    self.cipher_of(),
                    key_bytes(self.entries_of()[i]),
                    records@[i]@,
                ) == Err::<(Seq<char>, Seq<u8>), FetchError>(e) && forall|j: int|
                    0 <= j < i ==> (#[trigger] file_for::<E::Value>(
                        self.cipher_of(),
                        key_bytes(self.entries_of()[j]),
                        records@[j]@,
                    )) is Ok,
    {
        let mut files: Vec<FileWrite> = Vec::new();
        let mut i: usize = 0;
        while i < records.len()
            invariant
                i <= records@.len(),
                records@.len() == self.entries_of().len(),
                files@.len() == i,
                forall|j: int|
                    0 <= j < i ==> (#[trigger] file_for::<E::Value>(
                        self.cipher_of(),
                        key_bytes(self.entries_of()[j]),
                        records@[j]@,
                    )) is Ok,
                forall|j: int|
                    0 <= j < i ==> file_for::<E::Value>(
                        self.cipher_of(),
                        key_bytes(self.entries_of()[j]),
                        records@[j]@,
                    ) == Ok::<(Seq<char>, Seq<u8>), FetchError>(
                        (#[trigger] files@[j].name@, files@[j].contents@),
                    ),
            decreases records@.len() - i,
        {
            match self.materialize(&self.entries[i], records[i].as_slice()) {
                Ok(file) => {
                    files.push(file);
                },
                Err(e) => {
                    assert(file_for::<E::Value>(
                        self.cipher_of(),
                        key_bytes(self.entries_of()[i as int]),
                        records@[i as int]@,
                    ) == Err::<(Seq<char>, Seq<u8>), FetchError>(e));
                    return Err(e);
                },
            }
            i = i + 1;
        }
        Ok(files)
    }
}

/// The key and the value of a stored pair.
pub open spec fn pair_for<K: EntryKey, V: EntryValue>(
    cipher: Option<EncryptionMethod>,
    key: Seq<u8>,
    record: Seq<u8>,
) -> Result<(K::V, V::V), FetchError> {
    match K::key_of(key) {
        None => Err(FetchError::Store),
        Some(k) => match stored_value::<V>(cipher, key, record) {
            Err(e) => Err(e),
            Ok(v) => Ok((k, v)),
        },
    }
}

/// The value that the stored record `record` holds under `key`.
pub fn open_value<V: EntryValue>(cipher: &Option<EncryptionMethod>, key: &[u8], record: &[u8]) -> (out:
    Result<V, FetchError>)
    ensures
        match stored_value::<V>(*cipher, key@, record@) {
            Ok(value) => out matches Ok(v) && v@ == value,
            Err(e) => (out matches Err(err) && err == e),
        },
{
    let plain = match dec_or_clone(cipher, record, key) {
        Ok(plain) => plain,
        Err(e) => {
            return Err(FetchError::Crypto(e));
        },
    };
    match V::from_bytes(plain.as_slice()) {
        Some(value) => Ok(value),
        None => Err(FetchError::Store),
    }
}

} // verus!
