//! What an artifact, its key, its value and a cipher have to offer.

use crate::codec::text_from_utf8;
use crate::error::CryptoError;
use rand::RngCore;
use vstd::prelude::*;
use vstd::slice::*;
use vstd::utf8::*;

verus! {

/// The number of bytes of the nonce in front of a sealed record.
pub const NONCE_SIZE: usize = 12;

/// The identity of an artifact, under which its record is cached.
pub trait EntryKey: View + Sized {
    /// The bytes under which the store files a key.
    spec fn bytes_of(key: Self::V) -> Seq<u8>;

    /// The key that stored bytes stand for, if they stand for one.
    spec fn key_of(bytes: Seq<u8>) -> Option<Self::V>;

    /// The key as it is shown in logs and on progress bars.
    spec fn label_of(key: Self::V) -> Seq<char>;

    /// The bytes of a key stand for that key: the same key is found under
    /// the same bytes from one run to the next.
    proof fn lemma_key_read_back(key: Self::V)
        ensures
            Self::key_of(Self::bytes_of(key)) == Some(key),
    ;

    /// The bytes under which the store files this key.
    fn bytes(&self) -> (out: Vec<u8>)
        ensures
            out@ == Self::bytes_of(self@),
    ;

    /// The key that stored bytes stand for.
    fn from_bytes(bytes: &[u8]) -> (out: Option<Self>)
        ensures
            out matches Some(key) ==> Self::key_of(bytes@) == Some(key@),
            out is None ==> Self::key_of(bytes@) is None,
    ;

    /// The key as it is shown in logs and on progress bars.
    fn label(&self) -> (out: String)
        ensures
            out@ == Self::label_of(self@),
    ;
}

/// What is cached for an artifact: where it is fetched from, the fields that
/// tell whether a cached payload is still the right one, and the payload.
pub trait EntryValue: View + Sized {
    /// The bytes that are cached for a value.
    spec fn encoding(value: Self::V) -> Seq<u8>;

    /// The value that cached bytes stand for, if they stand for one.
    spec fn decoding(bytes: Seq<u8>) -> Option<Self::V>;

    /// The URL that the payload is fetched from.
    spec fn url_of(value: Self::V) -> Seq<char>;

    /// The payload that a value carries.
    spec fn payload_of(value: Self::V) -> Seq<u8>;

    /// The value with another payload in place of its own.
    spec fn with_payload(value: Self::V, payload: Seq<u8>) -> Self::V;

    /// Whether two values describe the same release of an artifact, so that
    /// the payload cached for one serves for the other.
    spec fn same_identity(a: Self::V, b: Self::V) -> bool;

    /// Whether a value can be encoded: its fields are short enough for their
    /// lengths to be written down. Every value in memory is.
    spec fn encodable(value: Self::V) -> bool;

    /// Cached bytes are read back as the value they were written for.
    proof fn lemma_decoding_inverts(value: Self::V)
        requires
            Self::encodable(value),
        ensures
            Self::decoding(Self::encoding(value)) == Some(value),
    ;

    /// Identity is an equivalence.
    proof fn lemma_identity_equivalence(a: Self::V, b: Self::V, c: Self::V)
        ensures
            Self::same_identity(a, a),
            Self::same_identity(a, b) ==> Self::same_identity(b, a),
            Self::same_identity(a, b) && Self::same_identity(b, c) ==> Self::same_identity(a, c),
    ;

    /// The payload is no part of the identity, and setting it changes
    /// nothing else.
    proof fn lemma_payload_apart(value: Self::V, payload: Seq<u8>)
        ensures
            Self::payload_of(Self::with_payload(value, payload)) == payload,
            Self::url_of(Self::with_payload(value, payload)) == Self::url_of(value),
            Self::same_identity(value, Self::with_payload(value, payload)),
            Self::with_payload(value, Self::payload_of(value)) == value,
            Self::encodable(value) && payload.len() <= usize::MAX ==> Self::encodable(
                Self::with_payload(value, payload),
            ),
    ;

    /// The bytes that are cached for this value.
    fn bytes(&self) -> (out: Vec<u8>)
        ensures
            Self::encodable(self@),
            out@ == Self::encoding(self@),
    ;

    /// The value that cached bytes stand for.
    fn from_bytes(bytes: &[u8]) -> (out: Option<Self>)
        ensures
            out matches Some(value) ==> Self::decoding(bytes@) == Some(value@),
            out is None ==> Self::decoding(bytes@) is None,
    ;

    /// The URL that the payload is fetched from.
    fn url(&self) -> (out: String)
        ensures
            out@ == Self::url_of(self@),
    ;

    /// The payload.
    fn response(&self) -> (out: &[u8])
        ensures
            out@ == Self::payload_of(self@),
    ;

    /// Puts `response` in place of the payload.
    fn set_response(&mut self, response: &[u8])
        ensures
            final(self)@ == Self::with_payload(old(self)@, response@),
    ;

    /// Whether this value and `other` have the same identity.
    fn is_same(&self, other: &Self) -> (same: bool)
        ensures
            same == Self::same_identity(self@, other@),
    ;
}

/// An artifact to fetch and cache.
pub trait Entry: Sized {
    type Key: EntryKey;

    type Value: EntryValue;

    /// The key of an entry.
    spec fn key_of(&self) -> <Self::Key as View>::V;

    /// The value of an entry, before anything was fetched for it.
    spec fn value_of(&self) -> <Self::Value as View>::V;

    /// An entry starts out with an empty payload.
    proof fn lemma_value_starts_empty(&self)
        ensures
            <Self::Value as EntryValue>::payload_of(self.value_of()) == Seq::<u8>::empty(),
    ;

    /// The key of this entry.
    fn key(&self) -> (out: Self::Key)
        ensures
            out@ == self.key_of(),
    ;

    /// The value of this entry, with an empty payload.
    fn value(&self) -> (out: Self::Value)
        ensures
            out@ == self.value_of(),
    ;
}

impl EntryKey for String {
    open spec fn bytes_of(key: Seq<char>) -> Seq<u8> {
        encode_utf8(key)
    }

    open spec fn key_of(bytes: Seq<u8>) -> Option<Seq<char>> {
        if valid_utf8(bytes) {
            Some(decode_utf8(bytes))
        } else {
            None
        }
    }

    open spec fn label_of(key: Seq<char>) -> Seq<char> {
        key
    }

    proof fn lemma_key_read_back(key: Seq<char>) {
        encode_utf8_valid_utf8(key);
        encode_utf8_decode_utf8(key);
    }

    fn bytes(&self) -> (out: Vec<u8>) {
        slice_to_vec(self.as_str().as_bytes())
    }

    fn from_bytes(bytes: &[u8]) -> (out: Option<String>) {
        text_from_utf8(slice_to_vec(bytes))
    }

    fn label(&self) -> (out: String) {
        self.clone()
    }
}

/// An authenticated cipher that seals a plaintext under a key and a nonce
/// of `NONCE_SIZE` bytes.
pub trait EncryptionMethod: Sized {
    /// The number of bytes of a key.
    spec fn key_size() -> nat;

    /// The number of bytes by which a sealed text is longer than its
    /// plaintext.
    spec fn tag_size() -> nat;

    /// What sealing gives: the ciphertext with its tag, or nothing where the
    /// cipher refuses the plaintext.
    spec fn sealed(key: Seq<u8>, nonce: Seq<u8>, plaintext: Seq<u8>) -> Option<Seq<u8>>;

    /// What opening gives: the plaintext, or nothing where the tag does not
    /// fit.
    spec fn opened(key: Seq<u8>, nonce: Seq<u8>, sealed: Seq<u8>) -> Option<Seq<u8>>;

    /// The number of bytes of a key.
    fn key_len(&self) -> (len: usize)
        ensures
            len == Self::key_size(),
    ;

    /// Seals `plaintext`. What comes out opens again to the plaintext and is
    /// longer than it by the tag.
    fn seal(&self, key: &[u8], nonce: &[u8; 12], plaintext: &[u8]) -> (out: Option<Vec<u8>>)
        requires
            key@.len() == Self::key_size(),
        ensures
            out matches Some(text) ==> Self::sealed(key@, nonce@, plaintext@) == Some(text@)
                && Self::opened(key@, nonce@, text@) == Some(plaintext@) && text@.len()
                == plaintext@.len() + Self::tag_size(),
            out is None ==> Self::sealed(key@, nonce@, plaintext@) is None,
    ;

    /// Opens `sealed`.
    fn open(&self, key: &[u8], nonce: &[u8; 12], sealed: &[u8]) -> (out: Option<Vec<u8>>)
        requires
            key@.len() == Self::key_size(),
        ensures
            out matches Some(text) ==> Self::opened(key@, nonce@, sealed@) == Some(text@),
            out is None ==> Self::opened(key@, nonce@, sealed@) is None,
    ;
}

/// The record that sealing `data` under `key` and `nonce` gives: the nonce,
/// then the ciphertext with its tag.
pub open spec fn encrypted<C: EncryptionMethod>(
    key: Seq<u8>,
    nonce: Seq<u8>,
    data: Seq<u8>,
) -> Result<Seq<u8>, CryptoError> {
    if key.len() != C::key_size() {
        Err(CryptoError::KeyLength)
    } else {
        match C::sealed(key, nonce, data) {
            Some(text) => Ok(nonce + text),
            None => Err(CryptoError::Seal),
        }
    }
}

/// The plaintext that opening the record `data` under `key` gives. The
/// first `NONCE_SIZE` bytes of a record are its nonce.
pub open spec fn decrypted<C: EncryptionMethod>(key: Seq<u8>, data: Seq<u8>) -> Result<
    Seq<u8>,
    CryptoError,
> {
    if key.len() != C::key_size() {
        Err(CryptoError::KeyLength)
    } else if data.len() < NONCE_SIZE {
        Err(CryptoError::Envelope)
    } else {
        match C::opened(
            key,
            data.subrange(0, NONCE_SIZE as int),
            data.subrange(NONCE_SIZE as int, data.len() as int),
        ) {
            Some(text) => Ok(text),
            None => Err(CryptoError::Tag),
        }
    }
}

/// Calls `OsRng::try_fill_bytes`, which fills the buffer with random bytes
/// of the operating system or fails. Nothing is known of the bytes that
/// come back.
#[verifier::external_body]
fn fill_random(buffer: &mut [u8; 12]) -> (filled: bool) {
    rand::rngs::OsRng.try_fill_bytes(buffer).is_ok()
}

/// A nonce of random bytes, if the operating system gives any.
fn fresh_nonce() -> (out: Option<[u8; 12]>) {
    let mut nonce: [u8; 12] = [0u8; 12];
    if fill_random(&mut nonce) {
        Some(nonce)
    } else {
        None
    }
}

/// Seals `data` under `key` and the given nonce and hands out the record:
/// the nonce, then the ciphertext with its tag.
pub fn encrypt_with_nonce<C: EncryptionMethod>(
    cipher: &C,
    data: &[u8],
    key: &[u8],
    nonce: &[u8; 12],
) -> (out: Result<Vec<u8>, CryptoError>)
    ensures
        out matches Ok(record) ==> encrypted::<C>(key@, nonce@, data@) == Ok::<
            Seq<u8>,
            CryptoError,
        >(record@) && decrypted::<C>(key@, record@) == Ok::<Seq<u8>, CryptoError>(data@)
            && record@.len() == NONCE_SIZE + data@.len() + C::tag_size(),
        out matches Err(e) ==> encrypted::<C>(key@, nonce@, data@) == Err::<Seq<u8>, CryptoError>(
            e,
        ),
{
    if key.len() != cipher.key_len() {
        return Err(CryptoError::KeyLength);
    }
    let sealed = cipher.seal(key, nonce, data);
    let out = seal_record(nonce, sealed);
    proof {
        if out is Ok {
            let record = out->Ok_0@;
            assert(record.subrange(0, NONCE_SIZE as int) =~= nonce@);
            assert(record.subrange(NONCE_SIZE as int, record.len() as int) =~= sealed->Some_0@);
        }
    }
    out
}

/// The record for a sealed text: the nonce, then the text. Where sealing
/// gave nothing, there is no record.
pub fn seal_record(nonce: &[u8; 12], sealed: Option<Vec<u8>>) -> (out: Result<Vec<u8>, CryptoError>)
    ensures
        match sealed {
            Some(text) => out matches Ok(record) && record@ == nonce@ + text@,
            None => out == Err::<Vec<u8>, CryptoError>(CryptoError::Seal),
        },
{
    match sealed {
        Some(text) => {
            let mut record: Vec<u8> = Vec::new();
            record.extend_from_slice(nonce.as_slice());
            record.extend_from_slice(text.as_slice());
            assert(record@ =~= nonce@ + text@);
            Ok(record)
        },
        None => Err(CryptoError::Seal),
    }
}

/// The nonce and the sealed text of a record: its first `NONCE_SIZE` bytes
/// and the rest. A shorter record has neither.
pub fn split_record(record: &[u8]) -> (out: Option<([u8; 12], &[u8])>)
    ensures
        record@.len() < NONCE_SIZE ==> out is None,
        record@.len() >= NONCE_SIZE ==> (out matches Some(parts) && parts.0@ == record@.subrange(
            0,
            NONCE_SIZE as int,
        ) && parts.1@ == record@.subrange(NONCE_SIZE as int, record@.len() as int)),
{
    if record.len() < NONCE_SIZE {
        return None;
    }
    let nonce = nonce_of(record);
    let sealed = slice_subrange(record, NONCE_SIZE, record.len());
    Some((nonce, sealed))
}

/// Seals `data` under `key` with a fresh random nonce.
pub fn encrypt_generic<C: EncryptionMethod>(cipher: &C, data: &[u8], key: &[u8]) -> (out: Result<
    Vec<u8>,
    CryptoError,
>)
    ensures
        key@.len() != C::key_size() ==> out == Err::<Vec<u8>, CryptoError>(CryptoError::KeyLength),
        out matches Ok(record) ==> encrypted::<C>(
            key@,
            record@.subrange(0, NONCE_SIZE as int),
            data@,
        ) == Ok::<Seq<u8>, CryptoError>(record@) && decrypted::<C>(key@, record@) == Ok::<
            Seq<u8>,
            CryptoError,
        >(data@) && record@.len() == NONCE_SIZE + data@.len() + C::tag_size(),
        out matches Err(e) ==> if key@.len() != C::key_size() {
            e == CryptoError::KeyLength
        } else {
            e == CryptoError::Entropy || (e == CryptoError::Seal && exists|nonce: Seq<u8>|
                nonce.len() == NONCE_SIZE && (#[trigger] encrypted::<C>(key@, nonce, data@)) is Err)
        },
{
    if key.len() != cipher.key_len() {
        return Err(CryptoError::KeyLength);
    }
    match fresh_nonce() {
        Some(nonce) => {
            let out = encrypt_with_nonce(cipher, data, key, &nonce);
            assert(out matches Ok(record) ==> record@.subrange(0, NONCE_SIZE as int) =~= nonce@);
            out
        },
        None => Err(CryptoError::Entropy),
    }
}

/// Opens the record `data` under `key`: its first `NONCE_SIZE` bytes are
/// the nonce, the rest is the ciphertext with its tag.
pub fn decrypt_generic<C: EncryptionMethod>(cipher: &C, data: &[u8], key: &[u8]) -> (out: Result<
    Vec<u8>,
    CryptoError,
>)
    ensures
        out matches Ok(text) ==> decrypted::<C>(key@, data@) == Ok::<Seq<u8>, CryptoError>(text@),
        out matches Err(e) ==> decrypted::<C>(key@, data@) == Err::<Seq<u8>, CryptoError>(e),
{
    if key.len() != cipher.key_len() {
        return Err(CryptoError::KeyLength);
    }
    match split_record(data) {
        None => Err(CryptoError::Envelope),
        Some((nonce, sealed)) => match cipher.open(key, &nonce, sealed) {
            Some(text) => Ok(text),
            None => Err(CryptoError::Tag),
        },
    }
}

/// The nonce in front of a record.
fn nonce_of(record: &[u8]) -> (nonce: [u8; 12])
    requires
        record@.len() >= NONCE_SIZE,
    ensures
        nonce@ == record@.subrange(0, NONCE_SIZE as int),
{
    let mut nonce: [u8; 12] = [0u8; 12];
    let mut i: usize = 0;
    while i < NONCE_SIZE
        invariant
            i <= NONCE_SIZE,
            record@.len() >= NONCE_SIZE,
            forall|j: int| 0 <= j < i ==> nonce@[j] == record@[j],
        decreases NONCE_SIZE - i,
    {
        nonce[i] = record[i];
        i = i + 1;
    }
    assert(nonce@ =~= record@.subrange(0, NONCE_SIZE as int));
    nonce
}

} // verus!
