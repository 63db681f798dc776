//! The cache as the engine sees it: a map from key bytes to records, the
//! operations that change it, and the sealing of records.
//!
//! The store itself is kept by the caller. The engine is handed the records
//! that the caller read and hands back the operations to perform.

use crate::encryption::{EncryptionMethod, KEY_SIZE, TAG_SIZE};
use crate::error::CryptoError;
use crate::traits::NONCE_SIZE;
use vstd::prelude::*;
use vstd::slice::*;

verus! {

/// What a store holds: a record under each key that is present.
pub type Contents = Map<Seq<u8>, Seq<u8>>;

/// An operation on the store.
#[derive(Debug, Clone, PartialEq, Eq)]
pub enum StoreOp {
    /// Leave the store as it is.
    Keep,
    /// Put `value` under `key`, whatever was there.
    Insert { key: Vec<u8>, value: Vec<u8> },
    /// Put `desired` under `key` if the store still holds `expected` there,
    /// and do nothing otherwise. That another writer came first is no
    /// error.
    CompareAndSwap { key: Vec<u8>, expected: Vec<u8>, desired: Vec<u8> },
    /// Take away what is under `key`.
    Remove { key: Vec<u8> },
    /// Take away everything.
    Clear,
}

/// An operation on the store as plain data.
pub enum Write {
    /// Leave the store as it is.
    Keep,
    /// Put `value` under `key`.
    Insert { key: Seq<u8>, value: Seq<u8> },
    /// Put `desired` under `key` if `expected` is there.
    CompareAndSwap { key: Seq<u8>, expected: Seq<u8>, desired: Seq<u8> },
    /// Take away what is under `key`.
    Remove { key: Seq<u8> },
    /// Take away everything.
    Clear,
}

impl View for StoreOp {
    type V = Write;

    open spec fn view(&self) -> Write {
        match *self {
            StoreOp::Keep => Write::Keep,
            StoreOp::Insert { key, value } => Write::Insert { key: key@, value: value@ },
            StoreOp::CompareAndSwap { key, expected, desired } => Write::CompareAndSwap {
                key: key@,
                expected: expected@,
                desired: desired@,
            },
            StoreOp::Remove { key } => Write::Remove { key: key@ },
            StoreOp::Clear => Write::Clear,
        }
    }
}

impl Write {
    /// What the store holds after the operation.
    pub open spec fn apply(self, contents: Contents) -> Contents {
        match self {
            Write::Keep => contents,
            Write::Insert { key, value } => contents.insert(key, value),
            Write::CompareAndSwap { key, expected, desired } => if lookup(contents, key) == Some(
                expected,
            ) {
                contents.insert(key, desired)
            } else {
                contents
            },
            Write::Remove { key } => contents.remove(key),
            Write::Clear => Map::empty(),
        }
    }

    /// The key that the operation writes a record under, and the record.
    pub open spec fn written(self) -> Option<(Seq<u8>, Seq<u8>)> {
        match self {
            Write::Insert { key, value } => Some((key, value)),
            Write::CompareAndSwap { key, expected, desired } => Some((key, desired)),
            _ => None,
        }
    }

    /// The operation that stores `record` under `key` after `prior` was
    /// read there: an insert where nothing was there, and otherwise a swap
    /// against what was read.
    pub open spec fn storing(key: Seq<u8>, prior: Option<Seq<u8>>, record: Seq<u8>) -> Write {
        match prior {
            Some(expected) => Write::CompareAndSwap { key, expected, desired: record },
            None => Write::Insert { key, value: record },
        }
    }
}

/// What is under `key`, if anything.
pub open spec fn lookup(contents: Contents, key: Seq<u8>) -> Option<Seq<u8>> {
    if contents.contains_key(key) {
        Some(contents[key])
    } else {
        None
    }
}

/// The bytes of an optional record.
pub open spec fn record_view(record: Option<Vec<u8>>) -> Option<Seq<u8>> {
    match record {
        Some(bytes) => Some(bytes@),
        None => None,
    }
}

/// An operation changes nothing under a key that it does not write or
/// remove.
pub proof fn lemma_other_keys_untouched(op: Write, contents: Contents, key: Seq<u8>)
    requires
        match op {
            Write::Keep => true,
            Write::Insert { key: k, .. } => k != key,
            Write::CompareAndSwap { key: k, .. } => k != key,
            Write::Remove { key: k } => k != key,
            Write::Clear => false,
        },
    ensures
        lookup(op.apply(contents), key) == lookup(contents, key),
{
}

/// Storing a record after reading what was under its key puts the record
/// there.
pub proof fn lemma_write_lands(contents: Contents, key: Seq<u8>, record: Seq<u8>)
    ensures
        lookup(Write::storing(key, lookup(contents, key), record).apply(contents), key) == Some(
            record,
        ),
        Write::storing(key, lookup(contents, key), record).apply(contents) == contents.insert(
            key,
            record,
        ),
{
}

/// A swap whose expectation is out of date changes nothing.
pub proof fn lemma_lost_race(contents: Contents, key: Seq<u8>, expected: Seq<u8>, desired: Seq<u8>)
    requires
        lookup(contents, key) != Some(expected),
    ensures
        (Write::CompareAndSwap { key, expected, desired }).apply(contents) == contents,
{
}

/// The operation that stores `record` under `key`: an insert where nothing
/// was there, and otherwise a swap against the record that was read.
pub fn write_for(key: Vec<u8>, prior: Option<Vec<u8>>, record: Vec<u8>) -> (op: StoreOp)
    ensures
        op@ == Write::storing(key@, record_view(prior), record@),
{
    match prior {
        Some(expected) => StoreOp::CompareAndSwap { key, expected, desired: record },
        None => StoreOp::Insert { key, value: record },
    }
}

/// The record that is stored for `plain` when it is sealed with `nonce`:
/// the sealed record under a cipher, `plain` itself without one.
pub open spec fn record_sealed(
    cipher: Option<EncryptionMethod>,
    key: Seq<u8>,
    nonce: Seq<u8>,
    plain: Seq<u8>,
) -> Result<Seq<u8>, CryptoError> {
    match cipher {
        Some(method) => method.encrypted(key, nonce, plain),
        None => Ok(plain),
    }
}

/// What a stored record holds: what it opens to under a cipher, the record
/// itself without one.
pub open spec fn record_opened(cipher: Option<EncryptionMethod>, key: Seq<u8>, record: Seq<u8>) -> Result<
    Seq<u8>,
    CryptoError,
> {
    match cipher {
        Some(method) => method.decrypted(key, record),
        None => Ok(record),
    }
}

/// The number of bytes of the record that is stored for a plaintext of
/// `len` bytes.
pub open spec fn record_len(cipher: Option<EncryptionMethod>, len: nat) -> nat {
    match cipher {
        Some(_) => NONCE_SIZE as nat + len + TAG_SIZE as nat,
        None => len,
    }
}

/// The record to store for `bytes`, sealed with the given nonce where a
/// cipher is set.
pub fn encrypt_bytes_with_nonce(
    cipher: &Option<EncryptionMethod>,
    bytes: &[u8],
    key: &[u8],
    nonce: &[u8; 12],
) -> (out: Result<Vec<u8>, CryptoError>)
    ensures
        out matches Ok(record) ==> record_sealed(*cipher, key@, nonce@, bytes@) == Ok::<
            Seq<u8>,
            CryptoError,
        >(record@) && record_opened(*cipher, key@, record@) == Ok::<Seq<u8>, CryptoError>(bytes@)
            && record@.len() == record_len(*cipher, bytes@.len()),
        out matches Err(e) ==> record_sealed(*cipher, key@, nonce@, bytes@) == Err::<
            Seq<u8>,
            CryptoError,
        >(e),
{
    match cipher {
        Some(method) => method.encrypt_with_nonce(bytes, key, nonce),
        None => Ok(slice_to_vec(bytes)),
    }
}

/// The record to store for `bytes`. Under a cipher it is sealed with a
/// fresh random nonce, which is its first `NONCE_SIZE` bytes; without one
/// it is `bytes`. Either way it opens to `bytes` again.
pub fn encrypt_bytes(cipher: &Option<EncryptionMethod>, bytes: &[u8], key: &[u8]) -> (out: Result<
    Vec<u8>,
    CryptoError,
>)
    ensures
        *cipher is None ==> (out matches Ok(record) && record@ == bytes@),
        *cipher is Some && key@.len() != KEY_SIZE ==> out == Err::<Vec<u8>, CryptoError>(
            CryptoError::KeyLength,
        ),
        out matches Ok(record) ==> record_opened(*cipher, key@, record@) == Ok::<
            Seq<u8>,
            CryptoError,
        >(bytes@) && record@.len() == record_len(*cipher, bytes@.len()) && (*cipher is Some
            ==> record_sealed(*cipher, key@, record@.subrange(0, NONCE_SIZE as int), bytes@)
            == Ok::<Seq<u8>, CryptoError>(record@)),
        out matches Err(e) ==> *cipher is Some && if key@.len() != KEY_SIZE {
            e == CryptoError::KeyLength
        } else {
            e == CryptoError::Entropy || (e == CryptoError::Seal && exists|nonce: Seq<u8>|
                nonce.len() == NONCE_SIZE && (#[trigger] record_sealed(
                    *cipher,
                    key@,
                    nonce,
                    bytes@,
                )) is Err)
        },
{
    match cipher {
        Some(method) => {
            let out = method.encrypt(bytes, key);
            proof {
                if out is Err && key@.len() == KEY_SIZE && out->Err_0 == CryptoError::Seal {
                    let nonce = choose|nonce: Seq<u8>|
                        nonce.len() == NONCE_SIZE && (#[trigger] method.encrypted(
                            key@,
                            nonce,
                            bytes@,
                        )) is Err;
                    assert(record_sealed(*cipher, key@, nonce, bytes@) is Err);
                }
            }
            out
        },
        None => Ok(slice_to_vec(bytes)),
    }
}

/// What the stored record `value` holds: what it opens to under a cipher,
/// a copy of it without one.
pub fn dec_or_clone(cipher: &Option<EncryptionMethod>, value: &[u8], key: &[u8]) -> (out: Result<
    Vec<u8>,
    CryptoError,
>)
    ensures
        out matches Ok(plain) ==> record_opened(*cipher, key@, value@) == Ok::<
            Seq<u8>,
            CryptoError,
        >(plain@),
        out matches Err(e) ==> record_opened(*cipher, key@, value@) == Err::<Seq<u8>, CryptoError>(
            e,
        ),
{
    match cipher {
        Some(method) => method.decrypt(value, key),
        None => Ok(slice_to_vec(value)),
    }
}

} // verus!
