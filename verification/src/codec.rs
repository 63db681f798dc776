//! The framing of fields in a cached value.
//!
//! A field is written as the number of its bytes, a 64-bit little-endian
//! integer, followed by the bytes themselves; a text field holds its UTF-8
//! encoding. A value is the frames of its fields, one after the other, which
//! is the layout that `bincode` gives a struct of strings and byte vectors.
//! The frames themselves are written and read by `bincode`.

use vstd::bytes::*;
use vstd::prelude::*;
use vstd::slice::*;
use vstd::utf8::*;

verus! {

/// The number of bytes in front of a field that hold its length.
pub const LEN_PREFIX: usize = 8;

/// A byte field as it is written: its length, then its content.
pub open spec fn frame(content: Seq<u8>) -> Seq<u8> {
    spec_u64_to_le_bytes(content.len() as u64) + content
}

/// A text field as it is written: the frame of its UTF-8 encoding.
pub open spec fn frame_text(text: Seq<char>) -> Seq<u8> {
    frame(encode_utf8(text))
}

/// The length that the first eight bytes of `bytes` announce.
pub open spec fn announced_len(bytes: Seq<u8>) -> int {
    spec_u64_from_le_bytes(bytes.subrange(0, 8)) as int
}

/// Whether `bytes` starts with a whole frame.
pub open spec fn starts_with_frame(bytes: Seq<u8>) -> bool {
    bytes.len() >= 8 && announced_len(bytes) <= bytes.len() - 8
}

/// The content of the frame that `bytes` starts with.
pub open spec fn leading_content(bytes: Seq<u8>) -> Option<Seq<u8>> {
    if starts_with_frame(bytes) {
        Some(bytes.subrange(8, 8 + announced_len(bytes)))
    } else {
        None
    }
}

/// The text of the frame that `bytes` starts with; there is none where the
/// content is not UTF-8.
pub open spec fn leading_text(bytes: Seq<u8>) -> Option<Seq<char>> {
    match leading_content(bytes) {
        Some(content) => if valid_utf8(content) {
            Some(decode_utf8(content))
        } else {
            None
        },
        None => None,
    }
}

/// What follows the frame that `bytes` starts with.
pub open spec fn after_frame(bytes: Seq<u8>) -> Seq<u8> {
    bytes.subrange(8 + announced_len(bytes), bytes.len() as int)
}

/// A frame in front of any bytes is read back as its content, and what
/// follows it is left over.
pub proof fn lemma_frame_read_back(content: Seq<u8>, rest: Seq<u8>)
    requires
        content.len() <= u64::MAX,
    ensures
        starts_with_frame(frame(content) + rest),
        leading_content(frame(content) + rest) == Some(content),
        after_frame(frame(content) + rest) == rest,
        frame(content).len() == 8 + content.len(),
{
    lemma_auto_spec_u64_to_from_le_bytes();
    let whole = frame(content) + rest;
    let prefix = spec_u64_to_le_bytes(content.len() as u64);
    assert(whole.subrange(0, 8) =~= prefix);
    assert(whole.subrange(8, 8 + content.len() as int) =~= content);
    assert(whole.subrange(8 + content.len() as int, whole.len() as int) =~= rest);
}

/// A text frame in front of any bytes is read back as its text.
pub proof fn lemma_text_frame_read_back(text: Seq<char>, rest: Seq<u8>)
    requires
        encode_utf8(text).len() <= u64::MAX,
    ensures
        leading_text(frame_text(text) + rest) == Some(text),
        after_frame(frame_text(text) + rest) == rest,
{
    lemma_frame_read_back(encode_utf8(text), rest);
    encode_utf8_valid_utf8(text);
    encode_utf8_decode_utf8(text);
}

/// Calls `bincode::serialize` on a byte slice. A slice is written as its
/// length, a 64-bit little-endian integer, and then its bytes one by one;
/// with no size limit set the call cannot fail.
#[verifier::external_body]
fn bincode_bytes(content: &[u8]) -> (out: Vec<u8>)
    ensures
        out@ == frame(content@),
{
    bincode::serialize(content).unwrap()
}

/// Calls `bincode::deserialize` for a `Vec<u8>`. It reads a 64-bit
/// little-endian length and then that many bytes, fails where the input
/// ends before that, and ignores what follows.
#[verifier::external_body]
fn bincode_read_bytes(bytes: &[u8]) -> (out: Option<Vec<u8>>)
    ensures
        out matches Some(content) ==> leading_content(bytes@) == Some(content@),
        out is None ==> leading_content(bytes@) is None,
{
    bincode::deserialize::<Vec<u8>>(bytes).ok()
}

/// Calls `String::from_utf8`, which gives the text that the bytes encode
/// and fails where they are not UTF-8.
#[verifier::external_body]
pub(crate) fn text_from_utf8(bytes: Vec<u8>) -> (out: Option<String>)
    ensures
        out matches Some(text) ==> valid_utf8(bytes@) && text@ == decode_utf8(bytes@),
        out is None ==> !valid_utf8(bytes@),
{
    String::from_utf8(bytes).ok()
}

/// Appends the frame of `content` to `out`.
pub fn put_bytes(out: &mut Vec<u8>, content: &[u8])
    ensures
        final(out)@ == old(out)@ + frame(content@),
{
    let framed = bincode_bytes(content);
    out.extend_from_slice(framed.as_slice());
    assert(out@ =~= old(out)@ + frame(content@));
}

/// Appends the frame of `text` to `out`.
pub fn put_text(out: &mut Vec<u8>, text: &str)
    ensures
        final(out)@ == old(out)@ + frame_text(text@),
{
    let framed = bincode_bytes(text.as_bytes());
    out.extend_from_slice(framed.as_slice());
    assert(out@ =~= old(out)@ + frame_text(text@));
}

/// A position in encoded bytes from which fields are read one by one.
pub struct FieldReader<'a> {
    bytes: &'a [u8],
    at: usize,
}

impl<'a> FieldReader<'a> {
    /// The bytes that have not been read yet.
    pub closed spec fn remaining(&self) -> Seq<u8> {
        self.bytes@.subrange(self.at as int, self.bytes@.len() as int)
    }

    /// Whether the position lies within the bytes.
    #[verifier::type_invariant]
    spec fn in_bounds(&self) -> bool {
        self.at <= self.bytes@.len()
    }

    /// A reader at the start of `bytes`.
    pub fn new(bytes: &'a [u8]) -> (reader: Self)
        ensures
            reader.remaining() == bytes@,
    {
        let reader = FieldReader { bytes, at: 0 };
        assert(reader.remaining() =~= bytes@);
        reader
    }

    /// Reads a byte field and moves past it. Where the bytes left do not
    /// start with a whole frame, nothing is read.
    pub fn take_bytes(&mut self) -> (out: Option<Vec<u8>>)
        ensures
            out matches Some(content) ==> leading_content(old(self).remaining()) == Some(content@)
                && final(self).remaining() == after_frame(old(self).remaining()),
            out is None ==> leading_content(old(self).remaining()) is None
                && final(self).remaining() == old(self).remaining(),
    {
        proof {
            use_type_invariant(&*self);
        }
        let rest = slice_subrange(self.bytes, self.at, self.bytes.len());
        match bincode_read_bytes(rest) {
            Some(content) => {
                let step: usize = LEN_PREFIX + content.len();
                self.at = self.at + step;
                assert(self.remaining() =~= after_frame(old(self).remaining()));
                Some(content)
            },
            None => None,
        }
    }

    /// Reads a text field and moves past it. Where the bytes left do not
    /// start with a whole frame of UTF-8, nothing is read.
    pub fn take_text(&mut self) -> (out: Option<String>)
        ensures
            out matches Some(text) ==> leading_text(old(self).remaining()) == Some(text@)
                && final(self).remaining() == after_frame(old(self).remaining()),
            out is None ==> leading_text(old(self).remaining()) is None
                && final(self).remaining() == old(self).remaining(),
    {
        proof {
            use_type_invariant(&*self);
        }
        let rest = slice_subrange(self.bytes, self.at, self.bytes.len());
        let content = match bincode_read_bytes(rest) {
            Some(content) => content,
            None => {
                return None;
            },
        };
        let step: usize = LEN_PREFIX + content.len();
        match text_from_utf8(content) {
            Some(text) => {
                self.at = self.at + step;
                assert(self.remaining() =~= after_frame(old(self).remaining()));
                Some(text)
            },
            None => None,
        }
    }
}

} // verus!
