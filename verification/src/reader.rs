//! Putting the body of a response together.
//!
//! The caller pulls the pieces of a body from the network, in one piece, in
//! chunks or as a stream, and hands each to a `BodyReader`. The reader
//! collects the body and says where a progress bar stands after each piece.
//! However the pieces arrive, the body is the pieces in the order of their
//! arrival.

use crate::fetcher::ResponseMethod;
use vstd::prelude::*;

verus! {

/// The template of the progress bar of a download: the name of the entry,
/// a bar of forty places, the bytes that have arrived, the bytes that were
/// announced, and the time left.
pub const BAR_TEMPLATE: &'static str = "[{msg}] [{bar:40}] {bytes}/{total_bytes} ({eta})";

/// Collects the body of one response.
pub struct BodyReader {
    method: ResponseMethod,
    total: u64,
    body: Vec<u8>,
}

/// Whether bodies read in this way arrive in pieces, so that a progress
/// bar is shown for them.
pub open spec fn in_pieces(method: ResponseMethod) -> bool {
    method == ResponseMethod::Chunk || method == ResponseMethod::BytesStream
}

impl BodyReader {
    /// How the body is read.
    pub closed spec fn method_of(&self) -> ResponseMethod {
        self.method
    }

    /// The length that the progress bar runs to.
    pub closed spec fn total_of(&self) -> u64 {
        self.total
    }

    /// What has arrived so far.
    pub closed spec fn body_of(&self) -> Seq<u8> {
        self.body@
    }

    /// A reader for a response that announces `content_length` bytes. A
    /// response that announces nothing is taken to announce none.
    pub fn new(method: ResponseMethod, content_length: Option<u64>) -> (out: Self)
        ensures
            out.method_of() == method,
            out.total_of() == match content_length {
                Some(len) => len,
                None => 0,
            },
            out.body_of() == Seq::<u8>::empty(),
    {
        let total: u64 = match content_length {
            Some(len) => len,
            None => 0,
        };
        BodyReader { method, total, body: Vec::new() }
    }

    /// The length that the progress bar runs to.
    pub fn total(&self) -> (out: u64)
        ensures
            out == self.total_of(),
    {
        self.total
    }

    /// Whether a progress bar is shown for this body.
    pub fn shows_progress(&self) -> (out: bool)
        ensures
            out == in_pieces(self.method_of()),
    {
        match self.method {
            ResponseMethod::Bytes => false,
            ResponseMethod::Chunk => true,
            ResponseMethod::BytesStream => true,
        }
    }

    /// Takes the next piece of the body. Where a progress bar is shown, the
    /// position to set it to is handed out: the number of bytes that have
    /// arrived.
    pub fn push(&mut self, piece: &[u8]) -> (position: Option<u64>)
        ensures
            final(self).body_of() == old(self).body_of() + piece@,
            final(self).method_of() == old(self).method_of(),
            final(self).total_of() == old(self).total_of(),
            position == if in_pieces(old(self).method_of()) {
                Some((old(self).body_of().len() + piece@.len()) as u64)
            } else {
                None
            },
    {
        self.body.extend_from_slice(piece);
        assert(self.body@ =~= old(self).body@ + piece@);
        let downloaded: usize = self.body.len();
        match self.method {
            ResponseMethod::Bytes => None,
            _ => Some(downloaded as u64),
        }
    }

    /// The body, once the last piece has arrived.
    pub fn finish(self) -> (body: Vec<u8>)
        ensures
            body@ == self.body_of(),
    {
        self.body
    }
}

} // verus!
