//! The two values that come with the crate: one for an artifact with a
//! version and a URL, one for an asset of a GitHub release.

use crate::codec::{
    after_frame, frame, frame_text, leading_content, leading_text, lemma_frame_read_back,
    lemma_text_frame_read_back, put_bytes, put_text, FieldReader,
};
use crate::traits::EntryValue;
use vstd::prelude::*;
use vstd::slice::*;
use vstd::string::*;
use vstd::utf8::*;

verus! {

/// What is cached for an artifact that is named by a version and fetched
/// from a URL of its own.
#[derive(Debug, Clone)]
pub struct SimpleValue {
    version: String,
    url: String,
    response: Vec<u8>,
}

/// A `SimpleValue` as plain data.
pub struct SimpleValueView {
    pub version: Seq<char>,
    pub url: Seq<char>,
    pub response: Seq<u8>,
}

impl View for SimpleValue {
    type V = SimpleValueView;

    closed spec fn view(&self) -> SimpleValueView {
        SimpleValueView { version: self.version@, url: self.url@, response: self.response@ }
    }
}

/// What is cached for an asset of a GitHub release.
#[derive(Debug, Clone)]
pub struct GHValue {
    owner: String,
    repo: String,
    tag: String,
    asset: String,
    response: Vec<u8>,
}

/// A `GHValue` as plain data.
pub struct GHValueView {
    pub owner: Seq<char>,
    pub repo: Seq<char>,
    pub tag: Seq<char>,
    pub asset: Seq<char>,
    pub response: Seq<u8>,
}

impl View for GHValue {
    type V = GHValueView;

    closed spec fn view(&self) -> GHValueView {
        GHValueView {
            owner: self.owner@,
            repo: self.repo@,
            tag: self.tag@,
            asset: self.asset@,
            response: self.response@,
        }
    }
}

/// Whether the UTF-8 encoding of a text is short enough for its length to
/// be written down.
pub open spec fn text_fits(text: Seq<char>) -> bool {
    encode_utf8(text).len() <= u64::MAX
}

/// The URL from which an asset of a GitHub release is downloaded.
pub open spec fn github_url(
    owner: Seq<char>,
    repo: Seq<char>,
    tag: Seq<char>,
    asset: Seq<char>,
) -> Seq<char> {
    "https://github.com/"@ + owner + "/"@ + repo + "/releases/download/"@ + tag + "/"@ + asset
}

/// The text of an exec string fits.
fn text_len(text: &String) -> (len: usize)
    ensures
        len == encode_utf8(text@).len(),
        text_fits(text@),
{
    text.as_str().as_bytes().len()
}

impl SimpleValue {
    /// A value with an empty payload.
    pub fn new(version: String, url: String) -> (out: Self)
        ensures
            out@ == (SimpleValueView { version: version@, url: url@, response: Seq::empty() }),
    {
        Self { version, url, response: Vec::new() }
    }
}

impl GHValue {
    /// A value with an empty payload.
    pub fn new(owner: String, repo: String, tag: String, asset: String) -> (out: Self)
        ensures
            out@ == (GHValueView {
                owner: owner@,
                repo: repo@,
                tag: tag@,
                asset: asset@,
                response: Seq::empty(),
            }),
    {
        Self { owner, repo, tag, asset, response: Vec::new() }
    }

    /// The URL from which the asset is downloaded.
    pub fn fmt_url(&self) -> (out: String)
        ensures
            out@ == github_url(self@.owner, self@.repo, self@.tag, self@.asset),
    {
        let mut out = String::from_str("https://github.com/");
        out.append(self.owner.as_str());
        out.append("/");
        out.append(self.repo.as_str());
        out.append("/releases/download/");
        out.append(self.tag.as_str());
        out.append("/");
        out.append(self.asset.as_str());
        out
    }
}

impl EntryValue for SimpleValue {
    open spec fn encoding(value: SimpleValueView) -> Seq<u8> {
        frame_text(value.version) + frame_text(value.url) + frame(value.response)
    }

    open spec fn decoding(bytes: Seq<u8>) -> Option<SimpleValueView> {
        let after_version = after_frame(bytes);
        let after_url = after_frame(after_version);
        match (leading_text(bytes), leading_text(after_version), leading_content(after_url)) {
            (Some(version), Some(url), Some(response)) => Some(
                SimpleValueView { version, url, response },
            ),
            _ => None,
        }
    }

    open spec fn url_of(value: SimpleValueView) -> Seq<char> {
        value.url
    }

    open spec fn payload_of(value: SimpleValueView) -> Seq<u8> {
        value.response
    }

    open spec fn with_payload(value: SimpleValueView, payload: Seq<u8>) -> SimpleValueView {
        SimpleValueView { response: payload, ..value }
    }

    open spec fn same_identity(a: SimpleValueView, b: SimpleValueView) -> bool {
        a.version == b.version
    }

    open spec fn encodable(value: SimpleValueView) -> bool {
        text_fits(value.version) && text_fits(value.url) && value.response.len() <= u64::MAX
    }

    proof fn lemma_decoding_inverts(value: SimpleValueView) {
        let tail = frame_text(value.url) + frame(value.response);
        assert(Self::encoding(value) =~= frame_text(value.version) + tail);
        lemma_text_frame_read_back(value.version, tail);
        lemma_text_frame_read_back(value.url, frame(value.response));
        assert(frame(value.response) =~= frame(value.response) + Seq::<u8>::empty());
        lemma_frame_read_back(value.response, Seq::<u8>::empty());
    }

    proof fn lemma_identity_equivalence(a: SimpleValueView, b: SimpleValueView, c: SimpleValueView) {
    }

    proof fn lemma_payload_apart(value: SimpleValueView, payload: Seq<u8>) {
    }

    fn bytes(&self) -> (out: Vec<u8>) {
        let mut out: Vec<u8> = Vec::new();
        let _ = text_len(&self.version);
        let _ = text_len(&self.url);
        put_text(&mut out, self.version.as_str());
        put_text(&mut out, self.url.as_str());
        put_bytes(&mut out, self.response.as_slice());
        assert(out@ =~= Self::encoding(self@));
        let _: usize = self.response.len();
        out
    }

    fn from_bytes(bytes: &[u8]) -> (out: Option<Self>) {
        let mut reader = FieldReader::new(bytes);
        let version = reader.take_text();
        let url = reader.take_text();
        let response = reader.take_bytes();
        match (version, url, response) {
            (Some(version), Some(url), Some(response)) => Some(Self { version, url, response }),
            _ => None,
        }
    }

    fn url(&self) -> (out: String) {
        self.url.clone()
    }

    fn response(&self) -> (out: &[u8]) {
        self.response.as_slice()
    }

    fn set_response(&mut self, response: &[u8]) {
        self.response = slice_to_vec(response);
    }

    fn is_same(&self, other: &Self) -> (same: bool) {
        self.version == other.version
    }
}

impl EntryValue for GHValue {
    open spec fn encoding(value: GHValueView) -> Seq<u8> {
        frame_text(value.owner) + frame_text(value.repo) + frame_text(value.tag) + frame_text(
            value.asset,
        ) + frame(value.response)
    }

    open spec fn decoding(bytes: Seq<u8>) -> Option<GHValueView> {
        let after_owner = after_frame(bytes);
        let after_repo = after_frame(after_owner);
        let after_tag = after_frame(after_repo);
        let after_asset = after_frame(after_tag);
        match (
            leading_text(bytes),
            leading_text(after_owner),
            leading_text(after_repo),
            leading_text(after_tag),
            leading_content(after_asset),
        ) {
            (Some(owner), Some(repo), Some(tag), Some(asset), Some(response)) => Some(
                GHValueView { owner, repo, tag, asset, response },
            ),
            _ => None,
        }
    }

    open spec fn url_of(value: GHValueView) -> Seq<char> {
        github_url(value.owner, value.repo, value.tag, value.asset)
    }

    open spec fn payload_of(value: GHValueView) -> Seq<u8> {
        value.response
    }

    open spec fn with_payload(value: GHValueView, payload: Seq<u8>) -> GHValueView {
        GHValueView { response: payload, ..value }
    }

    open spec fn same_identity(a: GHValueView, b: GHValueView) -> bool {
        a.owner == b.owner && a.repo == b.repo && a.tag == b.tag && a.asset == b.asset
    }

    open spec fn encodable(value: GHValueView) -> bool {
        text_fits(value.owner) && text_fits(value.repo) && text_fits(value.tag) && text_fits(
            value.asset,
        ) && value.response.len() <= u64::MAX
    }

    proof fn lemma_decoding_inverts(value: GHValueView) {
        let tail_asset = frame(value.response);
        let tail_tag = frame_text(value.asset) + tail_asset;
        let tail_repo = frame_text(value.tag) + tail_tag;
        let tail_owner = frame_text(value.repo) + tail_repo;
        assert(Self::encoding(value) =~= frame_text(value.owner) + tail_owner);
        lemma_text_frame_read_back(value.owner, tail_owner);
        lemma_text_frame_read_back(value.repo, tail_repo);
        lemma_text_frame_read_back(value.tag, tail_tag);
        lemma_text_frame_read_back(value.asset, tail_asset);
        assert(tail_asset =~= frame(value.response) + Seq::<u8>::empty());
        lemma_frame_read_back(value.response, Seq::<u8>::empty());
    }

    proof fn lemma_identity_equivalence(a: GHValueView, b: GHValueView, c: GHValueView) {
    }

    proof fn lemma_payload_apart(value: GHValueView, payload: Seq<u8>) {
    }

    fn bytes(&self) -> (out: Vec<u8>) {
        let mut out: Vec<u8> = Vec::new();
        let _ = text_len(&self.owner);
        let _ = text_len(&self.repo);
        let _ = text_len(&self.tag);
        let _ = text_len(&self.asset);
        put_text(&mut out, self.owner.as_str());
        put_text(&mut out, self.repo.as_str());
        put_text(&mut out, self.tag.as_str());
        put_text(&mut out, self.asset.as_str());
        put_bytes(&mut out, self.response.as_slice());
        assert(out@ =~= Self::encoding(self@));
        let _: usize = self.response.len();
        out
    }

    fn from_bytes(bytes: &[u8]) -> (out: Option<Self>) {
        let mut reader = FieldReader::new(bytes);
        let owner = reader.take_text();
        let repo = reader.take_text();
        let tag = reader.take_text();
        let asset = reader.take_text();
        let response = reader.take_bytes();
        match (owner, repo, tag, asset, response) {
            (Some(owner), Some(repo), Some(tag), Some(asset), Some(response)) => Some(
                Self { owner, repo, tag, asset, response },
            ),
            _ => None,
        }
    }

    fn url(&self) -> (out: String) {
        self.fmt_url()
    }

    fn response(&self) -> (out: &[u8]) {
        self.response.as_slice()
    }

    fn set_response(&mut self, response: &[u8]) {
        self.response = slice_to_vec(response);
    }

    fn is_same(&self, other: &Self) -> (same: bool) {
        self.owner == other.owner && self.repo == other.repo && self.tag == other.tag
            && self.asset == other.asset
    }
}

} // verus!
