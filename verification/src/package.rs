//! The two kinds of entry that come with the crate, and the list of entries
//! that a configuration file holds.

use crate::traits::Entry;
use crate::val::{GHValue, GHValueView, SimpleValue, SimpleValueView};
use vstd::prelude::*;
use vstd::string::*;

verus! {

/// An artifact with a name, a version and a URL. The name is its key; a
/// cached payload serves as long as the version is the same.
#[derive(Debug, Clone)]
pub struct SimplePackage {
    name: String,
    version: String,
    url: String,
}

/// An asset of a GitHub release. Its key names asset, owner, repository and
/// tag; a cached payload serves as long as all four are the same.
#[derive(Debug, Clone)]
pub struct GHPackage {
    owner: String,
    repo: String,
    tag: String,
    asset: String,
}

/// The entries of a configuration file, in the order in which it lists
/// them.
#[derive(Debug, Clone)]
pub struct Config<PK> {
    packages: Vec<PK>,
}

/// The format of a configuration file.
#[derive(Debug, Clone, Copy, PartialEq, Eq, Structural)]
pub enum Mode {
    /// JSON.
    Json,
    /// TOML.
    Toml,
}

/// Whether `semver::Version::parse` accepts a text.
pub uninterp spec fn is_semver(text: Seq<char>) -> bool;

/// Calls `semver::Version::parse`, which accepts the texts of the form
/// `MAJOR.MINOR.PATCH` with an optional pre-release after `-` and optional
/// build metadata after `+`; whether it does is a function of the text.
#[verifier::external_body]
fn semver_parses(text: &str) -> (ok: bool)
    ensures
        ok == is_semver(text@),
{
    semver::Version::parse(text).is_ok()
}

/// The key of an asset of a GitHub release.
pub open spec fn github_key(
    owner: Seq<char>,
    repo: Seq<char>,
    tag: Seq<char>,
    asset: Seq<char>,
) -> Seq<char> {
    asset + " "@ + owner + "/"@ + repo + " ["@ + tag + "]"@
}

impl SimplePackage {
    /// The name.
    pub closed spec fn name_of(&self) -> Seq<char> {
        self.name@
    }

    /// The version.
    pub closed spec fn version_of(&self) -> Seq<char> {
        self.version@
    }

    /// The URL.
    pub closed spec fn url_of(&self) -> Seq<char> {
        self.url@
    }

    /// A package of the given name, version and URL.
    pub fn new(name: String, version: String, url: String) -> (out: Self)
        ensures
            out.name_of() == name@,
            out.version_of() == version@,
            out.url_of() == url@,
    {
        Self { name, version, url }
    }

    /// The name.
    pub fn name(&self) -> (out: &str)
        ensures
            out@ == self.name_of(),
    {
        self.name.as_str()
    }

    /// The version.
    pub fn version(&self) -> (out: &str)
        ensures
            out@ == self.version_of(),
    {
        self.version.as_str()
    }

    /// The URL.
    pub fn url(&self) -> (out: &str)
        ensures
            out@ == self.url_of(),
    {
        self.url.as_str()
    }

    /// Whether the version is a semantic version.
    pub fn verify_valid_version(&self) -> (ok: bool)
        ensures
            ok == is_semver(self.version_of()),
    {
        semver_parses(self.version.as_str())
    }
}

impl Entry for SimplePackage {
    type Key = String;

    type Value = SimpleValue;

    open spec fn key_of(&self) -> Seq<char> {
        self.name_of()
    }

    open spec fn value_of(&self) -> SimpleValueView {
        SimpleValueView {
            version: self.version_of(),
            url: self.url_of(),
            response: Seq::empty(),
        }
    }

    proof fn lemma_value_starts_empty(&self) {
    }

    fn key(&self) -> (out: String) {
        self.name.clone()
    }

    fn value(&self) -> (out: SimpleValue) {
        SimpleValue::new(self.version.clone(), self.url.clone())
    }
}

impl GHPackage {
    /// The owner.
    pub closed spec fn owner_of(&self) -> Seq<char> {
        self.owner@
    }

    /// The repository.
    pub closed spec fn repo_of(&self) -> Seq<char> {
        self.repo@
    }

    /// The tag.
    pub closed spec fn tag_of(&self) -> Seq<char> {
        self.tag@
    }

    /// The asset.
    pub closed spec fn asset_of(&self) -> Seq<char> {
        self.asset@
    }

    /// The asset `asset` of the release `tag` of the repository `repo` of
    /// `owner`.
    pub fn new(owner: String, repo: String, tag: String, asset: String) -> (out: Self)
        ensures
            out.owner_of() == owner@,
            out.repo_of() == repo@,
            out.tag_of() == tag@,
            out.asset_of() == asset@,
    {
        Self { owner, repo, tag, asset }
    }

    /// The owner.
    pub fn owner(&self) -> (out: &str)
        ensures
            out@ == self.owner_of(),
    {
        self.owner.as_str()
    }

    /// The repository.
    pub fn repo(&self) -> (out: &str)
        ensures
            out@ == self.repo_of(),
    {
        self.repo.as_str()
    }

    /// The tag.
    pub fn tag(&self) -> (out: &str)
        ensures
            out@ == self.tag_of(),
    {
        self.tag.as_str()
    }

    /// The asset.
    pub fn asset(&self) -> (out: &str)
        ensures
            out@ == self.asset_of(),
    {
        self.asset.as_str()
    }
}

impl Entry for GHPackage {
    type Key = String;

    type Value = GHValue;

    open spec fn key_of(&self) -> Seq<char> {
        github_key(self.owner_of(), self.repo_of(), self.tag_of(), self.asset_of())
    }

    open spec fn value_of(&self) -> GHValueView {
        GHValueView {
            owner: self.owner_of(),
            repo: self.repo_of(),
            tag: self.tag_of(),
            asset: self.asset_of(),
            response: Seq::empty(),
        }
    }

    proof fn lemma_value_starts_empty(&self) {
    }

    fn key(&self) -> (out: String) {
        let mut out = self.asset.clone();
        out.append(" ");
        out.append(self.owner.as_str());
        out.append("/");
        out.append(self.repo.as_str());
        out.append(" [");
        out.append(self.tag.as_str());
        out.append("]");
        out
    }

    fn value(&self) -> (out: GHValue) {
        GHValue::new(self.owner.clone(), self.repo.clone(), self.tag.clone(), self.asset.clone())
    }
}

impl<PK> View for Config<PK> {
    type V = Seq<PK>;

    closed spec fn view(&self) -> Seq<PK> {
        self.packages@
    }
}

impl<PK: Clone> Config<PK> {
    /// A configuration that lists `packages`.
    pub fn new(packages: Vec<PK>) -> (out: Self)
        ensures
            out@ == packages@,
    {
        Config { packages }
    }

    /// The entries, in the order of the file.
    pub fn packages(&self) -> (out: &[PK])
        ensures
            out@ == self@,
    {
        self.packages.as_slice()
    }

    /// A copy of the entries, in the order of the file.
    pub fn packages_owned(&self) -> (out: Vec<PK>)
        ensures
            out@.len() == self@.len(),
            forall|i: int| 0 <= i < self@.len() ==> cloned(#[trigger] self@[i], out@[i]),
    {
        self.packages.clone()
    }
}

} // verus!
