//! Package identity: interned names, source identifiers and package ids.

use vstd::prelude::*;
use vstd::string::StringExecFns;
use crate::text::{str_eq, opt_str_eq};
use crate::version::Version;

verus! {

/// The location of the default registry's index.
pub open spec fn spec_crates_io_index() -> Seq<char> {
    "https://github.com/rust-lang/crates.io-index"@
}

/// A name with stable identity and cheap equality. The design contract
/// of interning is only "cheap equality over the process lifetime";
/// this crate keeps the characters themselves.
#[derive(Clone, Debug, PartialEq, Eq, Hash)]
pub struct InternedString {
    value: String,
}

impl View for InternedString {
    type V = Seq<char>;

    closed spec fn view(&self) -> Seq<char> {
        self.value@
    }
}

impl InternedString {
    /// Interns `s`.
    pub fn new(s: &str) -> (r: InternedString)
        ensures
            r@ == s@,
    {
        InternedString { value: s.to_owned() }
    }

    /// The interned characters.
    pub fn as_str(&self) -> (r: &str)
        ensures
            r@ == self@,
    {
        self.value.as_str()
    }

    /// Equality over the characters.
    pub fn equals(&self, other: &InternedString) -> (r: bool)
        ensures
            r == (self@ == other@),
    {
        str_eq(self.value.as_str(), other.value.as_str())
    }
}

/// The kind of a package source; a git source carries its reference.
#[derive(Clone, Debug, PartialEq, Eq, Hash)]
pub enum SourceKind {
    Path,
    Git(String),
    Registry,
    LocalRegistry,
    Directory,
}

/// The mathematical shape of a source kind.
pub enum SourceKindV {
    Path,
    Git(Seq<char>),
    Registry,
    LocalRegistry,
    Directory,
}

impl View for SourceKind {
    type V = SourceKindV;

    open spec fn view(&self) -> SourceKindV {
        match self {
            SourceKind::Path => SourceKindV::Path,
            SourceKind::Git(g) => SourceKindV::Git(g@),
            SourceKind::Registry => SourceKindV::Registry,
            SourceKind::LocalRegistry => SourceKindV::LocalRegistry,
            SourceKind::Directory => SourceKindV::Directory,
        }
    }
}

/// The mathematical shape of a source id.
pub struct SourceIdV {
    pub kind: SourceKindV,
    pub url: Seq<char>,
    pub precise: Option<Seq<char>>,
}

/// A source of packages: a URL, a kind tag, and an optional precise
/// locator. Two source ids are loosely equal when URL and kind agree;
/// full equality includes the precise locator.
#[derive(Clone, Debug, PartialEq, Eq, Hash)]
pub struct SourceId {
    pub kind: SourceKind,
    pub url: String,
    pub precise: Option<String>,
}

impl View for SourceId {
    type V = SourceIdV;

    open spec fn view(&self) -> SourceIdV {
        SourceIdV { kind: self.kind@, url: self.url@, precise: match self.precise {
            Some(p) => Some(p@),
            None => None,
        } }
    }
}

/// Loose equality of source ids: kind and URL, ignoring the precise
/// locator. Git references are part of the kind.
pub open spec fn spec_loose_eq(a: SourceIdV, b: SourceIdV) -> bool {
    a.url == b.url && a.kind == b.kind
}

/// Full equality of source ids: loose equality plus the precise locator.
pub open spec fn spec_full_eq(a: SourceIdV, b: SourceIdV) -> bool {
    spec_loose_eq(a, b) && a.precise == b.precise
}

impl SourceId {
    /// A registry source at `url`.
    pub fn registry(url: &str) -> (r: SourceId)
        ensures
            r@.kind == SourceKindV::Registry,
            r@.url == url@,
            r@.precise is None,
    {
        SourceId { kind: SourceKind::Registry, url: url.to_owned(), precise: None }
    }

    /// A path source at `url`.
    pub fn path(url: &str) -> (r: SourceId)
        ensures
            r@.kind == SourceKindV::Path,
            r@.url == url@,
            r@.precise is None,
    {
        SourceId { kind: SourceKind::Path, url: url.to_owned(), precise: None }
    }

    /// A git source at `url`, checked out at `reference`.
    pub fn git(url: &str, reference: &str) -> (r: SourceId)
        ensures
            r@.kind == SourceKindV::Git(reference@),
            r@.url == url@,
            r@.precise is None,
    {
        SourceId {
            kind: SourceKind::Git(reference.to_owned()),
            url: url.to_owned(),
            precise: None,
        }
    }

    /// Loose equality: same URL and kind.
    pub fn loose_eq(&self, other: &SourceId) -> (r: bool)
        ensures
            r == spec_loose_eq(self@, other@),
    {
        str_eq(self.url.as_str(), other.url.as_str()) && match (&self.kind, &other.kind) {
            (SourceKind::Path, SourceKind::Path) => true,
            (SourceKind::Git(x), SourceKind::Git(y)) => str_eq(x.as_str(), y.as_str()),
            (SourceKind::Registry, SourceKind::Registry) => true,
            (SourceKind::LocalRegistry, SourceKind::LocalRegistry) => true,
            (SourceKind::Directory, SourceKind::Directory) => true,
            _ => false,
        }
    }

    /// A copy of the kind tag, character for character.
    fn kind_dup(&self) -> (r: SourceKind)
        ensures
            r@ == self@.kind,
    {
        match &self.kind {
            SourceKind::Path => SourceKind::Path,
            SourceKind::Git(g) => SourceKind::Git(g.clone()),
            SourceKind::Registry => SourceKind::Registry,
            SourceKind::LocalRegistry => SourceKind::LocalRegistry,
            SourceKind::Directory => SourceKind::Directory,
        }
    }

    /// A copy of the whole source id.
    pub fn dup(&self) -> (r: SourceId)
        ensures
            r@ == self@,
    {
        SourceId {
            kind: self.kind_dup(),
            url: self.url.clone(),
            precise: match &self.precise {
                Some(p) => Some(p.clone()),
                None => None,
            },
        }
    }

    /// Full equality: loose equality plus the precise locator.
    pub fn full_eq(&self, other: &SourceId) -> (r: bool)
        ensures
            r == spec_full_eq(self@, other@),
    {
        self.loose_eq(other) && opt_str_eq(&self.precise, &other.precise)
    }

    /// The same source with another precise locator.
    pub fn with_precise(&self, precise: Option<String>) -> (r: SourceId)
        ensures
            r@.kind == self@.kind,
            r@.url == self@.url,
            r@.precise == match precise {
                Some(p) => Some::<Seq<char>>(p@),
                None => None::<Seq<char>>,
            },
    {
        SourceId { kind: self.kind_dup(), url: self.url.clone(), precise }
    }

    /// True for a path source.
    pub fn is_path(&self) -> (r: bool)
        ensures
            r == (self@.kind is Path),
    {
        match self.kind {
            SourceKind::Path => true,
            _ => false,
        }
    }

    /// True for the default registry.
    pub fn is_default_registry(&self) -> (r: bool)
        ensures
            r == (self@.kind is Registry && self@.url == spec_crates_io_index()),
    {
        match self.kind {
            SourceKind::Registry => str_eq(
                self.url.as_str(),
                "https://github.com/rust-lang/crates.io-index",
            ),
            _ => false,
        }
    }

    /// Renders the source id for messages.
    pub fn to_text(&self) -> (r: String)
        ensures
            r@ == spec_source_text(self@),
    {
        let head: &str = match &self.kind {
            SourceKind::Path => "path `",
            SourceKind::Git(_) => "git repository `",
            SourceKind::Registry => "registry `",
            SourceKind::LocalRegistry => "local registry `",
            SourceKind::Directory => "directory `",
        };
        let mut r = head.to_owned();
        r.append(self.url.as_str());
        r.append("`");
        proof {
            assert(r@ =~= spec_source_text(self@));
        }
        r
    }
}

/// The rendering of a source id: its kind word and its URL.
pub open spec fn spec_source_text(s: SourceIdV) -> Seq<char> {
    match s.kind {
        SourceKindV::Path => "path `"@ + s.url + "`"@,
        SourceKindV::Git(_) => "git repository `"@ + s.url + "`"@,
        SourceKindV::Registry => "registry `"@ + s.url + "`"@,
        SourceKindV::LocalRegistry => "local registry `"@ + s.url + "`"@,
        SourceKindV::Directory => "directory `"@ + s.url + "`"@,
    }
}

/// The rendering of a package id: `name vX.Y.Z`, with the source
/// appended unless it is the default registry.
pub open spec fn spec_pkg_text(p: PackageIdV) -> Seq<char> {
    let head = p.name + " v"@ + p.version.spec_text();
    if p.source_id.kind is Registry && p.source_id.url == spec_crates_io_index() {
        head
    } else {
        head + " ("@ + spec_source_text(p.source_id) + ")"@
    }
}

/// The mathematical shape of a package id.
pub struct PackageIdV {
    pub name: Seq<char>,
    pub version: Version,
    pub source_id: SourceIdV,
}

/// Identifier for a specific version of a package in a specific source.
#[derive(Clone, Debug, PartialEq, Eq, Hash)]
pub struct PackageId {
    name: InternedString,
    version: Version,
    source_id: SourceId,
}

impl View for PackageId {
    type V = PackageIdV;

    closed spec fn view(&self) -> PackageIdV {
        PackageIdV { name: self.name@, version: self.version, source_id: self.source_id@ }
    }
}

/// Full equality of package ids: name, version, and full source equality.
pub open spec fn spec_pkg_eq(a: PackageIdV, b: PackageIdV) -> bool {
    a.name == b.name && a.version == b.version && spec_full_eq(a.source_id, b.source_id)
}

impl PackageId {
    /// Builds a package id from a name, a version string and a source.
    /// Fails exactly when the version string does not parse.
    pub fn new(name: &str, version: &str, sid: SourceId) -> (r: Result<PackageId, ()>)
        ensures
            r matches Ok(p) ==> p@.name == name@ && p@.source_id == sid@
                && crate::version::parsed_version(version@)
                    == Some((p@.version.major, p@.version.minor, p@.version.patch,
                        Seq::<char>::empty())),
            r is Err <==> (crate::version::parsed_version(version@) is None
                || crate::version::parsed_version(version@)->Some_0.3.len() != 0),
    {
        match Version::parse(version) {
            Ok(v) => Ok(PackageId {
                name: InternedString::new(name),
                version: v,
                source_id: sid,
            }),
            Err(_) => Err(()),
        }
    }

    /// Builds a package id from an already-parsed version.
    pub fn from_parts(name: &str, version: Version, sid: SourceId) -> (r: PackageId)
        ensures
            r@.name == name@,
            r@.version == version,
            r@.source_id == sid@,
    {
        PackageId { name: InternedString::new(name), version, source_id: sid }
    }

    /// The package's name.
    pub fn name(&self) -> (r: InternedString)
        ensures
            r@ == self@.name,
    {
        InternedString::new(self.name.as_str())
    }

    /// A copy of the whole package id.
    pub fn dup(&self) -> (r: PackageId)
        ensures
            r@ == self@,
    {
        PackageId {
            name: InternedString::new(self.name.as_str()),
            version: self.version,
            source_id: self.source_id.dup(),
        }
    }

    /// The package's version.
    pub fn version(&self) -> (r: &Version)
        ensures
            *r == self@.version,
    {
        &self.version
    }

    /// The package's source.
    pub fn source_id(&self) -> (r: &SourceId)
        ensures
            r@ == self@.source_id,
    {
        &self.source_id
    }

    /// The same id with another precise locator on its source.
    pub fn with_precise(&self, precise: Option<String>) -> (r: PackageId)
        ensures
            r@.name == self@.name,
            r@.version == self@.version,
            r@.source_id.kind == self@.source_id.kind,
            r@.source_id.url == self@.source_id.url,
            r@.source_id.precise == match precise {
                Some(p) => Some::<Seq<char>>(p@),
                None => None::<Seq<char>>,
            },
    {
        PackageId {
            name: InternedString::new(self.name.as_str()),
            version: self.version,
            source_id: self.source_id.with_precise(precise),
        }
    }

    /// The same id in another source.
    pub fn with_source_id(&self, source: SourceId) -> (r: PackageId)
        ensures
            r@.name == self@.name,
            r@.version == self@.version,
            r@.source_id == source@,
    {
        PackageId {
            name: InternedString::new(self.name.as_str()),
            version: self.version,
            source_id: source,
        }
    }

    /// Full equality with `other`.
    pub fn equals(&self, other: &PackageId) -> (r: bool)
        ensures
            r == spec_pkg_eq(self@, other@),
    {
        self.name.equals(&other.name)
            && self.version.major == other.version.major
            && self.version.minor == other.version.minor
            && self.version.patch == other.version.patch
            && self.source_id.full_eq(&other.source_id)
    }

    /// Renders the package id for messages.
    pub fn to_text(&self) -> (r: String)
        ensures
            r@ == spec_pkg_text(self@),
    {
        let mut r = self.name.as_str().to_owned();
        r.append(" v");
        let v = self.version.to_text();
        r.append(v.as_str());
        if !self.source_id.is_default_registry() {
            r.append(" (");
            let s = self.source_id.to_text();
            r.append(s.as_str());
            r.append(")");
        }
        proof {
            assert(r@ =~= spec_pkg_text(self@));
        }
        r
    }
}

/// A git reference: the default branch, or a named one.
#[derive(Clone, Debug, PartialEq, Eq)]
pub enum GitReference {
    Master,
    Other(String),
}

impl GitReference {
    /// The default branch for `"master"`, a named reference otherwise.
    pub fn for_str(reference: String) -> (r: GitReference)
        ensures
            reference@ == "master"@ ==> r is Master,
            reference@ != "master"@ ==> (r matches GitReference::Other(s) && s@ == reference@),
    {
        if str_eq(reference.as_str(), "master") {
            GitReference::Master
        } else {
            GitReference::Other(reference)
        }
    }
}

/// A source that reads one package out of a git checkout.
#[derive(Clone, Debug)]
pub struct GitSource {
    pub remote: String,
    pub reference: GitReference,
    pub db_path: String,
    pub checkout_path: String,
    pub verbose: bool,
}

impl GitSource {
    /// Builds a git source over a remote URL, resolving the reference
    /// name as `GitReference::for_str` does.
    pub fn new(remote: String, reference: String, db: String, checkout: String,
        verbose: bool) -> (r: GitSource)
        ensures
            r.remote@ == remote@,
            reference@ == "master"@ ==> r.reference is Master,
            reference@ != "master"@
                ==> (r.reference matches GitReference::Other(s) && s@ == reference@),
            r.db_path@ == db@,
            r.checkout_path@ == checkout@,
            r.verbose == verbose,
    {
        GitSource {
            remote,
            reference: GitReference::for_str(reference),
            db_path: db,
            checkout_path: checkout,
            verbose,
        }
    }
}

} // verus!
