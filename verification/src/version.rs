//! Plain semantic versions: the `major.minor.patch` triple that package
//! identities and requirement matching are built on.

use vstd::prelude::*;
use crate::text::{dec_seq, dec_u64};
use vstd::string::StringExecFns;

verus! {

/// What a version string parses to: `None` when the text is not a full
/// `major.minor.patch` version, else the triple and the pre-release tag.
pub uninterp spec fn parsed_version(s: Seq<char>) -> Option<(u64, u64, u64, Seq<char>)>;

/// Relies on `semver::Version::parse`: the numeric components and the
/// pre-release tag of a version string. The result depends on the
/// characters of `s` alone.
#[verifier::external_body]
fn parse_version_raw(s: &str) -> (r: Option<(u64, u64, u64, String)>)
    ensures
        r is Some <==> parsed_version(s@) is Some,
        r matches Some(t) ==> parsed_version(s@) == Some((t.0, t.1, t.2, t.3@)),
{
    match semver::Version::parse(s) {
        Ok(v) => Some((v.major, v.minor, v.patch, v.pre.as_str().to_owned())),
        Err(_) => None,
    }
}

/// A semantic version, reduced to its numeric triple.
///
/// Pre-release and build-metadata tags are not modelled: the resolver's
/// rules (compatibility classes, requirement matching) are defined over
/// the numeric components alone.
#[derive(Clone, Copy, PartialEq, Eq, Hash, Structural, Debug)]
pub struct Version {
    pub major: u64,
    pub minor: u64,
    pub patch: u64,
}

impl Version {
    /// True when `self` is strictly below `other` in lexicographic order
    /// on `(major, minor, patch)`.
    pub open spec fn spec_lt(self, other: Version) -> bool {
        self.major < other.major
            || (self.major == other.major && self.minor < other.minor)
            || (self.major == other.major && self.minor == other.minor
                && self.patch < other.patch)
    }

    /// Executable strict order, equal to `spec_lt`.
    pub fn lt(&self, other: &Version) -> (r: bool)
        ensures
            r == self.spec_lt(*other),
    {
        if self.major != other.major {
            self.major < other.major
        } else if self.minor != other.minor {
            self.minor < other.minor
        } else {
            self.patch < other.patch
        }
    }

    /// Executable non-strict order: `self <= other` lexicographically.
    pub fn le(&self, other: &Version) -> (r: bool)
        ensures
            r == (self.spec_lt(*other) || self == other),
    {
        !other.lt(self)
    }

    /// Parses a version string. Returns `Err` exactly when the text is
    /// not a full version or carries a pre-release tag.
    pub fn parse(s: &str) -> (r: Result<Version, ()>)
        ensures
            r matches Ok(v) ==> parsed_version(s@)
                == Some((v.major, v.minor, v.patch, Seq::<char>::empty())),
            r is Err <==> (parsed_version(s@) is None
                || parsed_version(s@)->Some_0.3.len() != 0),
    {
        match parse_version_raw(s) {
            None => Err(()),
            Some(t) => {
                if !t.3.as_str().is_empty() {
                    Err(())
                } else {
                    proof {
                        assert(parsed_version(s@)->Some_0.3 =~= Seq::<char>::empty());
                    }
                    Ok(Version { major: t.0, minor: t.1, patch: t.2 })
                }
            }
        }
    }

    /// The rendering of `self`, digit sequences joined by dots.
    pub open spec fn spec_text(self) -> Seq<char> {
        dec_seq(self.major) + "."@ + dec_seq(self.minor) + "."@ + dec_seq(self.patch)
    }

    /// Renders `self` as `major.minor.patch`.
    pub fn to_text(&self) -> (r: String)
        ensures
            r@ == self.spec_text(),
    {
        proof {
            reveal_strlit(".");
        }
        let mut r = dec_u64(self.major);
        r.append(".");
        let minor = dec_u64(self.minor);
        r.append(minor.as_str());
        r.append(".");
        let patch = dec_u64(self.patch);
        r.append(patch.as_str());
        proof {
            assert(r@ =~= self.spec_text());
        }
        r
    }

    /// The SemVer compatibility class of a version: versions are
    /// compatible exactly when they agree on the leftmost non-zero
    /// component (major for `>=1.0.0`, minor for `0.x`, patch for `0.0.x`).
    pub open spec fn spec_compat_class(self) -> (int, u64) {
        if self.major > 0 {
            (0int, self.major)
        } else if self.minor > 0 {
            (1int, self.minor)
        } else {
            (2int, self.patch)
        }
    }

    /// True when `self` and `other` fall in the same compatibility class.
    pub open spec fn spec_compatible(self, other: Version) -> bool {
        self.spec_compat_class() == other.spec_compat_class()
    }

    /// Executable compatibility test, equal to `spec_compatible`.
    pub fn compatible(&self, other: &Version) -> (r: bool)
        ensures
            r == self.spec_compatible(*other),
    {
        if self.major > 0 || other.major > 0 {
            self.major == other.major
        } else if self.minor > 0 || other.minor > 0 {
            self.minor == other.minor
        } else {
            self.patch == other.patch
        }
    }
}

} // verus!
