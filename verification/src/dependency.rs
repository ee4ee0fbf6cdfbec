//! Dependency declarations: a name, a source, a version requirement,
//! and the flags that govern how the resolver treats the edge.

use vstd::prelude::*;
use crate::ident::{InternedString, SourceId, SourceIdV, spec_crates_io_index};
use crate::req::{Comparator, ComparatorV, Op, VersionReq, req_wf, parsed_req};
use crate::version::Version;
use crate::text::dec_seq;
use vstd::string::StringExecFns;

verus! {

/// The kind of a dependency edge.
#[derive(Clone, Copy, PartialEq, Eq, Structural, Debug, Hash)]
pub enum Kind {
    Normal,
    Build,
    Development,
}

/// The mathematical shape of a dependency.
pub struct DependencyV {
    pub name: Seq<char>,
    pub source_id: SourceIdV,
    pub req: Seq<ComparatorV>,
    pub kind: Kind,
    pub optional: bool,
    pub features: Seq<Seq<char>>,
    pub default_features: bool,
}

/// A dependency on a named package in a source, constrained by a
/// version requirement.
#[derive(Clone, Debug)]
pub struct Dependency {
    name: InternedString,
    source_id: SourceId,
    req: VersionReq,
    kind: Kind,
    optional: bool,
    features: Vec<String>,
    default_features: bool,
}

impl View for Dependency {
    type V = DependencyV;

    closed spec fn view(&self) -> DependencyV {
        DependencyV {
            name: self.name@,
            source_id: self.source_id@,
            req: self.req@,
            kind: self.kind,
            optional: self.optional,
            features: self.features@.map_values(|s: String| s@),
            default_features: self.default_features,
        }
    }
}

/// A dependency is well formed when its requirement is.
pub open spec fn dep_wf(d: DependencyV) -> bool {
    req_wf(d.req)
}

impl Dependency {
    /// A dependency on `name` from the default registry, constrained by
    /// an already-parsed requirement.
    pub fn new(name: &str, req: &VersionReq) -> (r: Dependency)
        requires
            req_wf(req@),
        ensures
            r@.name == name@,
            r@.source_id.kind is Registry,
            r@.source_id.url == spec_crates_io_index(),
            r@.req == req@,
            r@.kind == Kind::Normal,
            !r@.optional,
            r@.features.len() == 0,
            r@.default_features,
            dep_wf(r@),
    {
        Dependency {
            name: InternedString::new(name),
            source_id: SourceId::registry("https://github.com/rust-lang/crates.io-index"),
            req: req.dup(),
            kind: Kind::Normal,
            optional: false,
            features: Vec::new(),
            default_features: true,
        }
    }

    /// Parses the requirement text and builds a dependency on the
    /// default registry. Fails exactly when the text does not parse as
    /// a requirement free of pre-release tags.
    pub fn parse(name: &str, version: &str) -> (r: Result<Dependency, ()>)
        ensures
            r matches Ok(d) ==> d@.name == name@
                && parsed_req(version@) == Some(d@.req)
                && dep_wf(d@)
                && d@.source_id.kind is Registry
                && d@.kind == Kind::Normal
                && !d@.optional
                && d@.features.len() == 0
                && d@.default_features,
            r is Err <==> (parsed_req(version@) is None
                || !req_wf(parsed_req(version@)->Some_0)),
    {
        match VersionReq::parse(version) {
            Ok(req) => Ok(Dependency::new(name, &req)),
            Err(_) => Err(()),
        }
    }

    /// A dependency that admits exactly `version`.
    pub fn exact(name: &str, version: &Version) -> (r: Dependency)
        ensures
            r@.name == name@,
            r@.req.len() == 1,
            r@.req[0] == (ComparatorV {
                op: Op::Exact,
                major: version.major,
                minor: Some(version.minor),
                patch: Some(version.patch),
                pre: Seq::<char>::empty(),
            }),
            dep_wf(r@),
            r@.source_id.kind is Registry,
            r@.kind == Kind::Normal,
            !r@.optional,
            r@.features.len() == 0,
            r@.default_features,
    {
        let mut comparators: Vec<Comparator> = Vec::new();
        comparators.push(Comparator {
            op: Op::Exact,
            major: version.major,
            minor: Some(version.minor),
            patch: Some(version.patch),
            pre: String::new(),
        });
        let req = VersionReq { comparators };
        assert(req@ =~= seq![ComparatorV {
            op: Op::Exact,
            major: version.major,
            minor: Some(version.minor),
            patch: Some(version.patch),
            pre: Seq::<char>::empty(),
        }]);
        Dependency {
            name: InternedString::new(name),
            source_id: SourceId::registry("https://github.com/rust-lang/crates.io-index"),
            req,
            kind: Kind::Normal,
            optional: false,
            features: Vec::new(),
            default_features: true,
        }
    }

    /// The requirement this dependency imposes.
    pub fn get_version_req(&self) -> (r: &VersionReq)
        ensures
            r@ == self@.req,
    {
        &self.req
    }

    /// The name of the depended-on package.
    pub fn get_name(&self) -> (r: &str)
        ensures
            r@ == self@.name,
    {
        self.name.as_str()
    }

    /// The source the dependency must come from.
    pub fn get_source_id(&self) -> (r: &SourceId)
        ensures
            r@ == self@.source_id,
    {
        &self.source_id
    }

    /// The edge kind.
    pub fn get_kind(&self) -> (r: Kind)
        ensures
            r == self@.kind,
    {
        self.kind
    }

    /// Whether the dependency is optional.
    pub fn is_optional(&self) -> (r: bool)
        ensures
            r == self@.optional,
    {
        self.optional
    }

    /// The features the dependency requests of its target.
    pub fn get_features(&self) -> (r: &Vec<String>)
        ensures
            r@.map_values(|s: String| s@) == self@.features,
    {
        &self.features
    }

    /// Whether default features of the target are requested.
    pub fn uses_default_features(&self) -> (r: bool)
        ensures
            r == self@.default_features,
    {
        self.default_features
    }

    /// Replaces the source.
    pub fn set_source_id(&mut self, source: SourceId)
        ensures
            final(self)@ == (DependencyV { source_id: source@, ..old(self)@ }),
    {
        self.source_id = source;
    }

    /// Replaces the edge kind.
    pub fn set_kind(&mut self, kind: Kind)
        ensures
            final(self)@ == (DependencyV { kind, ..old(self)@ }),
    {
        self.kind = kind;
    }

    /// Marks the dependency optional or not.
    pub fn set_optional(&mut self, optional: bool)
        ensures
            final(self)@ == (DependencyV { optional, ..old(self)@ }),
    {
        self.optional = optional;
    }

    /// Replaces the requested feature list.
    pub fn set_features(&mut self, features: Vec<String>)
        ensures
            final(self)@ == (DependencyV {
                features: features@.map_values(|s: String| s@),
                ..old(self)@
            }),
    {
        self.features = features;
    }

    /// Turns default features on or off.
    pub fn set_default_features(&mut self, default_features: bool)
        ensures
            final(self)@ == (DependencyV { default_features, ..old(self)@ }),
    {
        self.default_features = default_features;
    }

    /// A copy of the dependency.
    pub fn dup(&self) -> (r: Dependency)
        ensures
            r@ == self@,
    {
        Dependency {
            name: InternedString::new(self.name.as_str()),
            source_id: self.source_id.dup(),
            req: self.req.dup(),
            kind: self.kind,
            optional: self.optional,
            features: dup_strings(&self.features),
            default_features: self.default_features,
        }
    }
}

/// A copy of a string list, character for character.
pub fn dup_strings(v: &Vec<String>) -> (r: Vec<String>)
    ensures
        r@.map_values(|s: String| s@) == v@.map_values(|s: String| s@),
{
    let mut r: Vec<String> = Vec::new();
    let mut i: usize = 0;
    while i < v.len()
        invariant
            0 <= i <= v.len(),
            r@.len() == i,
            forall|j: int| 0 <= j < i ==> r@[j]@ == v@[j]@,
        decreases v.len() - i,
    {
        r.push(v[i].clone());
        i += 1;
    }
    assert(r@.map_values(|s: String| s@) =~= v@.map_values(|s: String| s@));
    r
}

impl VersionReq {
    /// A copy of the requirement.
    pub fn dup(&self) -> (r: VersionReq)
        ensures
            r@ == self@,
    {
        let mut comparators: Vec<Comparator> = Vec::new();
        let mut i: usize = 0;
        while i < self.comparators.len()
            invariant
                0 <= i <= self.comparators.len(),
                comparators@.len() == i,
                forall|j: int| 0 <= j < i
                    ==> (#[trigger] comparators@[j])@ == self.comparators@[j]@,
            decreases self.comparators.len() - i,
        {
            let c = &self.comparators[i];
            comparators.push(Comparator {
                op: c.op,
                major: c.major,
                minor: c.minor,
                patch: c.patch,
                pre: c.pre.clone(),
            });
            i += 1;
        }
        let r = VersionReq { comparators };
        assert(r@ =~= self@);
        r
    }

    /// The canonical rendering of the requirement: comparators joined
    /// by `", "`, each as its operator followed by the written parts of
    /// its version pattern.
    pub fn to_text(&self) -> (r: String)
        ensures
            r@ == spec_req_text(self@),
    {
        if self.comparators.len() == 0 {
            proof {
                reveal_strlit("*");
            }
            let r: String = "*".to_owned();
            assert(r@ =~= spec_req_text(self@));
            return r;
        }
        let mut r = String::new();
        proof {
            reveal_strlit("");
            assert(r@ =~= spec_req_text_upto(self@, 0));
        }
        let mut i: usize = 0;
        while i < self.comparators.len()
            invariant
                0 <= i <= self.comparators.len(),
                self.comparators.len() > 0,
                r@ == spec_req_text_upto(self@, i as int),
            decreases self.comparators.len() - i,
        {
            if i > 0 {
                proof {
                    reveal_strlit(", ");
                }
                r.append(", ");
            }
            let t = comparator_text(&self.comparators[i]);
            r.append(t.as_str());
            proof {
                reveal_strlit("");
                reveal_strlit(", ");
                if i == 0 {
                    assert(r@ =~= spec_req_text_upto(self@, 1));
                } else {
                    assert(r@ =~= spec_req_text_upto(self@, i + 1));
                }
            }
            i += 1;
        }
        r
    }
}

/// The rendering of one comparator.
pub open spec fn spec_comparator_text(c: ComparatorV) -> Seq<char> {
    let op = match c.op {
        Op::Exact => "="@,
        Op::Greater => ">"@,
        Op::GreaterEq => ">="@,
        Op::Less => "<"@,
        Op::LessEq => "<="@,
        Op::Tilde => "~"@,
        Op::Caret => "^"@,
        Op::Wildcard => ""@,
    };
    let nums = if c.minor is None {
        dec_seq(c.major) + (if c.op is Wildcard { ".*"@ } else { ""@ })
    } else if c.patch is None {
        dec_seq(c.major) + "."@ + dec_seq(c.minor->Some_0)
            + (if c.op is Wildcard { ".*"@ } else { ""@ })
    } else {
        dec_seq(c.major) + "."@ + dec_seq(c.minor->Some_0) + "."@ + dec_seq(c.patch->Some_0)
    };
    op + nums
}

/// The rendering of the first `n` comparators, joined by `", "`.
pub open spec fn spec_req_text_upto(cs: Seq<ComparatorV>, n: int) -> Seq<char>
    decreases n,
{
    if n <= 0 {
        ""@
    } else if n == 1 {
        spec_comparator_text(cs[0])
    } else {
        spec_req_text_upto(cs, n - 1) + ", "@ + spec_comparator_text(cs[n - 1])
    }
}

/// The rendering of a whole requirement; an empty comparator list is
/// written `*`.
pub open spec fn spec_req_text(cs: Seq<ComparatorV>) -> Seq<char> {
    if cs.len() == 0 {
        "*"@
    } else {
        spec_req_text_upto(cs, cs.len() as int)
    }
}

fn comparator_text(c: &Comparator) -> (r: String)
    ensures
        r@ == spec_comparator_text(c@),
{
    proof {
        reveal_strlit("=");
        reveal_strlit(">");
        reveal_strlit(">=");
        reveal_strlit("<");
        reveal_strlit("<=");
        reveal_strlit("~");
        reveal_strlit("^");
        reveal_strlit("");
        reveal_strlit(".");
        reveal_strlit(".*");
    }
    let op: &str = match c.op {
        Op::Exact => "=",
        Op::Greater => ">",
        Op::GreaterEq => ">=",
        Op::Less => "<",
        Op::LessEq => "<=",
        Op::Tilde => "~",
        Op::Caret => "^",
        Op::Wildcard => "",
    };
    let mut r = op.to_owned();
    let major = crate::text::dec_u64(c.major);
    r.append(major.as_str());
    match c.minor {
        None => {
            if matches!(c.op, Op::Wildcard) {
                r.append(".*");
            }
        }
        Some(m) => {
            r.append(".");
            let minor = crate::text::dec_u64(m);
            r.append(minor.as_str());
            match c.patch {
                None => {
                    if matches!(c.op, Op::Wildcard) {
                        r.append(".*");
                    }
                }
                Some(p) => {
                    r.append(".");
                    let patch = crate::text::dec_u64(p);
                    r.append(patch.as_str());
                }
            }
        }
    }
    proof {
        assert(r@ =~= spec_comparator_text(c@));
    }
    r
}

/// The mathematical shape of a serialized dependency.
pub struct SerializedDependencyV {
    pub name: Seq<char>,
    pub req: Seq<char>,
}

/// A dependency flattened to plain text, for persisting.
#[derive(Clone, Debug)]
pub struct SerializedDependency {
    name: String,
    req: String,
}

impl View for SerializedDependency {
    type V = SerializedDependencyV;

    closed spec fn view(&self) -> SerializedDependencyV {
        SerializedDependencyV { name: self.name@, req: self.req@ }
    }
}

impl SerializedDependency {
    /// Flattens a dependency to its name and the rendering of its
    /// requirement.
    pub fn from_dependency(dep: &Dependency) -> (r: SerializedDependency)
        ensures
            r@.name == dep@.name,
            r@.req == spec_req_text(dep@.req),
    {
        SerializedDependency {
            name: dep.get_name().to_owned(),
            req: dep.get_version_req().to_text(),
        }
    }

    /// The serialized name.
    pub fn name(&self) -> (r: &str)
        ensures
            r@ == self@.name,
    {
        self.name.as_str()
    }

    /// The serialized requirement text.
    pub fn req(&self) -> (r: &str)
        ensures
            r@ == self@.req,
    {
        self.req.as_str()
    }
}

} // verus!
