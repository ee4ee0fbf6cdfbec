//! Compilation units: one atomic compiler invocation each, and the
//! acyclic graph of dependencies between them.

use vstd::prelude::*;
use crate::ident::{InternedString, PackageId};

verus! {

/// Host build or a cross-compilation target.
#[derive(Clone, Copy, PartialEq, Eq, Structural, Debug, Hash)]
pub enum CompileKind {
    Host,
    Target,
}

/// What the compiler is asked to do for a unit.
#[derive(Clone, Copy, PartialEq, Eq, Structural, Debug, Hash)]
pub enum CompileMode {
    Build,
    Test,
    Bench,
    Check,
    Doc,
    Doctest,
    RunCustomBuild,
}

/// The kind of a target within a package.
#[derive(Clone, Copy, PartialEq, Eq, Structural, Debug, Hash)]
pub enum TargetKind {
    Lib,
    Bin,
    ExampleBin,
    Test,
    Bench,
    CustomBuild,
}

/// A buildable target of a package.
#[derive(Clone, Debug)]
pub struct Target {
    pub name: String,
    pub kind: TargetKind,
    /// True for proc-macro-like targets that always build for the host.
    pub for_host: bool,
}

impl Target {
    /// Only library targets can be linked into dependents.
    pub fn linkable(&self) -> (r: bool)
        ensures
            r == (self.kind is Lib),
    {
        matches!(self.kind, TargetKind::Lib)
    }

    /// True for the compiled build script target.
    pub fn is_custom_build(&self) -> (r: bool)
        ensures
            r == (self.kind is CustomBuild),
    {
        matches!(self.kind, TargetKind::CustomBuild)
    }
}

/// Named codegen settings a unit is compiled under.
#[derive(Clone, Debug)]
pub struct Profile {
    pub name: String,
    pub opt_level: u64,
    pub debuginfo: bool,
    pub lto: bool,
    pub codegen_units: u64,
    pub overflow_checks: bool,
}

/// One atomic invocation of the compiler.
#[derive(Clone, Debug)]
pub struct Unit {
    pub pkg: PackageId,
    pub target: Target,
    pub profile: Profile,
    pub kind: CompileKind,
    pub mode: CompileMode,
    pub features: Vec<String>,
    /// Whether the package owning this unit has a build script.
    pub has_custom_build: bool,
    /// The package's `links` claim, if any.
    pub links: Option<String>,
}

/// A unit dependency edge: the dependency's index in the graph, the
/// name the parent refers to it by, and its linkage flags.
#[derive(Clone, Debug)]
pub struct UnitDep {
    pub unit_index: usize,
    pub extern_crate_name: InternedString,
    pub public: bool,
    pub noprelude: bool,
}

/// The dependency graph of units. Units are kept in dependency order:
/// every edge points to a lower index, so the graph is acyclic by
/// construction and dependencies can be processed front to back.
pub struct UnitGraph {
    pub units: Vec<Unit>,
    pub deps: Vec<Vec<UnitDep>>,
}

/// Well-formedness of a unit graph: one edge list per unit, and every
/// edge pointing before its source.
pub open spec fn graph_wf(g: UnitGraph) -> bool {
    &&& g.deps@.len() == g.units@.len()
    &&& forall|i: int, d: int| 0 <= i < g.deps@.len()
        && 0 <= d < g.deps@[i]@.len()
        ==> (#[trigger] g.deps@[i]@[d]).unit_index < i
}

impl UnitGraph {
    /// An empty graph.
    pub fn new() -> (r: UnitGraph)
        ensures
            graph_wf(r),
            r.units@.len() == 0,
    {
        UnitGraph { units: Vec::new(), deps: Vec::new() }
    }

    /// How many units the graph holds.
    pub fn len(&self) -> (r: usize)
        ensures
            r == self.units@.len(),
    {
        self.units.len()
    }

    /// Appends a unit whose dependencies must already be present, so
    /// at strictly lower indices; returns the new unit's index.
    pub fn push_unit(&mut self, unit: Unit, deps: Vec<UnitDep>) -> (r: usize)
        requires
            graph_wf(*old(self)),
            forall|d: int| 0 <= d < deps@.len()
                ==> (#[trigger] deps@[d]).unit_index < old(self).units@.len(),
        ensures
            graph_wf(*final(self)),
            final(self).units@.len() == old(self).units@.len() + 1,
            r == old(self).units@.len(),
            final(self).units@[r as int] == unit,
    {
        let r = self.units.len();
        self.units.push(unit);
        self.deps.push(deps);
        proof {
            assert forall|i: int, d: int| 0 <= i < self.deps@.len()
                && 0 <= d < self.deps@[i]@.len()
                implies (#[trigger] self.deps@[i]@[d]).unit_index < i by {
                if i < old(self).deps@.len() {
                    assert(self.deps@[i] == old(self).deps@[i]);
                }
            }
        }
        r
    }
}

/// One unit of the serialized graph: its describing fields and its
/// dependencies as indices into the same document.
#[derive(Debug)]
pub struct SerializedUnit {
    pub pkg: PackageId,
    pub target_name: String,
    pub profile_name: String,
    pub kind: CompileKind,
    pub mode: CompileMode,
    pub features: Vec<String>,
    pub dependencies: Vec<SerializedUnitDep>,
}

/// One serialized dependency edge: the index of the dependency unit
/// in the document, and the linkage facts.
#[derive(Clone, Debug)]
pub struct SerializedUnitDep {
    pub index: usize,
    pub extern_crate_name: InternedString,
    pub public: bool,
    pub noprelude: bool,
}

/// The machine-readable unit-graph document: a version tag, one entry
/// per unit, and the root units as indices.
#[derive(Debug)]
pub struct SerializedUnitGraph {
    pub version: u64,
    pub units: Vec<SerializedUnit>,
    pub roots: Vec<usize>,
}

/// The version tag of the serialized shape; to change incompatibly is
/// to increment it.
pub open spec fn spec_unit_graph_version() -> u64 {
    1
}

/// Serializes a unit graph into the plain document: entry `i`
/// describes unit `i`, every dependency edge becomes that
/// dependency's index, and the given roots pass through; printing it
/// is the surrounding program's business.
pub fn serialize_unit_graph(g: &UnitGraph, roots: &Vec<usize>)
    -> (r: SerializedUnitGraph)
    requires
        graph_wf(*g),
        forall|k: int| 0 <= k < roots@.len() ==> (#[trigger] roots@[k]) < g.units@.len(),
    ensures
        r.version == spec_unit_graph_version(),
        r.units@.len() == g.units@.len(),
        r.roots@ == roots@,
        // Entry i carries unit i's describing fields.
        forall|i: int| 0 <= i < g.units@.len()
            ==> (#[trigger] r.units@[i]).pkg@ == g.units@[i].pkg@
                && r.units@[i].target_name@ == g.units@[i].target.name@
                && r.units@[i].profile_name@ == g.units@[i].profile.name@
                && r.units@[i].kind == g.units@[i].kind
                && r.units@[i].mode == g.units@[i].mode
                && r.units@[i].features@.map_values(|s: String| s@)
                    == g.units@[i].features@.map_values(|s: String| s@),
        // Edge d of entry i is edge d of unit i, pointed at its index.
        forall|i: int| 0 <= i < g.units@.len()
            ==> (#[trigger] r.units@[i]).dependencies@.len() == g.deps@[i]@.len(),
        forall|i: int, d: int| 0 <= i < g.units@.len()
            && 0 <= d < g.deps@[i]@.len()
            ==> ((#[trigger] r.units@[i].dependencies@[d]).index
                    == g.deps@[i]@[d].unit_index
                && r.units@[i].dependencies@[d].index < i
                && r.units@[i].dependencies@[d].extern_crate_name@
                    == g.deps@[i]@[d].extern_crate_name@
                && r.units@[i].dependencies@[d].public == g.deps@[i]@[d].public
                && r.units@[i].dependencies@[d].noprelude
                    == g.deps@[i]@[d].noprelude),
{
    let mut units: Vec<SerializedUnit> = Vec::new();
    let mut i: usize = 0;
    while i < g.units.len()
        invariant
            graph_wf(*g),
            0 <= i <= g.units@.len(),
            units@.len() == i,
            forall|j: int| 0 <= j < i
                ==> (#[trigger] units@[j]).pkg@ == g.units@[j].pkg@
                    && units@[j].target_name@ == g.units@[j].target.name@
                    && units@[j].profile_name@ == g.units@[j].profile.name@
                    && units@[j].kind == g.units@[j].kind
                    && units@[j].mode == g.units@[j].mode
                    && units@[j].features@.map_values(|s: String| s@)
                        == g.units@[j].features@.map_values(|s: String| s@),
            forall|j: int| 0 <= j < i
                ==> (#[trigger] units@[j]).dependencies@.len() == g.deps@[j]@.len(),
            forall|j: int, d: int| 0 <= j < i && 0 <= d < g.deps@[j]@.len()
                ==> ((#[trigger] units@[j].dependencies@[d]).index
                        == g.deps@[j]@[d].unit_index
                    && units@[j].dependencies@[d].index < j
                    && units@[j].dependencies@[d].extern_crate_name@
                        == g.deps@[j]@[d].extern_crate_name@
                    && units@[j].dependencies@[d].public == g.deps@[j]@[d].public
                    && units@[j].dependencies@[d].noprelude
                        == g.deps@[j]@[d].noprelude),
        decreases g.units.len() - i,
    {
        let unit = &g.units[i];
        let edges = &g.deps[i];
        let mut dependencies: Vec<SerializedUnitDep> = Vec::new();
        let mut d: usize = 0;
        while d < edges.len()
            invariant
                graph_wf(*g),
                0 <= i < g.units@.len(),
                edges@ == g.deps@[i as int]@,
                0 <= d <= edges@.len(),
                dependencies@.len() == d,
                forall|e: int| 0 <= e < d
                    ==> ((#[trigger] dependencies@[e]).index
                            == g.deps@[i as int]@[e].unit_index
                        && dependencies@[e].index < i
                        && dependencies@[e].extern_crate_name@
                            == g.deps@[i as int]@[e].extern_crate_name@
                        && dependencies@[e].public == g.deps@[i as int]@[e].public
                        && dependencies@[e].noprelude
                            == g.deps@[i as int]@[e].noprelude),
            decreases edges.len() - d,
        {
            let edge = &edges[d];
            dependencies.push(SerializedUnitDep {
                index: edge.unit_index,
                extern_crate_name: InternedString::new(
                    edge.extern_crate_name.as_str()),
                public: edge.public,
                noprelude: edge.noprelude,
            });
            d += 1;
        }
        units.push(SerializedUnit {
            pkg: unit.pkg.dup(),
            target_name: unit.target.name.clone(),
            profile_name: unit.profile.name.clone(),
            kind: unit.kind,
            mode: unit.mode,
            features: crate::dependency::dup_strings(&unit.features),
            dependencies,
        });
        i += 1;
    }
    let mut out_roots: Vec<usize> = Vec::new();
    let mut k: usize = 0;
    while k < roots.len()
        invariant
            0 <= k <= roots@.len(),
            out_roots@ =~= roots@.subrange(0, k as int),
        decreases roots.len() - k,
    {
        out_roots.push(roots[k]);
        proof {
            assert(out_roots@ =~= roots@.subrange(0, k + 1));
        }
        k += 1;
    }
    proof {
        assert(out_roots@ =~= roots@);
    }
    SerializedUnitGraph { version: 1, units, roots: out_roots }
}

} // verus!
