//! Build-script bookkeeping: the state of executed scripts, the map of
//! which script outputs each unit must consume, and the replay of a
//! fresh script's recorded effects.

use vstd::prelude::*;
use crate::buildout::BuildOutput;
use crate::fingerprint::{Freshness, Preparation, Work};
use crate::ident::{PackageId, PackageIdV, spec_pkg_eq};
use crate::text::str_eq;
use crate::unit::{CompileKind, UnitGraph, graph_wf};

verus! {

/// The parsed outputs of executed (or overridden) build scripts,
/// keyed by package and compile kind.
pub struct BuildState {
    pub outputs: Vec<(PackageId, CompileKind, BuildOutput)>,
    /// Declared outputs substituted for scripts of overridden `links`
    /// packages, keyed by `links` name and kind.
    pub overrides: Vec<(String, CompileKind, BuildOutput)>,
}

/// The first recorded output for a package and kind, if any.
pub open spec fn spec_output_of(s: Seq<(PackageId, CompileKind, BuildOutput)>,
    id: PackageIdV, kind: CompileKind) -> Option<int>
    decreases s.len(),
{
    if s.len() == 0 {
        None
    } else if spec_pkg_eq(s[0].0@, id) && s[0].1 == kind {
        Some(0)
    } else {
        match spec_output_of(s.drop_first(), id, kind) {
            None => None,
            Some(i) => Some(i + 1),
        }
    }
}

impl BuildState {
    /// A state with no outputs recorded and the given overrides.
    pub fn new(overrides: Vec<(String, CompileKind, BuildOutput)>) -> (r: BuildState)
        ensures
            r.outputs@.len() == 0,
            r.overrides@ == overrides@,
    {
        BuildState { outputs: Vec::new(), overrides }
    }

    /// Records the output of a script run, appended last; a later
    /// lookup of the same key finds this value.
    pub fn insert(&mut self, id: PackageId, kind: CompileKind, output: BuildOutput)
        ensures
            final(self).outputs@ == old(self).outputs@.push((id, kind, output)),
            final(self).overrides@ == old(self).overrides@,
    {
        self.outputs.push((id, kind, output));
    }

    /// The latest recorded output for a package and kind.
    pub fn get(&self, id: &PackageId, kind: CompileKind) -> (r: Option<&BuildOutput>)
        ensures
            r is Some <==> exists|i: int| 0 <= i < self.outputs@.len()
                && spec_pkg_eq((#[trigger] self.outputs@[i]).0@, id@)
                && self.outputs@[i].1 == kind,
            r matches Some(o) ==> exists|i: int| 0 <= i < self.outputs@.len()
                && spec_pkg_eq((#[trigger] self.outputs@[i]).0@, id@)
                && self.outputs@[i].1 == kind && *o == self.outputs@[i].2
                && (forall|j: int| i < j < self.outputs@.len()
                    ==> !(spec_pkg_eq((#[trigger] self.outputs@[j]).0@, id@)
                        && self.outputs@[j].1 == kind)),
    {
        let mut k: usize = self.outputs.len();
        while k > 0
            invariant
                0 <= k <= self.outputs@.len(),
                forall|j: int| k <= j < self.outputs@.len()
                    ==> !(spec_pkg_eq((#[trigger] self.outputs@[j]).0@, id@)
                        && self.outputs@[j].1 == kind),
            decreases k,
        {
            k -= 1;
            let entry = &self.outputs[k];
            let kind_eq = match (entry.1, kind) {
                (CompileKind::Host, CompileKind::Host) => true,
                (CompileKind::Target, CompileKind::Target) => true,
                _ => false,
            };
            if entry.0.equals(id) && kind_eq {
                return Some(&self.outputs[k].2);
            }
        }
        None
    }

    /// The declared override for a `links` name and kind, if any.
    pub fn override_of(&self, links: &str, kind: CompileKind)
        -> (r: Option<&BuildOutput>)
        ensures
            r is Some <==> exists|i: int| 0 <= i < self.overrides@.len()
                && (#[trigger] self.overrides@[i]).0@ == links@
                && self.overrides@[i].1 == kind,
    {
        let mut k: usize = 0;
        while k < self.overrides.len()
            invariant
                0 <= k <= self.overrides@.len(),
                forall|j: int| 0 <= j < k
                    ==> !((#[trigger] self.overrides@[j]).0@ == links@
                        && self.overrides@[j].1 == kind),
            decreases self.overrides.len() - k,
        {
            let entry = &self.overrides[k];
            let kind_eq = match (entry.1, kind) {
                (CompileKind::Host, CompileKind::Host) => true,
                (CompileKind::Target, CompileKind::Target) => true,
                _ => false,
            };
            if str_eq(entry.0.as_str(), links) && kind_eq {
                assert(self.overrides@[k as int].0@ == links@);
                return Some(&self.overrides[k].2);
            }
            k += 1;
        }
        None
    }

    /// Applies the result of one custom-build unit. A fresh unit never
    /// re-runs its script: the recorded output of its last dirty run
    /// is replayed, so the effects downstream units see are exactly
    /// the recorded ones. A dirty unit records what it just produced.
    /// Fails only when a fresh unit has nothing recorded.
    pub fn apply_script_result(&mut self, id: PackageId, kind: CompileKind,
        freshness: Freshness, recorded: Option<BuildOutput>,
        executed: BuildOutput) -> (r: Result<(), ()>)
        ensures
            freshness is Fresh && recorded is Some ==> r is Ok
                && final(self).outputs@ == old(self).outputs@.push(
                    (id, kind, recorded->Some_0)),
            freshness is Fresh && recorded is None ==> r is Err
                && *final(self) == *old(self),
            freshness is Dirty ==> r is Ok
                && final(self).outputs@ == old(self).outputs@.push((id, kind, executed)),
    {
        match freshness {
            Freshness::Fresh => {
                match recorded {
                    Some(out) => {
                        self.insert(id, kind, out);
                        Ok(())
                    }
                    None => Err(()),
                }
            }
            Freshness::Dirty => {
                self.insert(id, kind, executed);
                Ok(())
            }
        }
    }
}

/// What a build script's prior outputs say about its inputs, carried
/// into the next freshness decision.
#[derive(Clone, Debug)]
pub struct BuildDeps {
    pub build_script_output: String,
    pub rerun_if_changed: Vec<String>,
    pub rerun_if_env_changed: Vec<String>,
}

impl BuildDeps {
    /// Collects the rerun lists out of a prior parsed output, or
    /// empty lists when there is none.
    pub fn new(output_file: &str, output: Option<&BuildOutput>) -> (r: BuildDeps)
        ensures
            r.build_script_output@ == output_file@,
            output matches Some(o) ==> (
                r.rerun_if_changed@.map_values(|s: String| s@)
                    == o.rerun_if_changed@.map_values(|s: String| s@)
                && r.rerun_if_env_changed@.map_values(|s: String| s@)
                    == o.rerun_if_env_changed@.map_values(|s: String| s@)),
            output is None ==> r.rerun_if_changed@.len() == 0
                && r.rerun_if_env_changed@.len() == 0,
    {
        match output {
            Some(o) => BuildDeps {
                build_script_output: output_file.to_owned(),
                rerun_if_changed: crate::dependency::dup_strings(&o.rerun_if_changed),
                rerun_if_env_changed: crate::dependency::dup_strings(
                    &o.rerun_if_env_changed),
            },
            None => BuildDeps {
                build_script_output: output_file.to_owned(),
                rerun_if_changed: Vec::new(),
                rerun_if_env_changed: Vec::new(),
            },
        }
    }
}

/// Which packages\' build-script outputs a unit must consume: the
/// `-L`-propagation list in dependency order, and host-side plugin
/// scripts.
pub struct BuildScripts {
    pub to_link: Vec<(PackageId, CompileKind)>,
    pub plugins: Vec<PackageId>,
}

/// The views of a propagation list.
pub open spec fn pair_views(s: Seq<(PackageId, CompileKind)>)
    -> Seq<(PackageIdV, CompileKind)> {
    s.map_values(|p: (PackageId, CompileKind)| (p.0@, p.1))
}

/// The pair is already listed, under full package equality.
pub open spec fn sp_present(s: Seq<(PackageIdV, CompileKind)>,
    p: (PackageIdV, CompileKind)) -> bool {
    exists|i: int| 0 <= i < s.len() && spec_pkg_eq((#[trigger] s[i]).0, p.0)
        && s[i].1 == p.1
}

/// Appends a pair unless an equal one is listed: order of first
/// appearance, each entry once.
pub open spec fn sp_add(s: Seq<(PackageIdV, CompileKind)>,
    p: (PackageIdV, CompileKind)) -> Seq<(PackageIdV, CompileKind)> {
    if sp_present(s, p) {
        s
    } else {
        s.push(p)
    }
}

/// Appends the first `n` pairs of `items`, each unless present.
pub open spec fn sp_add_all(s: Seq<(PackageIdV, CompileKind)>,
    items: Seq<(PackageIdV, CompileKind)>, n: int) -> Seq<(PackageIdV, CompileKind)>
    decreases n,
{
    if n <= 0 {
        s
    } else {
        sp_add(sp_add_all(s, items, n - 1), items[n - 1])
    }
}

/// The propagation list of unit `i`: its own script entry when its
/// package has one and the unit is not the script itself, then, per
/// dependency edge in order, the dependency\'s whole list — through
/// linkable dependencies only; host-side dependencies contribute to
/// `plugins` instead. Edges at or past `i` (absent from well-formed
/// graphs) contribute nothing.
pub open spec fn spec_to_link(g: UnitGraph, i: int) -> Seq<(PackageIdV, CompileKind)>
    decreases i, 1int, 0int,
{
    spec_fold_edges(g, i, 0, spec_own_entry(g, i))
}

/// A unit\'s own script entry, if any.
pub open spec fn spec_own_entry(g: UnitGraph, i: int)
    -> Seq<(PackageIdV, CompileKind)> {
    if 0 <= i < g.units@.len() && !(g.units@[i].target.kind is CustomBuild)
        && g.units@[i].has_custom_build {
        seq![(g.units@[i].pkg@, g.units@[i].kind)]
    } else {
        Seq::empty()
    }
}

/// Folds the edges of unit `i` from position `e` into `acc`.
pub open spec fn spec_fold_edges(g: UnitGraph, i: int, e: int,
    acc: Seq<(PackageIdV, CompileKind)>) -> Seq<(PackageIdV, CompileKind)>
    decreases i, 0int, edge_count(g, i) - e,
{
    if i < 0 || i >= g.deps@.len() || e < 0 || e >= g.deps@[i]@.len() {
        acc
    } else {
        let dep = g.deps@[i]@[e].unit_index as int;
        let acc2 = if dep < i && g.units@[dep].target.for_host {
            acc
        } else if dep < i && g.units@[dep].target.kind is Lib {
            sp_add_all(acc, spec_to_link(g, dep), spec_to_link(g, dep).len() as int)
        } else {
            acc
        };
        spec_fold_edges(g, i, e + 1, acc2)
    }
}

/// The edge count of unit `i`, or zero out of range.
pub open spec fn edge_count(g: UnitGraph, i: int) -> int {
    if 0 <= i < g.deps@.len() {
        g.deps@[i]@.len() as int
    } else {
        0
    }
}

/// The plugin scripts of unit `i`: per host-side dependency edge in
/// order, every package of that dependency\'s propagation list.
pub open spec fn spec_plugins(g: UnitGraph, i: int) -> Seq<PackageIdV>
    decreases i, 1int, 0int,
{
    spec_fold_plugins(g, i, 0, Seq::empty())
}

/// Folds the host-side edges of unit `i` from position `e`.
pub open spec fn spec_fold_plugins(g: UnitGraph, i: int, e: int, acc: Seq<PackageIdV>)
    -> Seq<PackageIdV>
    decreases i, 0int, edge_count(g, i) - e,
{
    if i < 0 || i >= g.deps@.len() || e < 0 || e >= g.deps@[i]@.len() {
        acc
    } else {
        let dep = g.deps@[i]@[e].unit_index as int;
        let acc2 = if dep < i && g.units@[dep].target.for_host {
            acc + spec_to_link(g, dep).map_values(
                |p: (PackageIdV, CompileKind)| p.0)
        } else {
            acc
        };
        spec_fold_plugins(g, i, e + 1, acc2)
    }
}

fn contains_pair(s: &Vec<(PackageId, CompileKind)>, id: &PackageId,
    kind: CompileKind) -> (r: bool)
    ensures
        r == sp_present(pair_views(s@), (id@, kind)),
{
    let mut i: usize = 0;
    while i < s.len()
        invariant
            0 <= i <= s@.len(),
            forall|j: int| 0 <= j < i ==> !(spec_pkg_eq((#[trigger] s@[j]).0@, id@)
                && s@[j].1 == kind),
        decreases s.len() - i,
    {
        let entry = &s[i];
        let kind_eq = match (entry.1, kind) {
            (CompileKind::Host, CompileKind::Host) => true,
            (CompileKind::Target, CompileKind::Target) => true,
            _ => false,
        };
        if entry.0.equals(id) && kind_eq {
            assert(spec_pkg_eq(pair_views(s@)[i as int].0, id@));
            return true;
        }
        i += 1;
    }
    proof {
        if sp_present(pair_views(s@), (id@, kind)) {
            let j = choose|j: int| 0 <= j < pair_views(s@).len()
                && spec_pkg_eq((#[trigger] pair_views(s@)[j]).0, id@)
                && pair_views(s@)[j].1 == kind;
            assert(spec_pkg_eq(s@[j].0@, id@) && s@[j].1 == kind);
        }
    }
    false
}

/// Appends a pair unless an equal one is listed, exactly as `sp_add`.
fn add_to_link(s: &mut Vec<(PackageId, CompileKind)>, id: &PackageId,
    kind: CompileKind)
    ensures
        pair_views(final(s)@) == sp_add(pair_views(old(s)@), (id@, kind)),
{
    if !contains_pair(s, id, kind) {
        let ghost before = s@;
        s.push((id.dup(), kind));
        proof {
            assert(pair_views(s@) =~= pair_views(before).push((id@, kind)));
        }
    } else {
        proof {
            assert(pair_views(s@) =~= sp_add(pair_views(s@), (id@, kind)));
        }
    }
}

/// Computes, for every unit of the graph, the set of build-script
/// outputs it must consume, exactly as `spec_to_link` and
/// `spec_plugins` state it: the unit\'s own script first when it has
/// one, then everything propagated through linkable dependencies,
/// each entry once, in order of first appearance; scripts reached
/// through host-side dependencies are collected as plugins instead.
pub fn build_map(g: &UnitGraph) -> (r: Vec<BuildScripts>)
    requires
        graph_wf(*g),
    ensures
        r@.len() == g.units@.len(),
        forall|i: int| 0 <= i < r@.len()
            ==> pair_views((#[trigger] r@[i]).to_link@) == spec_to_link(*g, i),
        forall|i: int| 0 <= i < r@.len()
            ==> (#[trigger] r@[i]).plugins@.map_values(|p: PackageId| p@)
                == spec_plugins(*g, i),
{
    let mut r: Vec<BuildScripts> = Vec::new();
    let mut i: usize = 0;
    while i < g.units.len()
        invariant
            graph_wf(*g),
            0 <= i <= g.units@.len(),
            r@.len() == i,
            forall|k: int| 0 <= k < r@.len()
                ==> pair_views((#[trigger] r@[k]).to_link@) == spec_to_link(*g, k),
            forall|k: int| 0 <= k < r@.len()
                ==> (#[trigger] r@[k]).plugins@.map_values(|p: PackageId| p@)
                    == spec_plugins(*g, k),
        decreases g.units.len() - i,
    {
        let unit = &g.units[i];
        let mut to_link: Vec<(PackageId, CompileKind)> = Vec::new();
        let mut plugins: Vec<PackageId> = Vec::new();
        if !unit.target.is_custom_build() && unit.has_custom_build {
            add_to_link(&mut to_link, &unit.pkg, unit.kind);
        }
        proof {
            assert(pair_views(to_link@) =~= spec_own_entry(*g, i as int));
            assert(plugins@.map_values(|p: PackageId| p@)
                =~= Seq::<PackageIdV>::empty());
        }
        let edges = &g.deps[i];
        let mut d: usize = 0;
        while d < edges.len()
            invariant
                graph_wf(*g),
                0 <= i < g.units@.len(),
                edges@ == g.deps@[i as int]@,
                r@.len() == i,
                0 <= d <= edges@.len(),
                forall|k: int| 0 <= k < r@.len()
                    ==> pair_views((#[trigger] r@[k]).to_link@) == spec_to_link(*g, k),
                forall|k: int| 0 <= k < r@.len()
                    ==> (#[trigger] r@[k]).plugins@.map_values(|p: PackageId| p@)
                        == spec_plugins(*g, k),
                spec_to_link(*g, i as int) == spec_fold_edges(*g, i as int, d as int,
                    pair_views(to_link@)),
                spec_plugins(*g, i as int) == spec_fold_plugins(*g, i as int, d as int,
                    plugins@.map_values(|p: PackageId| p@)),
            decreases edges.len() - d,
        {
            let dep_idx = edges[d].unit_index;
            assert(dep_idx < i);
            let dep_unit = &g.units[dep_idx];
            if dep_unit.target.for_host {
                let ghost accp = plugins@.map_values(|p: PackageId| p@);
                let ghost depl = spec_to_link(*g, dep_idx as int);
                let n = r[dep_idx].to_link.len();
                let mut p: usize = 0;
                while p < n
                    invariant
                        0 <= i < g.units@.len(),
                        dep_idx < i,
                        r@.len() == i,
                        n == r@[dep_idx as int].to_link@.len(),
                        pair_views(r@[dep_idx as int].to_link@) == depl,
                        0 <= p <= n,
                        plugins@.map_values(|q: PackageId| q@)
                            =~= accp + depl.map_values(
                                |q: (PackageIdV, CompileKind)| q.0)
                                .subrange(0, p as int),
                    decreases n - p,
                {
                    let ghost before = plugins@;
                    plugins.push(r[dep_idx].to_link[p].0.dup());
                    proof {
                        assert(plugins@.map_values(|q: PackageId| q@)
                            =~= before.map_values(|q: PackageId| q@)
                                .push(r@[dep_idx as int].to_link@[p as int].0@));
                        assert(depl.map_values(
                            |q: (PackageIdV, CompileKind)| q.0)[p as int]
                            == r@[dep_idx as int].to_link@[p as int].0@);
                        assert(plugins@.map_values(|q: PackageId| q@)
                            =~= accp + depl.map_values(
                                |q: (PackageIdV, CompileKind)| q.0)
                                .subrange(0, p + 1));
                    }
                    p += 1;
                }
                proof {
                    assert(depl.map_values(|q: (PackageIdV, CompileKind)| q.0)
                        .subrange(0, depl.len() as int)
                        =~= depl.map_values(|q: (PackageIdV, CompileKind)| q.0));
                }
            } else if dep_unit.target.linkable() {
                let ghost acc0 = pair_views(to_link@);
                let ghost depl = spec_to_link(*g, dep_idx as int);
                let n = r[dep_idx].to_link.len();
                let mut p: usize = 0;
                while p < n
                    invariant
                        0 <= i < g.units@.len(),
                        dep_idx < i,
                        r@.len() == i,
                        n == r@[dep_idx as int].to_link@.len(),
                        pair_views(r@[dep_idx as int].to_link@) == depl,
                        0 <= p <= n,
                        pair_views(to_link@) == sp_add_all(acc0, depl, p as int),
                    decreases n - p,
                {
                    let id = r[dep_idx].to_link[p].0.dup();
                    let kind = r[dep_idx].to_link[p].1;
                    proof {
                        assert(depl[p as int]
                            == (r@[dep_idx as int].to_link@[p as int].0@,
                                r@[dep_idx as int].to_link@[p as int].1));
                        assert(depl[p as int] == (id@, kind));
                    }
                    add_to_link(&mut to_link, &id, kind);
                    p += 1;
                }
            }
            d += 1;
        }
        r.push(BuildScripts { to_link, plugins });
        i += 1;
    }
    r
}

/// One byte as an environment-variable name carries it/// One byte as an environment-variable name carries it: letters
/// upper-cased, `-` turned into `_`, all else kept.
pub open spec fn envify_byte(b: u8) -> u8 {
    if 97 <= b <= 122 {
        (b - 32) as u8
    } else if b == 45 {
        95
    } else {
        b
    }
}

/// The byte text of a name as it appears in an environment variable.
pub open spec fn spec_envify(s: Seq<u8>) -> Seq<u8> {
    s.map_values(|b: u8| envify_byte(b))
}

/// Turns a feature or `links` name into its environment spelling.
pub fn envify(s: &str) -> (r: Vec<u8>)
    ensures
        r@ == spec_envify(crate::buildout::bytes_of(s@)),
{
    let bytes = s.as_bytes();
    let mut r: Vec<u8> = Vec::new();
    let mut i: usize = 0;
    while i < bytes.len()
        invariant
            0 <= i <= bytes@.len(),
            bytes@ == crate::buildout::bytes_of(s@),
            r@ =~= spec_envify(bytes@).subrange(0, i as int),
        decreases bytes.len() - i,
    {
        let b = bytes[i];
        let e: u8 = if 97 <= b && b <= 122 {
            b - 32
        } else if b == 45 {
            95
        } else {
            b
        };
        r.push(e);
        proof {
            assert(r@ =~= spec_envify(bytes@).subrange(0, i + 1));
        }
        i += 1;
    }
    proof {
        assert(r@ =~= spec_envify(bytes@));
    }
    r
}

/// The environment entries for the first `n` active features: name
/// `CARGO_FEATURE_<NAME>` and value `1`, in order; a feature whose
/// envified name is not valid text is passed over.
pub open spec fn spec_feature_env(features: Seq<String>, n: int)
    -> Seq<(Seq<u8>, Seq<char>)>
    decreases n,
{
    if n <= 0 {
        Seq::empty()
    } else {
        let name = crate::buildout::bytes_of("CARGO_FEATURE_"@)
            + spec_envify(crate::buildout::bytes_of(features[n - 1]@));
        if vstd::utf8::valid_utf8(name) {
            spec_feature_env(features, n - 1).push((name, "1"@))
        } else {
            spec_feature_env(features, n - 1)
        }
    }
}

/// The `CARGO_FEATURE_*` environment a build script receives, exactly
/// as `spec_feature_env` lists it.
pub fn feature_env(features: &Vec<String>) -> (r: Vec<(String, String)>)
    ensures
        r@.map_values(|e: (String, String)| (crate::buildout::bytes_of(e.0@), e.1@))
            == spec_feature_env(features@, features@.len() as int),
{
    proof {
        reveal_strlit("CARGO_FEATURE_");
        reveal_strlit("1");
    }
    let mut r: Vec<(String, String)> = Vec::new();
    proof {
        assert(r@.map_values(|e: (String, String)|
            (crate::buildout::bytes_of(e.0@), e.1@))
            =~= Seq::<(Seq<u8>, Seq<char>)>::empty());
    }
    let mut j: usize = 0;
    while j < features.len()
        invariant
            0 <= j <= features@.len(),
            r@.map_values(|e: (String, String)|
                (crate::buildout::bytes_of(e.0@), e.1@))
                == spec_feature_env(features@, j as int),
        decreases features.len() - j,
    {
        let mut name = crate::buildout::slice_to_vec("CARGO_FEATURE_".as_bytes());
        let tail = envify(features[j].as_str());
        crate::buildout::append_bytes(&mut name, tail.as_slice());
        let ghost namev = name@;
        match crate::buildout::bytes_to_string(name) {
            Some(n) => {
                let ghost before = r@;
                r.push((n, "1".to_owned()));
                proof {
                    assert(r@.map_values(|e: (String, String)|
                        (crate::buildout::bytes_of(e.0@), e.1@))
                        =~= before.map_values(|e: (String, String)|
                            (crate::buildout::bytes_of(e.0@), e.1@))
                            .push((namev, "1"@)));
                }
            }
            None => {}
        }
        j += 1;
    }
    r
}

/// The environment entries for the first `n` metadata pairs of an
/// upstream `links` package: name `DEP_<LINKS>_<KEY>` and the pair's
/// value, in order; a pair whose envified name is not valid text is
/// passed over.
pub open spec fn spec_dep_metadata_env(links: Seq<char>,
    metadata: Seq<(String, String)>, n: int) -> Seq<(Seq<u8>, Seq<char>)>
    decreases n,
{
    if n <= 0 {
        Seq::empty()
    } else {
        let name = crate::buildout::bytes_of("DEP_"@)
            + spec_envify(crate::buildout::bytes_of(links))
            + crate::buildout::bytes_of("_"@)
            + spec_envify(crate::buildout::bytes_of(metadata[n - 1].0@));
        if vstd::utf8::valid_utf8(name) {
            spec_dep_metadata_env(links, metadata, n - 1)
                .push((name, metadata[n - 1].1@))
        } else {
            spec_dep_metadata_env(links, metadata, n - 1)
        }
    }
}

/// The `DEP_<LINKS>_<KEY>` environment a build script receives from
/// one upstream `links` package, exactly as `spec_dep_metadata_env`
/// lists it.
pub fn dep_metadata_env(links: &str, metadata: &Vec<(String, String)>)
    -> (r: Vec<(String, String)>)
    ensures
        r@.map_values(|e: (String, String)| (crate::buildout::bytes_of(e.0@), e.1@))
            == spec_dep_metadata_env(links@, metadata@, metadata@.len() as int),
{
    proof {
        reveal_strlit("DEP_");
        reveal_strlit("_");
    }
    let prefix = {
        let mut p = crate::buildout::slice_to_vec("DEP_".as_bytes());
        let l = envify(links);
        crate::buildout::append_bytes(&mut p, l.as_slice());
        crate::buildout::append_bytes(&mut p, "_".as_bytes());
        proof {
            assert(p@ =~= crate::buildout::bytes_of("DEP_"@)
                + spec_envify(crate::buildout::bytes_of(links@))
                + crate::buildout::bytes_of("_"@));
        }
        p
    };
    let ghost prefixv = prefix@;
    let mut r: Vec<(String, String)> = Vec::new();
    proof {
        assert(r@.map_values(|e: (String, String)|
            (crate::buildout::bytes_of(e.0@), e.1@))
            =~= Seq::<(Seq<u8>, Seq<char>)>::empty());
    }
    let mut j: usize = 0;
    while j < metadata.len()
        invariant
            0 <= j <= metadata@.len(),
            prefix@ == prefixv,
            prefixv == crate::buildout::bytes_of("DEP_"@)
                + spec_envify(crate::buildout::bytes_of(links@))
                + crate::buildout::bytes_of("_"@),
            r@.map_values(|e: (String, String)|
                (crate::buildout::bytes_of(e.0@), e.1@))
                == spec_dep_metadata_env(links@, metadata@, j as int),
        decreases metadata.len() - j,
    {
        let mut name = crate::buildout::subvec(&prefix, 0, prefix.len());
        proof {
            assert(name@ =~= prefixv);
        }
        let key = envify(metadata[j].0.as_str());
        crate::buildout::append_bytes(&mut name, key.as_slice());
        let ghost namev = name@;
        proof {
            assert(namev =~= crate::buildout::bytes_of("DEP_"@)
                + spec_envify(crate::buildout::bytes_of(links@))
                + crate::buildout::bytes_of("_"@)
                + spec_envify(crate::buildout::bytes_of(metadata@[j as int].0@)));
        }
        match crate::buildout::bytes_to_string(name) {
            Some(n) => {
                let ghost before = r@;
                r.push((n, metadata[j].1.clone()));
                proof {
                    assert(r@.map_values(|e: (String, String)|
                        (crate::buildout::bytes_of(e.0@), e.1@))
                        =~= before.map_values(|e: (String, String)|
                            (crate::buildout::bytes_of(e.0@), e.1@))
                            .push((namev, metadata@[j as int].1@)));
                }
            }
            None => {}
        }
        j += 1;
    }
    r
}

/// The fixed part of the controlled environment a build script runs
/// under, entry by entry: the scratch directory, the package root,
/// the worker count, the target and host triples, the codegen facts,
/// the profile word, the tool paths, and the `links` claim when the
/// package has one.
pub fn script_static_env(out_dir: &str, manifest_dir: &str, num_jobs: u64,
    target: &str, host: &str, opt_level: &str, debug: bool, release: bool,
    rustc: &str, rustdoc: &str, links: &Option<String>)
    -> (r: Vec<(String, String)>)
    ensures
        r@.len() == if links is Some { 11int } else { 10int },
        r@[0].0@ == "OUT_DIR"@ && r@[0].1@ == out_dir@,
        r@[1].0@ == "CARGO_MANIFEST_DIR"@ && r@[1].1@ == manifest_dir@,
        r@[2].0@ == "NUM_JOBS"@ && r@[2].1@ == crate::text::dec_seq(num_jobs),
        r@[3].0@ == "TARGET"@ && r@[3].1@ == target@,
        r@[4].0@ == "HOST"@ && r@[4].1@ == host@,
        r@[5].0@ == "OPT_LEVEL"@ && r@[5].1@ == opt_level@,
        r@[6].0@ == "DEBUG"@
            && r@[6].1@ == if debug { "true"@ } else { "false"@ },
        r@[7].0@ == "PROFILE"@
            && r@[7].1@ == if release { "release"@ } else { "debug"@ },
        r@[8].0@ == "RUSTC"@ && r@[8].1@ == rustc@,
        r@[9].0@ == "RUSTDOC"@ && r@[9].1@ == rustdoc@,
        links matches Some(l) ==> r@[10].0@ == "CARGO_MANIFEST_LINKS"@
            && r@[10].1@ == l@,
{
    proof {
        reveal_strlit("OUT_DIR");
        reveal_strlit("CARGO_MANIFEST_DIR");
        reveal_strlit("NUM_JOBS");
        reveal_strlit("TARGET");
        reveal_strlit("HOST");
        reveal_strlit("OPT_LEVEL");
        reveal_strlit("DEBUG");
        reveal_strlit("true");
        reveal_strlit("false");
        reveal_strlit("PROFILE");
        reveal_strlit("release");
        reveal_strlit("debug");
        reveal_strlit("RUSTC");
        reveal_strlit("RUSTDOC");
        reveal_strlit("CARGO_MANIFEST_LINKS");
    }
    let mut r: Vec<(String, String)> = Vec::new();
    r.push(("OUT_DIR".to_owned(), out_dir.to_owned()));
    r.push(("CARGO_MANIFEST_DIR".to_owned(), manifest_dir.to_owned()));
    r.push(("NUM_JOBS".to_owned(), crate::text::dec_u64(num_jobs)));
    r.push(("TARGET".to_owned(), target.to_owned()));
    r.push(("HOST".to_owned(), host.to_owned()));
    r.push(("OPT_LEVEL".to_owned(), opt_level.to_owned()));
    r.push((
        "DEBUG".to_owned(),
        if debug { "true".to_owned() } else { "false".to_owned() },
    ));
    r.push((
        "PROFILE".to_owned(),
        if release { "release".to_owned() } else { "debug".to_owned() },
    ));
    r.push(("RUSTC".to_owned(), rustc.to_owned()));
    r.push(("RUSTDOC".to_owned(), rustdoc.to_owned()));
    match links {
        Some(l) => {
            r.push(("CARGO_MANIFEST_LINKS".to_owned(), l.clone()));
        }
        None => {}
    }
    r
}

/// Combines the script work with the fingerprint preparation for a
/// custom-build unit: an overridden script has no dirty work of its
/// own, every other unit keeps the preparation's.
pub fn prepare(overridden: bool, prep: Preparation) -> (r: (Work, Work, Freshness))
    ensures
        r.0 == if overridden { Work::Noop } else { prep.dirty },
        r.1 == prep.fresh,
        r.2 == prep.freshness,
{
    if overridden {
        (Work::Noop, prep.fresh, prep.freshness)
    } else {
        (prep.dirty, prep.fresh, prep.freshness)
    }
}

} // verus!
