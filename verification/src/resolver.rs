//! The resolver: picks one concrete version per required package by
//! backtracking search over registry candidates, with a conflict cache,
//! and returns a selection proved sound against `valid_resolution`.

use vstd::prelude::*;
use vstd::string::StringExecFns;
use crate::dependency::{Dependency, DependencyV, Kind, dep_wf};
use crate::ident::{PackageId, PackageIdV, SourceId, spec_loose_eq, spec_pkg_eq, spec_pkg_text,
    spec_source_text};
use crate::registry::{Registry, dep_matches_id, occurs_v};
use crate::summary::{Summary, SummaryV, summary_wf, contains_str};
use crate::text::str_eq;

verus! {

/// The mathematical shape of one selected package.
pub struct NodeV {
    pub summary: SummaryV,
    pub features: Seq<Seq<char>>,
}

/// One selected package with its activated features.
#[derive(Clone, Debug)]
pub struct ResolvedNode {
    summary: Summary,
    features: Vec<String>,
}

impl View for ResolvedNode {
    type V = NodeV;

    closed spec fn view(&self) -> NodeV {
        NodeV {
            summary: self.summary@,
            features: self.features@.map_values(|s: String| s@),
        }
    }
}

impl ResolvedNode {
    /// The summary of the selected package.
    pub fn summary(&self) -> (r: &Summary)
        ensures
            r@ == self@.summary,
    {
        &self.summary
    }

    /// The features active for it.
    pub fn features(&self) -> (r: &Vec<String>)
        ensures
            r@.map_values(|s: String| s@) == self@.features,
    {
        &self.features
    }
}

/// `s` is an element of the character-sequence list `vs`.
pub open spec fn seq_has(vs: Seq<Seq<char>>, s: Seq<char>) -> bool {
    exists|k: int| 0 <= k < vs.len() && #[trigger] vs[k] == s
}

/// The dependencies resolution must honour: non-optional ones, and
/// dev-dependencies only at the root.
pub open spec fn dep_relevant(is_root: bool, d: DependencyV) -> bool {
    !d.optional && (is_root || !(d.kind is Development))
}

/// A dependency is satisfied in a selection when some node matches it
/// and carries every requested feature.
pub open spec fn dep_satisfied_in(d: DependencyV, nodes: Seq<NodeV>) -> bool {
    exists|k: int| 0 <= k < nodes.len()
        && dep_matches_id(d, (#[trigger] nodes[k]).summary.id)
        && (forall|f: int| 0 <= f < d.features.len()
            ==> seq_has(nodes[k].features, #[trigger] d.features[f]))
}

/// Same name, same source, and versions in one compatibility class:
/// two such packages cannot both be selected.
pub open spec fn same_pkg_class(a: PackageIdV, b: PackageIdV) -> bool {
    a.name == b.name && spec_loose_eq(a.source_id, b.source_id)
        && a.version.spec_compatible(b.version)
}

/// At most one selected package per `links` value.
pub open spec fn links_unique(nodes: Seq<NodeV>) -> bool {
    forall|i: int, j: int| 0 <= i < j < nodes.len()
        && (#[trigger] nodes[i]).summary.links is Some
        && (#[trigger] nodes[j]).summary.links is Some
        ==> nodes[i].summary.links != nodes[j].summary.links
}

/// At most one selected version per compatibility class of a name.
pub open spec fn classes_unique(nodes: Seq<NodeV>) -> bool {
    forall|i: int, j: int| 0 <= i < j < nodes.len()
        ==> !same_pkg_class((#[trigger] nodes[i]).summary.id,
            (#[trigger] nodes[j]).summary.id)
}

/// The synthetic summary resolution gives the root package.
pub open spec fn spec_root_summary(id: PackageIdV, deps: Seq<DependencyV>) -> SummaryV {
    SummaryV { id, deps, features: Seq::empty(), links: None }
}

/// Every dependency of every node that resolution must honour is
/// satisfied inside the selection.
pub open spec fn deps_closed(nodes: Seq<NodeV>) -> bool {
    forall|i: int, d: int| 0 <= i < nodes.len()
        && 0 <= d < (#[trigger] nodes[i]).summary.deps.len()
        && dep_relevant(i == 0, #[trigger] nodes[i].summary.deps[d])
        ==> dep_satisfied_in(nodes[i].summary.deps[d], nodes)
}

/// Soundness of a selection: the root is node zero, every other node
/// is a registry summary, versions are unique per compatibility class,
/// `links` values are unique, and the relevant dependency edges all
/// land inside the selection.
pub open spec fn valid_resolution(reg: Seq<SummaryV>, root: SummaryV, nodes: Seq<NodeV>)
    -> bool {
    &&& nodes.len() >= 1
    &&& nodes[0].summary == root
    &&& forall|i: int| 1 <= i < nodes.len() ==> occurs_v(reg, (#[trigger] nodes[i]).summary)
    &&& classes_unique(nodes)
    &&& links_unique(nodes)
    &&& deps_closed(nodes)
}

/// No summary of the registry satisfies a dependency with this name,
/// source and requirement.
pub open spec fn spec_no_candidate(reg: Seq<SummaryV>, name: Seq<char>,
    source: crate::ident::SourceIdV, req: Seq<crate::req::ComparatorV>) -> bool {
    forall|k: int| 0 <= k < reg.len()
        ==> !((#[trigger] reg[k]).id.name == name
            && spec_loose_eq(source, reg[k].id.source_id)
            && crate::req::req_matches(req, reg[k].id.version))
}

/// What a reported failure claims of the registry: a missing-package
/// report is truthful — nothing in the registry satisfies the named
/// requirement. The other kinds make no registry claim.
pub open spec fn err_truthful(e: ResolveError, reg: Seq<SummaryV>) -> bool {
    match e {
        ResolveError::NoMatching { name, source, req, parent } =>
            spec_no_candidate(reg, name@, source@, req@),
        _ => true,
    }
}

/// Every summary a registry serves is well formed.
pub open spec fn registry_wf(reg: Seq<SummaryV>) -> bool {
    forall|k: int| 0 <= k < reg.len() ==> summary_wf(#[trigger] reg[k])
}

/// Law: in any valid resolution, two distinct selected packages never
/// claim the same `links` name.
pub proof fn lemma_links_uniqueness(reg: Seq<SummaryV>, root: SummaryV, nodes: Seq<NodeV>,
    i: int, j: int)
    requires
        valid_resolution(reg, root, nodes),
        0 <= i < nodes.len(),
        0 <= j < nodes.len(),
        i != j,
        nodes[i].summary.links is Some,
        nodes[j].summary.links is Some,
    ensures
        nodes[i].summary.links != nodes[j].summary.links,
{
}

/// Law: in any valid resolution, two selected versions of one name in
/// one source always fall in different compatibility classes.
pub proof fn lemma_class_uniqueness(reg: Seq<SummaryV>, root: SummaryV, nodes: Seq<NodeV>,
    i: int, j: int)
    requires
        valid_resolution(reg, root, nodes),
        0 <= i < nodes.len(),
        0 <= j < nodes.len(),
        i != j,
        nodes[i].summary.id.name == nodes[j].summary.id.name,
        spec_loose_eq(nodes[i].summary.id.source_id, nodes[j].summary.id.source_id),
    ensures
        !nodes[i].summary.id.version.spec_compatible(nodes[j].summary.id.version),
{
}

/// Law: in any valid resolution, every relevant root dependency is
/// satisfied by a selected package.
pub proof fn lemma_root_deps_satisfied(reg: Seq<SummaryV>, root: SummaryV,
    nodes: Seq<NodeV>, d: int)
    requires
        valid_resolution(reg, root, nodes),
        0 <= d < root.deps.len(),
        dep_relevant(true, root.deps[d]),
    ensures
        dep_satisfied_in(root.deps[d], nodes),
{
    assert(nodes[0].summary.deps[d] == root.deps[d]);
}

/// Why resolution failed.
#[derive(Debug)]
pub enum ResolveError {
    /// No summary in the searched source satisfies the requirement.
    NoMatching { name: String, source: SourceId, req: crate::req::VersionReq,
        parent: PackageId },
    /// A candidate claims a `links` name an already-selected package holds.
    LinksConflict { links: String, candidate: PackageId, holder: PackageId },
    /// Candidates existed but every line of search ended in conflicts.
    NoSolution { name: String, parent: PackageId },
    /// The search gave up; reported only if its step budget runs dry.
    Budget,
}

/// The rendering of a resolution error.
pub open spec fn spec_error_text(e: ResolveError) -> Seq<char> {
    match e {
        ResolveError::NoMatching { name, source, parent, .. } =>
            "no matching package named `"@ + name@ + "` found\nlocation searched: "@
                + spec_source_text(source@) + "\nrequired by package `"@
                + spec_pkg_text(parent@) + "`"@,
        ResolveError::LinksConflict { links, candidate, holder } =>
            "native library `"@ + links@ + "` is linked by both `"@
                + spec_pkg_text(candidate@) + "` and `"@ + spec_pkg_text(holder@) + "`"@,
        ResolveError::NoSolution { name, parent } =>
            "failed to select a version for `"@ + name@ + "`\nrequired by package `"@
                + spec_pkg_text(parent@) + "`"@,
        ResolveError::Budget =>
            "resolution gave up: step budget exhausted"@,
    }
}

impl ResolveError {
    /// Renders the error for display.
    pub fn to_text(&self) -> (r: String)
        ensures
            r@ == spec_error_text(*self),
    {
        match self {
            ResolveError::NoMatching { name, source, parent, .. } => {
                let mut r: String = "no matching package named `".to_owned();
                r.append(name.as_str());
                r.append("` found\nlocation searched: ");
                let s = source.to_text();
                r.append(s.as_str());
                r.append("\nrequired by package `");
                let p = parent.to_text();
                r.append(p.as_str());
                r.append("`");
                proof {
                    assert(r@ =~= spec_error_text(*self));
                }
                r
            }
            ResolveError::LinksConflict { links, candidate, holder } => {
                let mut r: String = "native library `".to_owned();
                r.append(links.as_str());
                r.append("` is linked by both `");
                let c = candidate.to_text();
                r.append(c.as_str());
                r.append("` and `");
                let h = holder.to_text();
                r.append(h.as_str());
                r.append("`");
                proof {
                    assert(r@ =~= spec_error_text(*self));
                }
                r
            }
            ResolveError::NoSolution { name, parent } => {
                let mut r: String = "failed to select a version for `".to_owned();
                r.append(name.as_str());
                r.append("`\nrequired by package `");
                let p = parent.to_text();
                r.append(p.as_str());
                r.append("`");
                proof {
                    assert(r@ =~= spec_error_text(*self));
                }
                r
            }
            ResolveError::Budget => {
                let r: String = "resolution gave up: step budget exhausted".to_owned();
                proof {
                    assert(r@ =~= spec_error_text(*self));
                }
                r
            }
        }
    }
}

/// The outcome of resolution: the selected packages, root first.
#[derive(Clone, Debug)]
pub struct Resolve {
    nodes: Vec<ResolvedNode>,
}

impl View for Resolve {
    type V = Seq<NodeV>;

    closed spec fn view(&self) -> Seq<NodeV> {
        self.nodes@.map_values(|n: ResolvedNode| n@)
    }
}

impl Resolve {
    /// How many packages are selected.
    pub fn len(&self) -> (r: usize)
        ensures
            r == self@.len(),
    {
        self.nodes.len()
    }

    /// The selected nodes, root first.
    pub fn nodes(&self) -> (r: &Vec<ResolvedNode>)
        ensures
            r@.map_values(|n: ResolvedNode| n@) == self@,
    {
        &self.nodes
    }

    /// True when `id` is a selected package.
    pub fn contains(&self, id: &PackageId) -> (r: bool)
        ensures
            r == exists|k: int| 0 <= k < self@.len()
                && spec_pkg_eq((#[trigger] self@[k]).summary.id, id@),
    {
        let mut k: usize = 0;
        while k < self.nodes.len()
            invariant
                0 <= k <= self.nodes.len(),
                forall|j: int| 0 <= j < k
                    ==> !spec_pkg_eq((#[trigger] self.nodes@[j])@.summary.id, id@),
            decreases self.nodes.len() - k,
        {
            if self.nodes[k].summary.package_id().equals(id) {
                assert(spec_pkg_eq(self@[k as int].summary.id, id@));
                return true;
            }
            k += 1;
        }
        assert(forall|j: int| 0 <= j < self@.len()
            ==> !spec_pkg_eq((#[trigger] self@[j]).summary.id, id@));
        false
    }

    /// The activated features of a selected package, if selected.
    pub fn features_of(&self, id: &PackageId) -> (r: Option<&Vec<String>>)
        ensures
            r is Some ==> exists|k: int| 0 <= k < self@.len()
                && spec_pkg_eq((#[trigger] self@[k]).summary.id, id@),
    {
        let mut k: usize = 0;
        while k < self.nodes.len()
            invariant
                0 <= k <= self.nodes.len(),
            decreases self.nodes.len() - k,
        {
            if self.nodes[k].summary.package_id().equals(id) {
                assert(spec_pkg_eq(self@[k as int].summary.id, id@));
                return Some(&self.nodes[k].features);
            }
            k += 1;
        }
        None
    }
}

// ---------------------------------------------------------------------
// Search state
// ---------------------------------------------------------------------

/// A dependency awaiting assignment, with the package that declared it.
struct PendingDep {
    parent: PackageId,
    dep: Dependency,
}

/// One choice point of the search.
struct Frame {
    dep: Dependency,
    parent: PackageId,
    candidates: Vec<Summary>,
    next: usize,
    act_len: usize,
    pending_saved: Vec<PendingDep>,
    reasons: Vec<PackageId>,
}

/// A remembered dead end: the dependency cannot be satisfied whenever
/// all the listed packages are selected. An empty list means never.
struct CacheEntry {
    dep: Dependency,
    ids: Vec<PackageId>,
}

spec fn pend_ok(p: Seq<PendingDep>) -> bool {
    forall|i: int| 0 <= i < p.len() ==> dep_wf((#[trigger] p[i]).dep@)
}

spec fn frame_ok(fr: Frame, reg: Seq<SummaryV>) -> bool {
    &&& 1 <= fr.act_len
    &&& dep_wf(fr.dep@)
    &&& pend_ok(fr.pending_saved@)
    &&& forall|c: int| 0 <= c < fr.candidates@.len()
        ==> occurs_v(reg, (#[trigger] fr.candidates@[c])@)
}

spec fn frames_ok(st: Seq<Frame>, reg: Seq<SummaryV>) -> bool {
    &&& forall|f: int| 0 <= f < st.len() ==> frame_ok(#[trigger] st[f], reg)
    &&& forall|f1: int, f2: int| 0 <= f1 <= f2 < st.len()
        ==> (#[trigger] st[f1]).act_len <= (#[trigger] st[f2]).act_len
}

spec fn acts_ok(act: Seq<ResolvedNode>, reg: Seq<SummaryV>, rootv: SummaryV) -> bool {
    &&& act.len() >= 1
    &&& act[0]@.summary == rootv
    &&& forall|i: int| 1 <= i < act.len() ==> occurs_v(reg, (#[trigger] act[i])@.summary)
}

/// What one pending dependency looks like against the current state.
enum DepStatus {
    /// Unsatisfiable while the listed packages stay selected; an empty
    /// list means unsatisfiable outright.
    Conflict(Vec<PackageId>, Option<ResolveError>),
    /// Open, with these candidates in precedence order, and the
    /// selected packages that excluded other candidates. A candidate
    /// in the compatibility class of an already-selected version is
    /// that selected summary itself, so choosing it changes nothing.
    Candidates(Vec<Summary>, Vec<PackageId>),
}

fn features_subset(wanted: &Vec<String>, have: &Vec<String>) -> (r: bool)
{
    let mut i: usize = 0;
    while i < wanted.len()
        decreases wanted.len() - i,
    {
        if !contains_str(have, wanted[i].as_str()) {
            return false;
        }
        i += 1;
    }
    true
}

fn opt_u64_eq(a: &Option<u64>, b: &Option<u64>) -> (r: bool)
{
    match (a, b) {
        (Some(x), Some(y)) => *x == *y,
        (None, None) => true,
        _ => false,
    }
}

fn req_eq(a: &crate::req::VersionReq, b: &crate::req::VersionReq) -> (r: bool)
{
    if a.comparators.len() != b.comparators.len() {
        return false;
    }
    let mut i: usize = 0;
    while i < a.comparators.len()
        invariant
            a.comparators@.len() == b.comparators@.len(),
            0 <= i <= a.comparators@.len(),
        decreases a.comparators.len() - i,
    {
        let x = &a.comparators[i];
        let y = &b.comparators[i];
        let same_op = match (x.op, y.op) {
            (crate::req::Op::Exact, crate::req::Op::Exact) => true,
            (crate::req::Op::Greater, crate::req::Op::Greater) => true,
            (crate::req::Op::GreaterEq, crate::req::Op::GreaterEq) => true,
            (crate::req::Op::Less, crate::req::Op::Less) => true,
            (crate::req::Op::LessEq, crate::req::Op::LessEq) => true,
            (crate::req::Op::Tilde, crate::req::Op::Tilde) => true,
            (crate::req::Op::Caret, crate::req::Op::Caret) => true,
            (crate::req::Op::Wildcard, crate::req::Op::Wildcard) => true,
            _ => false,
        };
        if !same_op || x.major != y.major || !opt_u64_eq(&x.minor, &y.minor)
            || !opt_u64_eq(&x.patch, &y.patch)
            || !str_eq(x.pre.as_str(), y.pre.as_str()) {
            return false;
        }
        i += 1;
    }
    true
}

fn string_lists_eq(a: &Vec<String>, b: &Vec<String>) -> (r: bool)
{
    if a.len() != b.len() {
        return false;
    }
    let mut i: usize = 0;
    while i < a.len()
        invariant
            a@.len() == b@.len(),
            0 <= i <= a@.len(),
        decreases a.len() - i,
    {
        if !str_eq(a[i].as_str(), b[i].as_str()) {
            return false;
        }
        i += 1;
    }
    true
}

/// Identity of two dependency declarations, for conflict-cache lookup.
fn dep_ident_eq(a: &Dependency, b: &Dependency) -> (r: bool)
{
    str_eq(a.get_name(), b.get_name())
        && a.get_source_id().loose_eq(b.get_source_id())
        && req_eq(a.get_version_req(), b.get_version_req())
        && (match (a.get_kind(), b.get_kind()) {
            (Kind::Normal, Kind::Normal) => true,
            (Kind::Build, Kind::Build) => true,
            (Kind::Development, Kind::Development) => true,
            _ => false,
        })
        && a.is_optional() == b.is_optional()
        && a.uses_default_features() == b.uses_default_features()
        && string_lists_eq(a.get_features(), b.get_features())
}

/// True when every listed id is a currently selected package.
fn ids_subset(ids: &Vec<PackageId>, act: &Vec<ResolvedNode>) -> (r: bool)
{
    let mut i: usize = 0;
    while i < ids.len()
        invariant
            0 <= i <= ids@.len(),
        decreases ids.len() - i,
    {
        let mut found = false;
        let mut k: usize = 0;
        while k < act.len()
            invariant
                0 <= i < ids@.len(),
                0 <= k <= act@.len(),
            decreases act.len() - k,
        {
            if act[k].summary.package_id().equals(&ids[i]) {
                found = true;
                break;
            }
            k += 1;
        }
        if !found {
            return false;
        }
        i += 1;
    }
    true
}

/// True when an equal id is listed.
fn id_listed(ids: &Vec<PackageId>, id: &PackageId) -> (r: bool)
{
    let mut i: usize = 0;
    while i < ids.len()
        invariant
            0 <= i <= ids@.len(),
        decreases ids.len() - i,
    {
        if ids[i].equals(id) {
            return true;
        }
        i += 1;
    }
    false
}

/// Appends `id` unless an equal id is already listed.
fn push_unique(ids: &mut Vec<PackageId>, id: &PackageId)
{
    let mut i: usize = 0;
    while i < ids.len()
        decreases ids.len() - i,
    {
        if ids[i].equals(id) {
            return;
        }
        i += 1;
    }
    ids.push(id.dup());
}

fn dup_ids(ids: &Vec<PackageId>) -> (r: Vec<PackageId>)
{
    let mut r: Vec<PackageId> = Vec::new();
    let mut i: usize = 0;
    while i < ids.len()
        decreases ids.len() - i,
    {
        r.push(ids[i].dup());
        i += 1;
    }
    r
}

fn dup_pending(p: &Vec<PendingDep>) -> (r: Vec<PendingDep>)
    requires
        pend_ok(p@),
    ensures
        pend_ok(r@),
{
    let mut r: Vec<PendingDep> = Vec::new();
    let mut i: usize = 0;
    while i < p.len()
        invariant
            pend_ok(p@),
            pend_ok(r@),
            0 <= i <= p@.len(),
        decreases p.len() - i,
    {
        let ghost before = r@;
        r.push(PendingDep { parent: p[i].parent.dup(), dep: p[i].dep.dup() });
        proof {
            assert(forall|j: int| 0 <= j < r@.len()
                ==> dep_wf((#[trigger] r@[j]).dep@));
        }
        i += 1;
    }
    r
}

/// The dependencies of `s` that resolution must honour, as pending
/// entries carrying `s` as their parent.
fn relevant_deps(s: &Summary, is_root: bool) -> (r: Vec<PendingDep>)
    requires
        summary_wf(s@),
    ensures
        pend_ok(r@),
        r@.len() <= s@.deps.len(),
        forall|d: int| 0 <= d < s@.deps.len() && dep_relevant(is_root, #[trigger] s@.deps[d])
            ==> exists|k: int| 0 <= k < r@.len() && (#[trigger] r@[k]).dep@ == s@.deps[d],
{
    let mut r: Vec<PendingDep> = Vec::new();
    let deps = s.dependencies();
    let mut d: usize = 0;
    while d < deps.len()
        invariant
            deps@.map_values(|x: Dependency| x@) == s@.deps,
            summary_wf(s@),
            pend_ok(r@),
            r@.len() <= d,
            0 <= d <= deps@.len(),
            forall|j: int| 0 <= j < d && dep_relevant(is_root, #[trigger] s@.deps[j])
                ==> exists|k: int| 0 <= k < r@.len() && (#[trigger] r@[k]).dep@ == s@.deps[j],
        decreases deps.len() - d,
    {
        let dep = &deps[d];
        assert(dep@ == s@.deps[d as int]);
        let keep = !dep.is_optional()
            && (is_root || !matches!(dep.get_kind(), Kind::Development));
        if keep {
            let ghost before = r@;
            r.push(PendingDep { parent: s.package_id().dup(), dep: dep.dup() });
            proof {
                assert(r@[before.len() as int].dep@ == s@.deps[d as int]);
                assert forall|j: int| 0 <= j < d + 1
                    && dep_relevant(is_root, #[trigger] s@.deps[j])
                    implies exists|k: int| 0 <= k < r@.len()
                        && (#[trigger] r@[k]).dep@ == s@.deps[j] by {
                    if j < d {
                        let k = choose|k: int| 0 <= k < before.len()
                            && (#[trigger] before[k]).dep@ == s@.deps[j];
                        assert(r@[k].dep@ == s@.deps[j]);
                    } else {
                        assert(r@[before.len() as int].dep@ == s@.deps[j]);
                    }
                }
            }
        } else {
            assert(!dep_relevant(is_root, s@.deps[d as int]));
        }
        d += 1;
    }
    r
}

/// Evaluates one pending dependency against the current selection.
/// Candidates whose compatibility class already has a selected version
/// are replaced by that version when it satisfies the dependency, and
/// counted as conflicts when it does not.
fn eval_dep(act: &Vec<ResolvedNode>, pd: &PendingDep, registry: &Registry, minimal: bool,
    cache: &Vec<CacheEntry>) -> (r: DepStatus)
    requires
        dep_wf(pd.dep@),
        forall|i: int| 1 <= i < act@.len()
            ==> occurs_v(registry@, (#[trigger] act@[i])@.summary),
    ensures
        r matches DepStatus::Candidates(cs, excluded) ==> cs@.len() > 0
            && forall|c: int| 0 <= c < cs@.len()
                ==> occurs_v(registry@, (#[trigger] cs@[c])@),
        r matches DepStatus::Conflict(cset, maybe_err) ==> match maybe_err {
            Some(e) => err_truthful(e, registry@),
            None => true,
        },
{
    let dep = &pd.dep;
    // A remembered dead end that still applies?
    let mut e: usize = 0;
    while e < cache.len()
        invariant
            0 <= e <= cache@.len(),
        decreases cache.len() - e,
    {
        if dep_ident_eq(&cache[e].dep, dep) && ids_subset(&cache[e].ids, act) {
            return DepStatus::Conflict(dup_ids(&cache[e].ids), None);
        }
        e += 1;
    }
    // Query and filter the candidates.
    let cands = registry.query(dep, minimal);
    if cands.len() == 0 {
        // The query is complete, so an empty answer means nothing in
        // the registry satisfies the dependency: the report is exact.
        proof {
            assert forall|k: int| 0 <= k < registry@.len()
                implies !((#[trigger] registry@[k]).id.name == dep@.name
                    && crate::ident::spec_loose_eq(dep@.source_id,
                        registry@[k].id.source_id)
                    && crate::req::req_matches(dep@.req, registry@[k].id.version)) by {
                if crate::registry::dep_matches_id(dep@, registry@[k].id) {
                    assert(crate::registry::occurs(cands@, registry@[k]));
                }
            }
        }
        let err = ResolveError::NoMatching {
            name: dep.get_name().to_owned(),
            source: dep.get_source_id().dup(),
            req: dep.get_version_req().dup(),
            parent: pd.parent.dup(),
        };
        proof {
            assert(err_truthful(err, registry@));
        }
        return DepStatus::Conflict(Vec::new(), Some(err));
    }
    let mut out: Vec<Summary> = Vec::new();
    let mut reasons: Vec<PackageId> = Vec::new();
    let mut err: Option<ResolveError> = None;
    let mut c: usize = 0;
    while c < cands.len()
        invariant
            dep_wf(dep@),
            match err {
                Some(e2) => err_truthful(e2, registry@),
                None => true,
            },
            forall|i: int| 1 <= i < act@.len()
                ==> occurs_v(registry@, (#[trigger] act@[i])@.summary),
            forall|i: int| 0 <= i < cands@.len()
                ==> occurs_v(registry@, (#[trigger] cands@[i])@),
            forall|i: int| 0 <= i < out@.len()
                ==> occurs_v(registry@, (#[trigger] out@[i])@),
            0 <= c <= cands@.len(),
        decreases cands.len() - c,
    {
        let cand = &cands[c];
        let cid = cand.package_id();
        // Is a version of the same compatibility class already selected?
        let mut chosen: Option<usize> = None;
        let mut a: usize = 0;
        while a < act.len()
            invariant
                0 <= c < cands@.len(),
                0 <= a <= act@.len(),
                chosen matches Some(k) ==> k < act@.len(),
            decreases act.len() - a,
        {
            let aid = act[a].summary.package_id();
            if str_eq(cid.name().as_str(), aid.name().as_str())
                && cid.source_id().loose_eq(aid.source_id())
                && cid.version().compatible(aid.version()) {
                chosen = Some(a);
                break;
            }
            a += 1;
        }
        match chosen {
            Some(k) => {
                let aid = act[k].summary.package_id();
                let vr = dep.get_version_req();
                assert(vr@ == dep@.req && crate::req::req_wf(vr@));
                if k >= 1 && vr.matches(aid.version())
                    && features_subset(dep.get_features(), &act[k].features) {
                    // Reuse the selected version in this candidate's place.
                    let ghost n = out@.len();
                    out.push(act[k].summary.dup());
                    proof {
                        assert(out@[n as int]@ == act@[k as int]@.summary);
                    }
                } else {
                    push_unique(&mut reasons, aid);
                }
            }
            None => {
                // Conflict on a claimed `links` name?
                let mut blocked = false;
                if let Some(links) = cand.links() {
                    let mut a2: usize = 0;
                    while a2 < act.len()
                        invariant
                            0 <= c < cands@.len(),
                            0 <= a2 <= act@.len(),
                            match err {
                                Some(e2) => err_truthful(e2, registry@),
                                None => true,
                            },
                        decreases act.len() - a2,
                    {
                        let holder_links = act[a2].summary.links();
                        if let Some(hl) = holder_links {
                            if str_eq(links.as_str(), hl.as_str()) {
                                push_unique(&mut reasons, act[a2].summary.package_id());
                                if matches!(err, None) {
                                    err = Some(ResolveError::LinksConflict {
                                        links: links.clone(),
                                        candidate: cid.dup(),
                                        holder: act[a2].summary.package_id().dup(),
                                    });
                                }
                                blocked = true;
                                break;
                            }
                        }
                        a2 += 1;
                    }
                }
                if !blocked {
                    // Does the candidate declare every requested feature?
                    let mut f: usize = 0;
                    let wanted = dep.get_features();
                    while f < wanted.len()
                        invariant
                            0 <= c < cands@.len(),
                            0 <= f <= wanted@.len(),
                        decreases wanted.len() - f,
                    {
                        if !cand.has_feature(wanted[f].as_str()) {
                            blocked = true;
                            break;
                        }
                        f += 1;
                    }
                }
                if !blocked {
                    let ghost n = out@.len();
                    out.push(cand.dup());
                    assert(out@[n as int]@ == cands@[c as int]@);
                }
            }
        }
        c += 1;
    }
    if out.len() == 0 {
        let e2 = match err {
            Some(x) => Some(x),
            None => Some(ResolveError::NoSolution {
                name: dep.get_name().to_owned(),
                parent: pd.parent.dup(),
            }),
        };
        DepStatus::Conflict(reasons, e2)
    } else {
        DepStatus::Candidates(out, reasons)
    }
}

/// The per-run step budget of the search; exceeding it is reported as
/// an error rather than looping on.
pub const SEARCH_BUDGET: u64 = 4_000_000_000;

/// Resolves `root_deps` for the package `root` against `registry`.
///
/// On success the selection is sound: `valid_resolution` holds of it,
/// so `links` and compatibility-class uniqueness and closure of the
/// relevant dependency edges are theorems about every `Ok` answer.
/// With no dependencies to resolve, resolution always succeeds, and a
/// missing-package failure is truthful: nothing in the registry
/// satisfies the reported requirement.
///
/// Candidates are tried highest-version-first by default, and
/// lowest-first under `minimal`; among open dependencies the search
/// always works on the one with the fewest viable candidates, so the
/// outcome is a deterministic function of the inputs.
pub fn resolve(root: &PackageId, root_deps: Vec<Dependency>, registry: &Registry,
    minimal: bool) -> (r: Result<Resolve, ResolveError>)
    requires
        forall|i: int| 0 <= i < root_deps@.len() ==> dep_wf((#[trigger] root_deps@[i])@),
        registry_wf(registry@),
    ensures
        r matches Ok(res) ==> valid_resolution(
            registry@,
            spec_root_summary(root@, root_deps@.map_values(|d: Dependency| d@)),
            res@,
        ),
        root_deps@.len() == 0 ==> r is Ok,
        r matches Err(e) ==> err_truthful(e, registry@),
{
    let ghost rdv = root_deps@.map_values(|d: Dependency| d@);
    let ghost rootv = spec_root_summary(root@, rdv);
    let root_summary = Summary::new(root.dup(), root_deps, Vec::new(), None);
    proof {
        assert(root_summary@.features =~= Seq::<(Seq<char>, Seq<Seq<char>>)>::empty());
        assert(root_summary@ == rootv);
        assert(summary_wf(root_summary@));
    }
    let mut pending = relevant_deps(&root_summary, true);
    let mut act: Vec<ResolvedNode> = Vec::new();
    act.push(ResolvedNode { summary: root_summary, features: Vec::new() });
    let mut stack: Vec<Frame> = Vec::new();
    let mut cache: Vec<CacheEntry> = Vec::new();
    let mut last_err = ResolveError::Budget;

    if pending.len() == 0 {
        // Nothing to do: the root alone is a valid selection.
        let res = Resolve { nodes: act };
        proof {
            assert(res@.len() == 1);
            assert(res@[0] == act@[0]@);
            assert(res@[0].summary == rootv);
            assert forall|i: int, d: int| 0 <= i < res@.len()
                && 0 <= d < (#[trigger] res@[i]).summary.deps.len()
                && dep_relevant(i == 0, #[trigger] res@[i].summary.deps[d])
                implies dep_satisfied_in(res@[i].summary.deps[d], res@) by {
                assert(i == 0);
                assert(res@[0].summary.deps == rootv.deps);
                assert(dep_relevant(true, rootv.deps[d]));
                assert(false);
            }
        }
        return Ok(res);
    }
    assert(rdv.len() > 0);

    let mut fuel: u64 = SEARCH_BUDGET;
    loop
        invariant
            registry_wf(registry@),
            rootv == spec_root_summary(root@, rdv),
            rdv == root_deps@.map_values(|d: Dependency| d@),
            rdv.len() > 0,
            forall|d: int| 0 <= d < rootv.deps.len() ==> dep_wf(#[trigger] rootv.deps[d]),
            err_truthful(last_err, registry@),
            acts_ok(act@, registry@, rootv),
            pend_ok(pending@),
            frames_ok(stack@, registry@),
            forall|f: int| 0 <= f < stack@.len()
                ==> (#[trigger] stack@[f]).act_len <= act@.len(),
        decreases fuel,
    {
        if fuel == 0 {
            return Err(ResolveError::Budget);
        }
        fuel -= 1;

        // Evaluate the pending dependencies: find a conflict, or pick
        // the most constrained open one.
        let mut conflict: Option<Vec<PackageId>> = None;
        let mut best: Option<(usize, Vec<Summary>, Vec<PackageId>)> = None;
        let mut i: usize = 0;
        while i < pending.len()
            invariant
                registry_wf(registry@),
                acts_ok(act@, registry@, rootv),
                pend_ok(pending@),
                err_truthful(last_err, registry@),
                conflict matches Some(cs) ==> true,
                0 <= i <= pending@.len(),
                best matches Some(b) ==> b.0 < pending@.len() && b.1@.len() > 0
                    && forall|c: int| 0 <= c < b.1@.len()
                        ==> occurs_v(registry@, (#[trigger] b.1@[c])@),
            decreases pending.len() - i,
        {
            match eval_dep(&act, &pending[i], registry, minimal, &cache) {
                DepStatus::Conflict(set, maybe_err) => {
                    if let Some(e2) = maybe_err {
                        last_err = e2;
                    }
                    // The package that declared the dependency is part
                    // of the explanation: removing it removes the
                    // dependency.
                    let mut set2 = set;
                    push_unique(&mut set2, &pending[i].parent);
                    conflict = Some(set2);
                    break;
                }
                DepStatus::Candidates(cs, excluded) => {
                    let replace = match &best {
                        None => true,
                        Some(b) => cs.len() < b.1.len(),
                    };
                    if replace {
                        best = Some((i, cs, excluded));
                    }
                }
            }
            i += 1;
        }

        let mut pending_conflict: Option<Vec<PackageId>> = conflict;
        if matches!(pending_conflict, None) {
            match best {
                None => {
                    // Nothing pending, nothing conflicted: the
                    // selection is complete.
                    return finish(act, registry, Ghost(rootv));
                }
                Some((bi, cands, excluded)) => {
                    let ghost before = pending@;
                    assert(dep_wf(pending@[bi as int].dep@));
                    let pd = pending.remove(bi);
                    proof {
                        assert forall|j: int| 0 <= j < pending@.len()
                            implies dep_wf((#[trigger] pending@[j]).dep@) by {
                            if j < bi as int {
                                assert(pending@[j] == before[j]);
                            } else {
                                assert(pending@[j] == before[j + 1]);
                            }
                        }
                    }
                    let saved = dup_pending(&pending);
                    let frame = Frame {
                        dep: pd.dep,
                        parent: pd.parent,
                        candidates: cands,
                        next: 0,
                        act_len: act.len(),
                        pending_saved: saved,
                        reasons: excluded,
                    };
                    let ghost old_stack = stack@;
                    stack.push(frame);
                    proof {
                        assert(frame_ok(stack@[stack@.len() - 1], registry@));
                        assert forall|f: int| 0 <= f < stack@.len()
                            implies frame_ok(#[trigger] stack@[f], registry@) by {
                            if f < old_stack.len() {
                                assert(stack@[f] == old_stack[f]);
                            }
                        }
                        assert forall|f1: int, f2: int| 0 <= f1 <= f2 < stack@.len()
                            implies (#[trigger] stack@[f1]).act_len
                                <= (#[trigger] stack@[f2]).act_len by {
                            if f2 < old_stack.len() {
                                assert(stack@[f1] == old_stack[f1]
                                    && stack@[f2] == old_stack[f2]);
                            } else if f1 < old_stack.len() {
                                assert(stack@[f1] == old_stack[f1]);
                                assert(old_stack[f1].act_len <= act@.len());
                            }
                        }
                    }
                }
            }
        }

        // Advance: record a failure if one is being propagated, then
        // activate the next candidate of the top frame, popping
        // exhausted frames as dead ends.
        let ghost fuel_outer = fuel;
        loop
            invariant
                registry_wf(registry@),
                rootv == spec_root_summary(root@, rdv),
                rdv == root_deps@.map_values(|d: Dependency| d@),
                rdv.len() > 0,
                forall|d: int| 0 <= d < rootv.deps.len() ==> dep_wf(#[trigger] rootv.deps[d]),
                err_truthful(last_err, registry@),
                acts_ok(act@, registry@, rootv),
                pend_ok(pending@),
                frames_ok(stack@, registry@),
                forall|f: int| 0 <= f < stack@.len()
                    ==> (#[trigger] stack@[f]).act_len <= act@.len(),
                fuel <= fuel_outer,
            decreases fuel,
        {
            if fuel == 0 {
                return Err(ResolveError::Budget);
            }
            fuel -= 1;
            if stack.len() == 0 {
                return Err(last_err);
            }
            let ghost old_stack = stack@;
            let mut top = match stack.pop() {
                Some(t) => t,
                None => {
                    return Err(last_err);
                }
            };
            proof {
                assert(top == old_stack.last());
                assert(frame_ok(top, registry@));
                assert(top.act_len <= act@.len());
                assert(forall|f: int| 0 <= f < stack@.len()
                    ==> (#[trigger] stack@[f]).act_len <= top.act_len);
            }
            if let Some(cset) = pending_conflict.take() {
                // A frame whose active choice is no part of the
                // conflict cannot mend it: undo it and keep jumping.
                let relevant = if top.next >= 1 && top.next <= top.candidates.len() {
                    id_listed(&cset, top.candidates[top.next - 1].package_id())
                } else {
                    true
                };
                if !relevant {
                    if top.act_len <= act.len() {
                        let ghost old_act = act@;
                        act.truncate(top.act_len);
                        proof {
                            assert(act@ == old_act.subrange(0, top.act_len as int));
                            assert(act@[0] == old_act[0]);
                            assert forall|i2: int| 1 <= i2 < act@.len()
                                implies occurs_v(registry@,
                                    (#[trigger] act@[i2])@.summary) by {
                                assert(act@[i2] == old_act[i2]);
                            }
                        }
                    }
                    pending = dup_pending(&top.pending_saved);
                    pending_conflict = Some(cset);
                    continue;
                }
                // The active candidate of the top frame failed: note
                // the packages whose selection caused it. The failed
                // candidate itself explains nothing a later candidate
                // of this frame would share, so it is left out.
                let mut q: usize = 0;
                while q < cset.len()
                    invariant
                        0 <= q <= cset@.len(),
                        frame_ok(top, registry@),
                        top.act_len <= act@.len(),
                        forall|f: int| 0 <= f < stack@.len()
                            ==> (#[trigger] stack@[f]).act_len <= top.act_len,
                    decreases cset.len() - q,
                {
                    let own = top.next >= 1 && top.next <= top.candidates.len()
                        && top.candidates[top.next - 1].package_id().equals(&cset[q]);
                    if !own {
                        push_unique(&mut top.reasons, &cset[q]);
                    }
                    q += 1;
                }
                // Undo the candidate's effects.
                if top.act_len <= act.len() {
                    let ghost old_act = act@;
                    act.truncate(top.act_len);
                    proof {
                        assert(act@ == old_act.subrange(0, top.act_len as int));
                        assert(act@[0] == old_act[0]);
                        assert forall|i2: int| 1 <= i2 < act@.len()
                            implies occurs_v(registry@, (#[trigger] act@[i2])@.summary) by {
                            assert(act@[i2] == old_act[i2]);
                        }
                    }
                }
                pending = dup_pending(&top.pending_saved);
            }
            if top.next < top.candidates.len() {
                let cand = top.candidates[top.next].dup();
                proof {
                    assert(occurs_v(registry@, cand@));
                }
                top.next = top.next + 1;
                // A candidate that is already a selected version needs
                // no new activation: its dependencies were queued when
                // it was first selected.
                let mut already: bool = false;
                let mut s: usize = 0;
                while s < act.len()
                    invariant
                        0 <= s <= act@.len(),
                    decreases act.len() - s,
                {
                    let aid = act[s].summary.package_id();
                    let cid = cand.package_id();
                    if str_eq(cid.name().as_str(), aid.name().as_str())
                        && cid.source_id().loose_eq(aid.source_id())
                        && cid.version().major == aid.version().major
                        && cid.version().minor == aid.version().minor
                        && cid.version().patch == aid.version().patch {
                        already = true;
                        break;
                    }
                    s += 1;
                }
                if already {
                    restore_stack(&mut stack, top, Ghost(registry@),
                        Ghost(act@.len() as int));
                    break;
                }
                let feats = cand.activated_features(
                    top.dep.get_features(),
                    top.dep.uses_default_features(),
                );
                match feats {
                    Err(_) => {
                        pending_conflict = Some(Vec::new());
                        restore_stack(&mut stack, top, Ghost(registry@), Ghost(act@.len() as int));
                    }
                    Ok(active) => {
                        proof {
                            let w = choose|w: int| 0 <= w < registry@.len()
                                && #[trigger] registry@[w] == cand@;
                            assert(summary_wf(cand@));
                        }
                        let extra = relevant_deps(&cand, false);
                        let mut x: usize = 0;
                        while x < extra.len()
                            invariant
                                pend_ok(pending@),
                                pend_ok(extra@),
                                0 <= x <= extra@.len(),
                            decreases extra.len() - x,
                        {
                            let item = PendingDep {
                                parent: extra[x].parent.dup(),
                                dep: extra[x].dep.dup(),
                            };
                            let ghost before = pending@;
                            pending.push(item);
                            proof {
                                assert forall|j: int| 0 <= j < pending@.len()
                                    implies dep_wf((#[trigger] pending@[j]).dep@) by {
                                    if j < before.len() {
                                        assert(pending@[j] == before[j]);
                                    }
                                }
                            }
                            x += 1;
                        }
                        let ghost old_act = act@;
                        act.push(ResolvedNode { summary: cand, features: active });
                        proof {
                            assert(act@[0] == old_act[0]);
                            assert forall|i2: int| 1 <= i2 < act@.len()
                                implies occurs_v(registry@,
                                    (#[trigger] act@[i2])@.summary) by {
                                if i2 < old_act.len() {
                                    assert(act@[i2] == old_act[i2]);
                                }
                            }
                        }
                        restore_stack(&mut stack, top, Ghost(registry@), Ghost(act@.len() as int));
                        break;
                    }
                }
            } else {
                // Dead end for this dependency: remember it and
                // propagate the union of the failure causes upward.
                let entry = CacheEntry {
                    dep: top.dep.dup(),
                    ids: dup_ids(&top.reasons),
                };
                cache.push(entry);
                let mut up = dup_ids(&top.reasons);
                push_unique(&mut up, &top.parent);
                pending_conflict = Some(up);
            }
        }
    }
}

/// Puts a frame back on top of the stack, re-establishing the stack
/// invariants of the search.
fn restore_stack(stack: &mut Vec<Frame>, top: Frame, Ghost(reg): Ghost<Seq<SummaryV>>,
    Ghost(act_len): Ghost<int>)
    requires
        frames_ok(old(stack)@, reg),
        frame_ok(top, reg),
        forall|f: int| 0 <= f < old(stack)@.len()
            ==> (#[trigger] old(stack)@[f]).act_len <= top.act_len,
        top.act_len <= act_len,
    ensures
        frames_ok(final(stack)@, reg),
        forall|f: int| 0 <= f < final(stack)@.len()
            ==> (#[trigger] final(stack)@[f]).act_len <= act_len,
{
    let ghost old_stack = stack@;
    stack.push(top);
    proof {
        assert forall|f: int| 0 <= f < stack@.len()
            implies frame_ok(#[trigger] stack@[f], reg) by {
            if f < old_stack.len() {
                assert(stack@[f] == old_stack[f]);
            }
        }
        assert forall|f1: int, f2: int| 0 <= f1 <= f2 < stack@.len()
            implies (#[trigger] stack@[f1]).act_len
                <= (#[trigger] stack@[f2]).act_len by {
            if f2 < old_stack.len() {
                assert(stack@[f1] == old_stack[f1] && stack@[f2] == old_stack[f2]);
            } else if f1 < old_stack.len() {
                assert(stack@[f1] == old_stack[f1]);
            }
        }
        assert forall|f: int| 0 <= f < stack@.len()
            implies (#[trigger] stack@[f]).act_len <= act_len by {
            if f < old_stack.len() {
                assert(stack@[f] == old_stack[f]);
            }
        }
    }
}

/// Checks a complete selection and wraps it up; a selection that
/// fails any soundness check is refused, so `Ok` answers are always
/// valid.
fn finish(act: Vec<ResolvedNode>, registry: &Registry, Ghost(rootv): Ghost<SummaryV>)
    -> (r: Result<Resolve, ResolveError>)
    requires
        registry_wf(registry@),
        acts_ok(act@, registry@, rootv),
        forall|d: int| 0 <= d < rootv.deps.len() ==> dep_wf(#[trigger] rootv.deps[d]),
    ensures
        r matches Ok(res) ==> valid_resolution(registry@, rootv, res@),
        r matches Err(e) ==> e is Budget,
{
    proof {
        assert forall|i: int, d: int| 0 <= i < act@.len()
            && 0 <= d < act@[i]@.summary.deps.len()
            implies dep_wf(#[trigger] act@[i]@.summary.deps[d]) by {
            if i >= 1 {
                assert(occurs_v(registry@, act@[i]@.summary));
                let w = choose|w: int| 0 <= w < registry@.len()
                    && #[trigger] registry@[w] == act@[i]@.summary;
                assert(summary_wf(registry@[w]));
            } else {
                assert(act@[0]@.summary == rootv);
            }
        }
    }
    if check_classes(&act) && check_links(&act) && check_deps(&act) {
        let res = Resolve { nodes: act };
        proof {
            assert(res@ == act@.map_values(|n: ResolvedNode| n@));
            assert(res@[0].summary == rootv);
            assert forall|i: int| 1 <= i < res@.len()
                implies occurs_v(registry@, (#[trigger] res@[i]).summary) by {
                assert(res@[i] == act@[i]@);
            }
        }
        Ok(res)
    } else {
        Err(ResolveError::Budget)
    }
}

/// Verified check: no two selected packages share a compatibility class.
fn check_classes(act: &Vec<ResolvedNode>) -> (r: bool)
    ensures
        r ==> classes_unique(act@.map_values(|n: ResolvedNode| n@)),
{
    let ghost m = act@.map_values(|n: ResolvedNode| n@);
    let mut i: usize = 0;
    while i < act.len()
        invariant
            m == act@.map_values(|n: ResolvedNode| n@),
            0 <= i <= act@.len(),
            forall|a: int, b: int| 0 <= a < b < act@.len() && a < i
                ==> !same_pkg_class((#[trigger] m[a]).summary.id,
                    (#[trigger] m[b]).summary.id),
        decreases act.len() - i,
    {
        let mut j: usize = i + 1;
        while j < act.len()
            invariant
                m == act@.map_values(|n: ResolvedNode| n@),
                0 <= i < act@.len(),
                i < j <= act@.len(),
                forall|b: int| i < b < j
                    ==> !same_pkg_class((#[trigger] m[i as int]).summary.id,
                        (#[trigger] m[b]).summary.id),
            decreases act.len() - j,
        {
            let x = act[i].summary.package_id();
            let y = act[j].summary.package_id();
            if str_eq(x.name().as_str(), y.name().as_str())
                && x.source_id().loose_eq(y.source_id())
                && x.version().compatible(y.version()) {
                assert(same_pkg_class(m[i as int].summary.id, m[j as int].summary.id));
                return false;
            }
            assert(!same_pkg_class(m[i as int].summary.id, m[j as int].summary.id));
            j += 1;
        }
        i += 1;
    }
    true
}

/// Verified check: no `links` name is claimed twice.
fn check_links(act: &Vec<ResolvedNode>) -> (r: bool)
    ensures
        r ==> links_unique(act@.map_values(|n: ResolvedNode| n@)),
{
    let ghost m = act@.map_values(|n: ResolvedNode| n@);
    let mut i: usize = 0;
    while i < act.len()
        invariant
            m == act@.map_values(|n: ResolvedNode| n@),
            0 <= i <= act@.len(),
            forall|a: int, b: int| 0 <= a < b < act@.len() && a < i
                && (#[trigger] m[a]).summary.links is Some
                && (#[trigger] m[b]).summary.links is Some
                ==> m[a].summary.links != m[b].summary.links,
        decreases act.len() - i,
    {
        let mut j: usize = i + 1;
        while j < act.len()
            invariant
                m == act@.map_values(|n: ResolvedNode| n@),
                0 <= i < act@.len(),
                i < j <= act@.len(),
                forall|b: int| i < b < j
                    && (#[trigger] m[i as int]).summary.links is Some
                    && (#[trigger] m[b]).summary.links is Some
                    ==> m[i as int].summary.links != m[b].summary.links,
            decreases act.len() - j,
        {
            if let Some(li) = act[i].summary.links() {
                if let Some(lj) = act[j].summary.links() {
                    if str_eq(li.as_str(), lj.as_str()) {
                        assert(m[i as int].summary.links == m[j as int].summary.links);
                        return false;
                    }
                }
            }
            assert((m[i as int].summary.links is Some && m[j as int].summary.links is Some)
                ==> m[i as int].summary.links != m[j as int].summary.links);
            j += 1;
        }
        i += 1;
    }
    true
}

/// Verified check: every relevant dependency edge lands on a selected
/// package that carries the requested features.
fn check_deps(act: &Vec<ResolvedNode>) -> (r: bool)
    requires
        forall|i: int, d: int| 0 <= i < act@.len()
            && 0 <= d < act@[i]@.summary.deps.len()
            ==> dep_wf(#[trigger] act@[i]@.summary.deps[d]),
    ensures
        r ==> deps_closed(act@.map_values(|n: ResolvedNode| n@)),
{
    let ghost m = act@.map_values(|n: ResolvedNode| n@);
    let mut i: usize = 0;
    while i < act.len()
        invariant
            m == act@.map_values(|n: ResolvedNode| n@),
            forall|i2: int, d: int| 0 <= i2 < act@.len()
                && 0 <= d < act@[i2]@.summary.deps.len()
                ==> dep_wf(#[trigger] act@[i2]@.summary.deps[d]),
            0 <= i <= act@.len(),
            forall|a: int, d: int| 0 <= a < i
                && 0 <= d < (#[trigger] m[a]).summary.deps.len()
                && dep_relevant(a == 0, #[trigger] m[a].summary.deps[d])
                ==> dep_satisfied_in(m[a].summary.deps[d], m),
        decreases act.len() - i,
    {
        let deps = act[i].summary.dependencies();
        let mut d: usize = 0;
        while d < deps.len()
            invariant
                m == act@.map_values(|n: ResolvedNode| n@),
                forall|i2: int, d2: int| 0 <= i2 < act@.len()
                    && 0 <= d2 < act@[i2]@.summary.deps.len()
                    ==> dep_wf(#[trigger] act@[i2]@.summary.deps[d2]),
                0 <= i < act@.len(),
                deps@.map_values(|x: Dependency| x@) == m[i as int].summary.deps,
                0 <= d <= deps@.len(),
                forall|d2: int| 0 <= d2 < d
                    && dep_relevant(i == 0, #[trigger] m[i as int].summary.deps[d2])
                    ==> dep_satisfied_in(m[i as int].summary.deps[d2], m),
        decreases deps.len() - d,
        {
            let dep = &deps[d];
            assert(dep@ == m[i as int].summary.deps[d as int]);
            let relevant = !dep.is_optional()
                && (i == 0 || !matches!(dep.get_kind(), Kind::Development));
            if relevant {
                assert(dep_wf(dep@));
                let mut k: usize = 0;
                let mut found = false;
                while k < act.len() && !found
                    invariant
                        m == act@.map_values(|n: ResolvedNode| n@),
                        0 <= i < act@.len(),
                        0 <= d < deps@.len(),
                        dep@ == m[i as int].summary.deps[d as int],
                        dep_wf(dep@),
                        0 <= k <= act@.len(),
                        found ==> dep_satisfied_in(dep@, m),
                    decreases act.len() - k + (if found { 0int } else { 1int }),
                {
                    let node = &act[k];
                    let nid = node.summary.package_id();
                    if str_eq(dep.get_name(), nid.name().as_str())
                        && dep.get_source_id().loose_eq(nid.source_id())
                        && dep.get_version_req().matches(nid.version())
                        && feats_present(dep, node) {
                        proof {
                            assert(m[k as int] == act@[k as int]@);
                            assert(dep_matches_id(dep@, m[k as int].summary.id));
                            assert(dep_satisfied_in(dep@, m));
                        }
                        found = true;
                    }
                    k += 1;
                }
                if !found {
                    return false;
                }
            } else {
                assert(!dep_relevant(i == 0, m[i as int].summary.deps[d as int]));
            }
            d += 1;
        }
        i += 1;
    }
    true
}

/// Verified check: the node carries every feature the edge requests.
fn feats_present(dep: &Dependency, node: &ResolvedNode) -> (r: bool)
    ensures
        r ==> forall|f: int| 0 <= f < dep@.features.len()
            ==> seq_has(node@.features, #[trigger] dep@.features[f]),
{
    let wanted = dep.get_features();
    let have = node.features();
    let mut f: usize = 0;
    while f < wanted.len()
        invariant
            wanted@.map_values(|s: String| s@) == dep@.features,
            have@.map_values(|s: String| s@) == node@.features,
            0 <= f <= wanted@.len(),
            forall|j: int| 0 <= j < f
                ==> seq_has(node@.features, #[trigger] dep@.features[j]),
        decreases wanted.len() - f,
    {
        if !contains_str(have, wanted[f].as_str()) {
            return false;
        }
        proof {
            let k = choose|k: int| 0 <= k < have@.len()
                && (#[trigger] have@[k])@ == wanted@[f as int]@;
            assert(node@.features[k] == dep@.features[f as int]);
        }
        f += 1;
    }
    true
}

} // verus!
