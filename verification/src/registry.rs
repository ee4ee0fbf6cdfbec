//! The package registry: aggregates known summaries and answers which
//! candidates satisfy a dependency, in deterministic precedence order.

use vstd::prelude::*;
use crate::dependency::{Dependency, DependencyV};
use crate::ident::{PackageIdV, spec_loose_eq};
use crate::req::req_matches;
use crate::summary::{Summary, SummaryV};
use crate::version::Version;

verus! {

/// Does a dependency accept the package a summary describes? The name
/// must agree, the source must loosely agree, and the version must be
/// in the requirement.
pub open spec fn dep_matches_id(d: DependencyV, id: PackageIdV) -> bool {
    d.name == id.name && spec_loose_eq(d.source_id, id.source_id)
        && req_matches(d.req, id.version)
}

/// `x` is the view of some element of `vs`.
pub open spec fn occurs(vs: Seq<Summary>, x: SummaryV) -> bool {
    exists|k: int| 0 <= k < vs.len() && (#[trigger] vs[k])@ == x
}

/// `x` is an element of the view sequence `vs`.
pub open spec fn occurs_v(vs: Seq<SummaryV>, x: SummaryV) -> bool {
    exists|k: int| 0 <= k < vs.len() && #[trigger] vs[k] == x
}

proof fn lemma_occurs_push(vs: Seq<Summary>, y: Summary, x: SummaryV)
    requires
        occurs(vs, x),
    ensures
        occurs(vs.push(y), x),
{
    let k = choose|k: int| 0 <= k < vs.len() && (#[trigger] vs[k])@ == x;
    assert(vs.push(y)[k]@ == x);
}

proof fn lemma_occurs_push_inv(vs: Seq<Summary>, y: Summary, x: SummaryV)
    requires
        occurs(vs.push(y), x),
    ensures
        occurs(vs, x) || x == y@,
{
    let k = choose|k: int| 0 <= k < vs.push(y).len() && (#[trigger] vs.push(y)[k])@ == x;
    if k < vs.len() {
        assert(vs[k]@ == x);
    }
}

/// Candidates sorted by precedence: descending versions by default,
/// ascending under the minimal-versions policy.
pub open spec fn candidates_ordered(r: Seq<SummaryV>, minimal: bool) -> bool {
    if minimal {
        forall|a: int, b: int| 0 <= a < b < r.len()
            ==> !(#[trigger] r[b]).id.version.spec_lt((#[trigger] r[a]).id.version)
    } else {
        forall|a: int, b: int| 0 <= a < b < r.len()
            ==> !(#[trigger] r[a]).id.version.spec_lt((#[trigger] r[b]).id.version)
    }
}

/// A collection of package summaries that queries run against.
#[derive(Clone, Debug)]
pub struct Registry {
    summaries: Vec<Summary>,
}

impl View for Registry {
    type V = Seq<SummaryV>;

    closed spec fn view(&self) -> Seq<SummaryV> {
        self.summaries@.map_values(|s: Summary| s@)
    }
}

impl Registry {
    /// A registry over the given summaries.
    pub fn new(summaries: Vec<Summary>) -> (r: Registry)
        ensures
            r@ == summaries@.map_values(|s: Summary| s@),
    {
        Registry { summaries }
    }

    /// How many summaries the registry holds.
    pub fn len(&self) -> (r: usize)
        ensures
            r == self@.len(),
    {
        self.summaries.len()
    }

    /// The matching summaries, in registry order.
    fn filter_matching(&self, dep: &Dependency) -> (work: Vec<Summary>)
        requires
            crate::dependency::dep_wf(dep@),
        ensures
            forall|x: SummaryV| #[trigger] occurs(work@, x)
                ==> dep_matches_id(dep@, x.id) && occurs_v(self@, x),
            forall|k: int| 0 <= k < self@.len()
                && dep_matches_id(dep@, (#[trigger] self@[k]).id)
                ==> occurs(work@, self@[k]),
    {
        let mut work: Vec<Summary> = Vec::new();
        let mut j: usize = 0;
        while j < self.summaries.len()
            invariant
                crate::dependency::dep_wf(dep@),
                0 <= j <= self.summaries.len(),
                forall|x: SummaryV| #[trigger] occurs(work@, x)
                    ==> dep_matches_id(dep@, x.id) && occurs_v(self@, x),
                forall|k: int| 0 <= k < j
                    && dep_matches_id(dep@, (#[trigger] self@[k]).id)
                    ==> occurs(work@, self@[k]),
            decreases self.summaries.len() - j,
        {
            let s = &self.summaries[j];
            let name_ok = crate::text::str_eq(dep.get_name(), s.package_id().name().as_str());
            let src_ok = dep.get_source_id().loose_eq(s.package_id().source_id());
            let vr = dep.get_version_req();
            let ver_ok = vr.matches(s.package_id().version());
            assert(self@[j as int] == self.summaries@[j as int]@);
            if name_ok && src_ok && ver_ok {
                let ghost before = work@;
                let dup = s.dup();
                assert(dup@ == self@[j as int]);
                work.push(dup);
                proof {
                    let y = work@[before.len() as int];
                    assert(work@ =~= before.push(y));
                    assert(occurs(work@, self@[j as int])) by {
                        assert(work@[before.len() as int]@ == self@[j as int]);
                    }
                    assert forall|x: SummaryV| #[trigger] occurs(work@, x)
                        implies dep_matches_id(dep@, x.id) && occurs_v(self@, x) by {
                        lemma_occurs_push_inv(before, y, x);
                        if x == y@ {
                            assert(self@[j as int] == x);
                        }
                    }
                    assert forall|k: int| 0 <= k < j + 1
                        && dep_matches_id(dep@, (#[trigger] self@[k]).id)
                        implies occurs(work@, self@[k]) by {
                        if k < j {
                            lemma_occurs_push(before, y, self@[k]);
                        }
                    }
                }
            } else {
                assert(!dep_matches_id(dep@, self@[j as int].id));
            }
            j += 1;
        }
        work
    }

    /// The candidates that satisfy `dep`: exactly the matching
    /// summaries of the registry, ordered by version, highest first by
    /// default and lowest first when `minimal` holds.
    pub fn query(&self, dep: &Dependency, minimal: bool) -> (r: Vec<Summary>)
        requires
            crate::dependency::dep_wf(dep@),
        ensures
            forall|i: int| 0 <= i < r@.len()
                ==> dep_matches_id(dep@, (#[trigger] r@[i])@.id)
                    && occurs_v(self@, r@[i]@),
            forall|k: int| 0 <= k < self@.len()
                && dep_matches_id(dep@, (#[trigger] self@[k]).id)
                ==> occurs(r@, self@[k]),
            candidates_ordered(r@.map_values(|s: Summary| s@), minimal),
    {
        let work = self.filter_matching(dep);
        let out = sort_desc(work);
        let r = if minimal {
            let rev = reverse(out);
            proof {
                let m = rev@.map_values(|s: Summary| s@);
                let o = out@.map_values(|s: Summary| s@);
                assert forall|a: int, b: int| 0 <= a < b < m.len()
                    implies !(#[trigger] m[b]).id.version.spec_lt(
                        (#[trigger] m[a]).id.version) by {
                    assert(m[a] == rev@[a]@ && m[b] == rev@[b]@);
                    assert(rev@[a]@ == out@[out@.len() - 1 - a]@);
                    assert(rev@[b]@ == out@[out@.len() - 1 - b]@);
                    assert(o[out@.len() - 1 - b] == out@[out@.len() - 1 - b]@);
                    assert(o[out@.len() - 1 - a] == out@[out@.len() - 1 - a]@);
                }
            }
            rev
        } else {
            out
        };
        proof {
            assert forall|i: int| 0 <= i < r@.len()
                implies dep_matches_id(dep@, (#[trigger] r@[i])@.id)
                    && occurs_v(self@, r@[i]@) by {
                assert(occurs(r@, r@[i]@));
            }
        }
        r
    }
}

/// Sorts summaries by version, highest first, keeping the first of
/// equal versions first. The output holds the same views as the input.
fn sort_desc(work: Vec<Summary>) -> (out: Vec<Summary>)
    ensures
        forall|x: SummaryV| #[trigger] occurs(out@, x) == occurs(work@, x),
        candidates_ordered(out@.map_values(|s: Summary| s@), false),
{
    let ghost orig = work@;
    let mut cur = work;
    let mut out: Vec<Summary> = Vec::new();
    while cur.len() > 0
        invariant
            forall|x: SummaryV| #[trigger] occurs(orig, x)
                == (occurs(out@, x) || occurs(cur@, x)),
            forall|a: int, b: int| 0 <= a < b < out@.len()
                ==> !(#[trigger] out@[a])@.id.version.spec_lt(
                    (#[trigger] out@[b])@.id.version),
            forall|a: int, b: int| 0 <= a < out@.len() && 0 <= b < cur@.len()
                ==> !(#[trigger] out@[a])@.id.version.spec_lt(
                    (#[trigger] cur@[b])@.id.version),
        decreases cur.len(),
    {
        // Find the first summary with the greatest version.
        let mut best: usize = 0;
        let mut k: usize = 1;
        while k < cur.len()
            invariant
                0 <= best < cur@.len(),
                1 <= k <= cur@.len(),
                forall|i: int| 0 <= i < k
                    ==> !cur@[best as int]@.id.version.spec_lt(
                        (#[trigger] cur@[i])@.id.version),
            decreases cur.len() - k,
        {
            if cur[best].package_id().version().lt(cur[k].package_id().version()) {
                best = k;
            }
            k += 1;
        }
        let ghost old_cur = cur@;
        let ghost old_out = out@;
        let chosen = cur.remove(best);
        out.push(chosen);
        proof {
            assert(out@ =~= old_out.push(old_cur[best as int]));
            assert forall|x: SummaryV| #[trigger] occurs(orig, x)
                implies (occurs(out@, x) || occurs(cur@, x)) by {
                if occurs(old_out, x) {
                    let p = choose|p: int| 0 <= p < old_out.len()
                        && (#[trigger] old_out[p])@ == x;
                    assert(out@[p]@ == x);
                } else if occurs(old_cur, x) {
                    let p = choose|p: int| 0 <= p < old_cur.len()
                        && (#[trigger] old_cur[p])@ == x;
                    if p == best as int {
                        assert(out@[old_out.len() as int]@ == x);
                    } else if p < best as int {
                        assert(cur@[p]@ == x);
                    } else {
                        assert(cur@[p - 1]@ == x);
                    }
                }
            }
            assert forall|x: SummaryV| occurs(out@, x) || occurs(cur@, x)
                implies #[trigger] occurs(orig, x) by {
                if occurs(out@, x) {
                    let p = choose|p: int| 0 <= p < out@.len()
                        && (#[trigger] out@[p])@ == x;
                    if p < old_out.len() {
                        assert(old_out[p]@ == x);
                    } else {
                        assert(old_cur[best as int]@ == x);
                    }
                } else {
                    let p = choose|p: int| 0 <= p < cur@.len()
                        && (#[trigger] cur@[p])@ == x;
                    if p < best as int {
                        assert(old_cur[p]@ == x);
                    } else {
                        assert(old_cur[p + 1]@ == x);
                    }
                }
            }
            assert forall|a: int, b: int| 0 <= a < out@.len() && 0 <= b < cur@.len()
                implies !(#[trigger] out@[a])@.id.version.spec_lt(
                    (#[trigger] cur@[b])@.id.version) by {
                if b < best as int {
                    assert(cur@[b] == old_cur[b]);
                } else {
                    assert(cur@[b] == old_cur[b + 1]);
                }
                if a == old_out.len() as int {
                    assert(out@[a] == old_cur[best as int]);
                }
            }
        }
    }
    proof {
        let m = out@.map_values(|s: Summary| s@);
        assert forall|a: int, b: int| 0 <= a < b < m.len()
            implies !(#[trigger] m[a]).id.version.spec_lt(
                (#[trigger] m[b]).id.version) by {
            assert(m[a] == out@[a]@ && m[b] == out@[b]@);
        }
    }
    out
}

/// Reverses a candidate list.
fn reverse(out: Vec<Summary>) -> (rev: Vec<Summary>)
    ensures
        rev@.len() == out@.len(),
        forall|i: int| 0 <= i < rev@.len()
            ==> (#[trigger] rev@[i])@ == out@[out@.len() - 1 - i]@,
        forall|x: SummaryV| #[trigger] occurs(rev@, x) == occurs(out@, x),
{
    let mut rev: Vec<Summary> = Vec::new();
    let mut t: usize = out.len();
    while t > 0
        invariant
            0 <= t <= out@.len(),
            rev@.len() == out@.len() - t,
            forall|i: int| 0 <= i < rev@.len()
                ==> (#[trigger] rev@[i])@ == out@[out@.len() - 1 - i]@,
        decreases t,
    {
        t -= 1;
        let ghost n = rev@.len();
        rev.push(out[t].dup());
        assert(rev@[n as int]@ == out@[t as int]@);
    }
    proof {
        assert forall|x: SummaryV| #[trigger] occurs(rev@, x) == occurs(out@, x) by {
            if occurs(rev@, x) {
                let p = choose|p: int| 0 <= p < rev@.len() && (#[trigger] rev@[p])@ == x;
                assert(out@[out@.len() - 1 - p]@ == x);
            }
            if occurs(out@, x) {
                let p = choose|p: int| 0 <= p < out@.len() && (#[trigger] out@[p])@ == x;
                assert(rev@[out@.len() - 1 - p]@ == x);
            }
        }
    }
    rev
}

} // verus!
