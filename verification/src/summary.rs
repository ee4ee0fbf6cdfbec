//! Summaries: the lightweight description of one package version that
//! resolution works on, with its feature table and `links` claim.

use vstd::prelude::*;
use crate::dependency::{Dependency, DependencyV, dep_wf, dup_strings};
use crate::ident::{PackageId, PackageIdV};
use crate::text::str_eq;
use vstd::string::StringExecFns;

verus! {

/// The mathematical shape of a summary.
pub struct SummaryV {
    pub id: PackageIdV,
    pub deps: Seq<DependencyV>,
    pub features: Seq<(Seq<char>, Seq<Seq<char>>)>,
    pub links: Option<Seq<char>>,
}

/// What resolution knows of one package version: its identity, its
/// dependencies, its feature table, and its `links` claim if any.
#[derive(Clone, Debug)]
pub struct Summary {
    id: PackageId,
    deps: Vec<Dependency>,
    features: Vec<(String, Vec<String>)>,
    links: Option<String>,
}

impl View for Summary {
    type V = SummaryV;

    closed spec fn view(&self) -> SummaryV {
        SummaryV {
            id: self.id@,
            deps: self.deps@.map_values(|d: Dependency| d@),
            features: self.features@.map_values(
                |e: (String, Vec<String>)| (e.0@, e.1@.map_values(|s: String| s@))),
            links: match self.links {
                Some(l) => Some(l@),
                None => None,
            },
        }
    }
}

/// A summary is well formed when every dependency is.
pub open spec fn summary_wf(s: SummaryV) -> bool {
    forall|i: int| 0 <= i < s.deps.len() ==> dep_wf(#[trigger] s.deps[i])
}

impl Summary {
    /// Builds a summary.
    pub fn new(id: PackageId, deps: Vec<Dependency>,
        features: Vec<(String, Vec<String>)>, links: Option<String>) -> (r: Summary)
        ensures
            r@.id == id@,
            r@.deps == deps@.map_values(|d: Dependency| d@),
            r@.features == features@.map_values(
                |e: (String, Vec<String>)| (e.0@, e.1@.map_values(|s: String| s@))),
            r@.links == match links {
                Some(l) => Some::<Seq<char>>(l@),
                None => None::<Seq<char>>,
            },
    {
        Summary { id, deps, features, links }
    }

    /// The package this summary describes.
    pub fn package_id(&self) -> (r: &PackageId)
        ensures
            r@ == self@.id,
    {
        &self.id
    }

    /// The declared dependencies.
    pub fn dependencies(&self) -> (r: &Vec<Dependency>)
        ensures
            r@.map_values(|d: Dependency| d@) == self@.deps,
    {
        &self.deps
    }

    /// The `links` claim, if the package wraps a native library.
    pub fn links(&self) -> (r: &Option<String>)
        ensures
            self@.links == match r {
                Some(l) => Some::<Seq<char>>(l@),
                None => None::<Seq<char>>,
            },
    {
        &self.links
    }

    /// A copy of the summary.
    pub fn dup(&self) -> (r: Summary)
        ensures
            r@ == self@,
    {
        let mut deps: Vec<Dependency> = Vec::new();
        let mut i: usize = 0;
        while i < self.deps.len()
            invariant
                0 <= i <= self.deps.len(),
                deps@.len() == i,
                forall|j: int| 0 <= j < i ==> (#[trigger] deps@[j])@ == self.deps@[j]@,
            decreases self.deps.len() - i,
        {
            deps.push(self.deps[i].dup());
            i += 1;
        }
        let mut features: Vec<(String, Vec<String>)> = Vec::new();
        let mut k: usize = 0;
        while k < self.features.len()
            invariant
                0 <= k <= self.features.len(),
                features@.len() == k,
                forall|j: int| 0 <= j < k ==> (#[trigger] features@[j]).0@ == self.features@[j].0@
                    && features@[j].1@.map_values(|s: String| s@)
                        == self.features@[j].1@.map_values(|s: String| s@),
            decreases self.features.len() - k,
        {
            let entry = &self.features[k];
            features.push((entry.0.clone(), dup_strings(&entry.1)));
            k += 1;
        }
        let r = Summary {
            id: self.id.dup(),
            deps,
            features,
            links: match &self.links {
                Some(l) => Some(l.clone()),
                None => None,
            },
        };
        assert(r@.deps =~= self@.deps);
        assert(r@.features =~= self@.features);
        r
    }

    /// True when `name` is a key of the feature table.
    pub fn has_feature(&self, name: &str) -> (r: bool)
        ensures
            r == exists|i: int| 0 <= i < self@.features.len()
                && (#[trigger] self@.features[i]).0 == name@,
    {
        let mut i: usize = 0;
        while i < self.features.len()
            invariant
                0 <= i <= self.features.len(),
                forall|j: int| 0 <= j < i ==> (#[trigger] self@.features[j]).0 != name@,
            decreases self.features.len() - i,
        {
            if str_eq(self.features[i].0.as_str(), name) {
                assert(self@.features[i as int].0 == name@);
                return true;
            }
            i += 1;
        }
        false
    }

    /// The features that end up active when `requested` are asked for
    /// (plus `default` when `use_default` holds and the table declares
    /// it), closed transitively over the feature table: activation is
    /// monotone and reaches the fixed point, every active key\'s
    /// declared targets are active, and nothing undeclared is ever
    /// activated. Returns the first requested feature the table does
    /// not declare, as the error.
    pub fn activated_features(&self, requested: &Vec<String>, use_default: bool)
        -> (r: Result<Vec<String>, String>)
        ensures
            r matches Ok(act) ==> (forall|i: int| 0 <= i < requested@.len()
                ==> contains_view(act@, (#[trigger] requested@[i])@)),
            r matches Ok(act) ==> (use_default && (exists|j: int|
                0 <= j < self@.features.len()
                    && (#[trigger] self@.features[j]).0 == "default"@)
                ==> contains_view(act@, "default"@)),
            // Only declared keys are ever active.
            r matches Ok(act) ==> (forall|i: int| 0 <= i < act@.len()
                ==> exists|j: int| 0 <= j < self@.features.len()
                    && (#[trigger] self@.features[j]).0 == (#[trigger] act@[i])@),
            // The result is a fixed point: every declared target of an
            // active key is active.
            r matches Ok(act) ==> (forall|k: int, e: int|
                0 <= k < self@.features.len()
                && contains_view(act@, (#[trigger] self@.features[k]).0)
                && 0 <= e < self@.features[k].1.len()
                && (exists|j: int| 0 <= j < self@.features.len()
                    && (#[trigger] self@.features[j]).0 == self@.features[k].1[e])
                ==> contains_view(act@, #[trigger] self@.features[k].1[e])),
            r matches Err(name) ==> (exists|i: int| 0 <= i < requested@.len()
                && (#[trigger] requested@[i])@ == name@)
                && !(exists|j: int| 0 <= j < self@.features.len()
                    && (#[trigger] self@.features[j]).0 == name@),
    {
        let mut act: Vec<String> = Vec::new();
        let mut i: usize = 0;
        while i < requested.len()
            invariant
                0 <= i <= requested.len(),
                forall|j: int| 0 <= j < i ==> contains_view(act@, (#[trigger] requested@[j])@),
                forall|j: int| 0 <= j < act@.len()
                    ==> exists|k: int| 0 <= k < self@.features.len()
                        && (#[trigger] self@.features[k]).0 == (#[trigger] act@[j])@,
            decreases requested.len() - i,
        {
            let name = &requested[i];
            if !self.has_feature(name.as_str()) {
                return Err(name.clone());
            }
            let ghost before = act@;
            act.push(name.clone());
            proof {
                assert(act@[before.len() as int]@ == requested@[i as int]@);
                assert forall|j: int| 0 <= j < i + 1
                    implies contains_view(act@, (#[trigger] requested@[j])@) by {
                    if j < i {
                        lemma_contains_push(before, act@[before.len() as int], requested@[j]@);
                        assert(act@ =~= before.push(act@[before.len() as int]));
                    }
                }
                assert forall|j: int| 0 <= j < act@.len()
                    implies exists|k: int| 0 <= k < self@.features.len()
                        && (#[trigger] self@.features[k]).0 == (#[trigger] act@[j])@ by {
                    if j < before.len() {
                        assert(act@[j] == before[j]);
                    } else {
                        assert(act@[j]@ == requested@[i as int]@);
                    }
                }
            }
            i += 1;
        }
        if use_default && self.has_feature("default") && !contains_str(&act, "default") {
            let ghost before = act@;
            act.push(String::from_str("default"));
            proof {
                reveal_strlit("default");
                assert(act@[before.len() as int]@ == "default"@);
                assert forall|j: int| 0 <= j < requested@.len()
                    implies contains_view(act@, (#[trigger] requested@[j])@) by {
                    lemma_contains_push(before, act@[before.len() as int], requested@[j]@);
                    assert(act@ =~= before.push(act@[before.len() as int]));
                }
                assert forall|j: int| 0 <= j < act@.len()
                    implies exists|k: int| 0 <= k < self@.features.len()
                        && (#[trigger] self@.features[k]).0 == (#[trigger] act@[j])@ by {
                    if j < before.len() {
                        assert(act@[j] == before[j]);
                    }
                }
            }
        }
        proof {
            reveal_strlit("default");
            assert(forall|j: int| 0 <= j < act@.len()
                ==> exists|k: int| 0 <= k < self@.features.len()
                    && (#[trigger] self@.features[k]).0 == (#[trigger] act@[j])@);
        }
        // Close over the feature table: each pass adds the declared
        // targets of active keys; a pass that adds nothing has reached
        // the fixed point. Every addition activates a declared key not
        // yet active, so the count of missing declared keys shrinks.
        loop
            invariant
                forall|j: int| 0 <= j < requested@.len()
                    ==> contains_view(act@, (#[trigger] requested@[j])@),
                use_default && (exists|j: int| 0 <= j < self@.features.len()
                    && (#[trigger] self@.features[j]).0 == "default"@)
                    ==> contains_view(act@, "default"@),
                forall|j: int| 0 <= j < act@.len()
                    ==> exists|k: int| 0 <= k < self@.features.len()
                        && (#[trigger] self@.features[k]).0 == (#[trigger] act@[j])@,
            ensures
                forall|j: int| 0 <= j < requested@.len()
                    ==> contains_view(act@, (#[trigger] requested@[j])@),
                use_default && (exists|j: int| 0 <= j < self@.features.len()
                    && (#[trigger] self@.features[j]).0 == "default"@)
                    ==> contains_view(act@, "default"@),
                forall|j: int| 0 <= j < act@.len()
                    ==> exists|k: int| 0 <= k < self@.features.len()
                        && (#[trigger] self@.features[k]).0 == (#[trigger] act@[j])@,
                forall|k: int, e: int| 0 <= k < self@.features.len()
                    && contains_view(act@, (#[trigger] self@.features[k]).0)
                    && 0 <= e < self@.features[k].1.len()
                    && (exists|j: int| 0 <= j < self@.features.len()
                        && (#[trigger] self@.features[j]).0 == self@.features[k].1[e])
                    ==> contains_view(act@, #[trigger] self@.features[k].1[e]),
            decreases missing_keys(self@.features, act@, self@.features.len() as int),
        {
            let ghost pass0 = act@;
            let mut changed = false;
            let mut t: usize = 0;
            while t < self.features.len()
                invariant
                        0 <= t <= self@.features.len(),
                    forall|j: int| 0 <= j < requested@.len()
                        ==> contains_view(act@, (#[trigger] requested@[j])@),
                    use_default && (exists|j: int| 0 <= j < self@.features.len()
                        && (#[trigger] self@.features[j]).0 == "default"@)
                        ==> contains_view(act@, "default"@),
                    forall|j: int| 0 <= j < act@.len()
                        ==> exists|k: int| 0 <= k < self@.features.len()
                            && (#[trigger] self@.features[k]).0 == (#[trigger] act@[j])@,
                    missing_keys(self@.features, act@, self@.features.len() as int)
                        <= missing_keys(self@.features, pass0, self@.features.len() as int),
                    changed ==> missing_keys(self@.features, act@, self@.features.len() as int)
                        < missing_keys(self@.features, pass0, self@.features.len() as int),
                    !changed ==> act@ == pass0,
                    !changed ==> forall|k: int, e: int| 0 <= k < t
                        && contains_view(act@, (#[trigger] self@.features[k]).0)
                        && 0 <= e < self@.features[k].1.len()
                        && (exists|j: int| 0 <= j < self@.features.len()
                            && (#[trigger] self@.features[j]).0 == self@.features[k].1[e])
                        ==> contains_view(act@, #[trigger] self@.features[k].1[e]),
                decreases self@.features.len() - t,
            {
                let key_active = contains_str(&act, self.features[t].0.as_str());
                let ghost changed0 = changed;
                let ghost act0 = act@;
                if key_active {
                    let mut e: usize = 0;
                    while e < self.features[t].1.len()
                        invariant
                                        0 <= t < self@.features.len(),
                            0 <= e <= self@.features[t as int].1.len(),
                            changed0 ==> changed,
                            forall|j: int| 0 <= j < requested@.len()
                                ==> contains_view(act@, (#[trigger] requested@[j])@),
                            use_default && (exists|j: int| 0 <= j < self@.features.len()
                                && (#[trigger] self@.features[j]).0 == "default"@)
                                ==> contains_view(act@, "default"@),
                            forall|j: int| 0 <= j < act@.len()
                                ==> exists|k: int| 0 <= k < self@.features.len()
                                    && (#[trigger] self@.features[k]).0 == (#[trigger] act@[j])@,
                            missing_keys(self@.features, act@, self@.features.len() as int)
                                <= missing_keys(self@.features, pass0, self@.features.len() as int),
                            changed ==> missing_keys(self@.features, act@, self@.features.len() as int)
                                < missing_keys(self@.features, pass0, self@.features.len() as int),
                            !changed ==> act@ == pass0,
                            !changed ==> forall|e2: int| 0 <= e2 < e
                                && (exists|j: int| 0 <= j < self@.features.len()
                                    && (#[trigger] self@.features[j]).0
                                        == self@.features[t as int].1[e2])
                                ==> contains_view(act@,
                                    #[trigger] self@.features[t as int].1[e2]),
                        decreases self@.features[t as int].1.len() - e,
                    {
                        let target = &self.features[t].1[e];
                        if self.has_feature(target.as_str())
                            && !contains_str(&act, target.as_str()) {
                            let ghost before = act@;
                            proof {
                                lemma_missing_mono(self@.features, before,
                                    target@, self@.features.len() as int);
                                lemma_missing_strict(self@.features, before,
                                    target@, self@.features.len() as int);
                            }
                            act.push(target.clone());
                            proof {
                                assert(act@ =~= before.push(
                                    act@[before.len() as int]));
                                assert(act@[before.len() as int]@ == target@);
                                assert forall|j: int| 0 <= j < requested@.len()
                                    implies contains_view(act@,
                                        (#[trigger] requested@[j])@) by {
                                    lemma_contains_push(before,
                                        act@[before.len() as int], requested@[j]@);
                                }
                                if use_default && (exists|j: int| 0 <= j < self@.features.len()
                                    && (#[trigger] self@.features[j]).0 == "default"@) {
                                    lemma_contains_push(before,
                                        act@[before.len() as int], "default"@);
                                }
                                assert forall|j: int| 0 <= j < act@.len()
                                    implies exists|k: int| 0 <= k < self@.features.len()
                                        && (#[trigger] self@.features[k]).0
                                            == (#[trigger] act@[j])@ by {
                                    if j < before.len() {
                                        assert(act@[j] == before[j]);
                                    } else {
                                        assert(act@[j]@ == target@);
                                    }
                                }
                            }
                            changed = true;
                        }
                        e += 1;
                    }
                }
                proof {
                    if !changed {
                        assert(!changed0);
                        assert(act0 == pass0);
                        assert(act@ == pass0);
                        assert forall|e2: int| key_active && 0 <= e2
                            < self@.features[t as int].1.len()
                            && (exists|j: int| 0 <= j < self@.features.len()
                                && (#[trigger] self@.features[j]).0
                                    == self@.features[t as int].1[e2])
                            implies contains_view(act@,
                                #[trigger] self@.features[t as int].1[e2]) by {
                        }
                        assert forall|k: int, e2: int| 0 <= k < t + 1
                            && contains_view(act@, (#[trigger] self@.features[k]).0)
                            && 0 <= e2 < self@.features[k].1.len()
                            && (exists|j: int| 0 <= j < self@.features.len()
                                && (#[trigger] self@.features[j]).0 == self@.features[k].1[e2])
                            implies contains_view(act@,
                                #[trigger] self@.features[k].1[e2]) by {
                            if k == t as int {
                                if !key_active {
                                    assert(!contains_view(act@,
                                        self@.features[t as int].0));
                                    assert(false);
                                } else {
                                    assert(contains_view(act@,
                                        self@.features[t as int].1[e2]));
                                }
                            }
                        }
                    }
                }
                t += 1;
            }
            if !changed {
                proof {
                    assert(act@ == pass0);
                }
                break;
            }
        }
        Ok(act)
    }
}

/// How many of the first `n` table keys are not yet active.
pub open spec fn missing_keys(table: Seq<(Seq<char>, Seq<Seq<char>>)>,
    act: Seq<String>, n: int) -> nat
    decreases n,
{
    if n <= 0 {
        0
    } else if contains_view(act, table[n - 1].0) {
        missing_keys(table, act, n - 1)
    } else {
        missing_keys(table, act, n - 1) + 1
    }
}

proof fn lemma_missing_mono(table: Seq<(Seq<char>, Seq<Seq<char>>)>, act: Seq<String>,
    x: Seq<char>, n: int)
    ensures
        forall|y: String| y@ == x
            ==> missing_keys(table, #[trigger] act.push(y), n)
                <= missing_keys(table, act, n),
    decreases n,
{
    if n > 0 {
        lemma_missing_mono(table, act, x, n - 1);
        assert forall|y: String| y@ == x
            implies missing_keys(table, #[trigger] act.push(y), n)
                <= missing_keys(table, act, n) by {
            if contains_view(act, table[n - 1].0) {
                lemma_contains_push(act, y, table[n - 1].0);
            }
        }
    }
}

proof fn lemma_missing_strict(table: Seq<(Seq<char>, Seq<Seq<char>>)>, act: Seq<String>,
    x: Seq<char>, n: int)
    requires
        exists|k: int| 0 <= k < n && (#[trigger] table[k]).0 == x,
        !contains_view(act, x),
    ensures
        forall|y: String| y@ == x
            ==> missing_keys(table, #[trigger] act.push(y), n)
                < missing_keys(table, act, n),
    decreases n,
{
    let k = choose|k: int| 0 <= k < n && (#[trigger] table[k]).0 == x;
    assert forall|y: String| y@ == x
        implies missing_keys(table, #[trigger] act.push(y), n)
            < missing_keys(table, act, n) by {
        if k == n - 1 {
            lemma_missing_mono(table, act, x, n - 1);
            assert(!contains_view(act, table[n - 1].0));
            assert(contains_view(act.push(y), table[n - 1].0)) by {
                assert(act.push(y)[act.len() as int]@ == x);
            }
        } else {
            lemma_missing_strict(table, act, x, n - 1);
            if contains_view(act, table[n - 1].0) {
                lemma_contains_push(act, y, table[n - 1].0);
            }
        }
    }
}

/// True when some element of `v` reads as the characters `s`./// True when some element of `v` reads as the characters `s`.
pub open spec fn contains_view(v: Seq<String>, s: Seq<char>) -> bool {
    exists|k: int| 0 <= k < v.len() && (#[trigger] v[k])@ == s
}

proof fn lemma_contains_push(v: Seq<String>, x: String, s: Seq<char>)
    requires
        contains_view(v, s),
    ensures
        contains_view(v.push(x), s),
{
    let k = choose|k: int| 0 <= k < v.len() && (#[trigger] v[k])@ == s;
    assert(v.push(x)[k]@ == s);
}

/// True when some element of `v` has the characters of `s`.
pub fn contains_str(v: &Vec<String>, s: &str) -> (r: bool)
    ensures
        r == exists|i: int| 0 <= i < v@.len() && (#[trigger] v@[i])@ == s@,
{
    let mut i: usize = 0;
    while i < v.len()
        invariant
            0 <= i <= v.len(),
            forall|j: int| 0 <= j < i ==> (#[trigger] v@[j])@ != s@,
        decreases v.len() - i,
    {
        if str_eq(v[i].as_str(), s) {
            assert(v@[i as int]@ == s@);
            return true;
        }
        i += 1;
    }
    false
}

} // verus!
