//! The compile front door: the options a compilation is requested
//! with, and the selection of targets that a request builds.

use vstd::prelude::*;
use vstd::string::StringExecFns;
use crate::ident::SourceId;
use crate::text::str_eq;

verus! {

/// What a compilation request asks for.
#[derive(Clone, Debug)]
pub struct CompileOptions {
    /// Re-query the sources before resolving.
    pub update: bool,
    /// The profile environment to build: `compile`, `test`, `doc`, ...
    pub env: String,
    /// Parallel compiler processes, when set.
    pub jobs: Option<u32>,
    /// The target triple, when cross-compiling.
    pub target: Option<String>,
}

/// One buildable target with the profile environment it belongs to.
#[derive(Clone, Debug)]
pub struct EnvTarget {
    pub name: String,
    pub env: String,
    pub is_test: bool,
}

/// Whether a target belongs to the requested environment: under `doc`
/// and `doc-all` the documentation targets, under anything else the
/// targets of exactly that environment.
pub open spec fn spec_target_selected(target_env: Seq<char>, env: Seq<char>) -> bool {
    if env == "doc"@ || env == "doc-all"@ {
        target_env == "doc"@
    } else {
        target_env == env
    }
}

/// The view of one buildable target.
pub open spec fn et_view(t: EnvTarget) -> (Seq<char>, Seq<char>, bool) {
    (t.name@, t.env@, t.is_test)
}

/// The targets of the requested environment among the first `n`, in
/// declaration order, with multiplicity.
pub open spec fn spec_selected(targets: Seq<EnvTarget>, env: Seq<char>, n: int)
    -> Seq<(Seq<char>, Seq<char>, bool)>
    decreases n,
{
    if n <= 0 {
        Seq::empty()
    } else if spec_target_selected(targets[n - 1].env@, env) {
        spec_selected(targets, env, n - 1).push(et_view(targets[n - 1]))
    } else {
        spec_selected(targets, env, n - 1)
    }
}

/// The targets a request builds: exactly the declared targets of the
/// requested environment, in order, with multiplicity.
pub fn select_targets(targets: &Vec<EnvTarget>, env: &str) -> (r: Vec<EnvTarget>)
    ensures
        r@.map_values(|t: EnvTarget| et_view(t))
            == spec_selected(targets@, env@, targets@.len() as int),
{
    let mut r: Vec<EnvTarget> = Vec::new();
    proof {
        assert(r@.map_values(|t: EnvTarget| et_view(t))
            =~= Seq::<(Seq<char>, Seq<char>, bool)>::empty());
    }
    let doc_mode = str_eq(env, "doc") || str_eq(env, "doc-all");
    let mut j: usize = 0;
    while j < targets.len()
        invariant
            0 <= j <= targets@.len(),
            doc_mode == (env@ == "doc"@ || env@ == "doc-all"@),
            r@.map_values(|t: EnvTarget| et_view(t))
                == spec_selected(targets@, env@, j as int),
        decreases targets.len() - j,
    {
        let t = &targets[j];
        let keep = if doc_mode {
            str_eq(t.env.as_str(), "doc")
        } else {
            str_eq(t.env.as_str(), env)
        };
        if keep {
            let ghost before = r@;
            r.push(EnvTarget {
                name: t.name.clone(),
                env: t.env.clone(),
                is_test: t.is_test,
            });
            proof {
                assert(spec_target_selected(targets@[j as int].env@, env@));
                assert(r@.map_values(|t2: EnvTarget| et_view(t2))
                    =~= before.map_values(|t2: EnvTarget| et_view(t2))
                        .push(et_view(targets@[j as int])));
            }
        } else {
            proof {
                assert(!spec_target_selected(targets@[j as int].env@, env@));
            }
        }
        j += 1;
    }
    r
}

/// The names of the test targets among the first `n` selected ones,/// The names of the test targets among the first `n` selected ones,
/// in order.
pub open spec fn spec_test_names(s: Seq<EnvTarget>, n: int) -> Seq<Seq<char>>
    decreases n,
{
    if n <= 0 {
        Seq::empty()
    } else if s[n - 1].is_test {
        spec_test_names(s, n - 1).push(s[n - 1].name@)
    } else {
        spec_test_names(s, n - 1)
    }
}

/// The test executables among selected targets, by name, in order.
pub fn test_executables(selected: &Vec<EnvTarget>) -> (r: Vec<String>)
    ensures
        r@.map_values(|s: String| s@)
            == spec_test_names(selected@, selected@.len() as int),
{
    let mut r: Vec<String> = Vec::new();
    proof {
        assert(r@.map_values(|s: String| s@) =~= Seq::<Seq<char>>::empty());
    }
    let mut j: usize = 0;
    while j < selected.len()
        invariant
            0 <= j <= selected@.len(),
            r@.map_values(|s: String| s@) == spec_test_names(selected@, j as int),
        decreases selected.len() - j,
    {
        if selected[j].is_test {
            let ghost before = r@;
            r.push(selected[j].name.clone());
            proof {
                assert(r@.map_values(|s: String| s@)
                    =~= before.map_values(|s: String| s@)
                        .push(selected@[j as int].name@));
            }
        }
        j += 1;
    }
    r
}

/// Path-source overrides read from configuration: one per configured
/// path, the current package's own path left out.
pub fn source_ids_from_config(paths: &Vec<String>, cur_path: &str) -> (r: Vec<SourceId>)
    ensures
        forall|i: int| 0 <= i < r@.len()
            ==> ((#[trigger] r@[i])@.kind is Path && r@[i]@.url != cur_path@),
        forall|j: int| 0 <= j < paths@.len() && (#[trigger] paths@[j])@ != cur_path@
            ==> exists|i: int| 0 <= i < r@.len() && (#[trigger] r@[i])@.url == paths@[j]@,
{
    let mut r: Vec<SourceId> = Vec::new();
    let mut j: usize = 0;
    while j < paths.len()
        invariant
            0 <= j <= paths@.len(),
            forall|i: int| 0 <= i < r@.len()
                ==> ((#[trigger] r@[i])@.kind is Path && r@[i]@.url != cur_path@),
            forall|k: int| 0 <= k < j && (#[trigger] paths@[k])@ != cur_path@
                ==> exists|i: int| 0 <= i < r@.len()
                    && (#[trigger] r@[i])@.url == paths@[k]@,
        decreases paths.len() - j,
    {
        if !str_eq(paths[j].as_str(), cur_path) {
            let ghost before = r@;
            r.push(SourceId::path(paths[j].as_str()));
            proof {
                assert(r@[before.len() as int]@.url == paths@[j as int]@);
                assert forall|k: int| 0 <= k < j + 1
                    && (#[trigger] paths@[k])@ != cur_path@
                    implies exists|i: int| 0 <= i < r@.len()
                        && (#[trigger] r@[i])@.url == paths@[k]@ by {
                    if k < j {
                        let i = choose|i: int| 0 <= i < before.len()
                            && (#[trigger] before[i])@.url == paths@[k]@;
                        assert(r@[i]@.url == paths@[k]@);
                    } else {
                        assert(r@[before.len() as int]@.url == paths@[k]@);
                    }
                }
            }
        }
        j += 1;
    }
    r
}

/// One way to run artifacts for a target platform: a program and its
/// leading arguments.
#[derive(Clone, Debug)]
pub struct Runner {
    pub path: String,
    pub args: Vec<String>,
}

/// A runner offered by a `cfg`-predicate entry of the configuration:
/// its key text, whether the predicate matches the target, and the
/// runner it declares.
#[derive(Clone, Debug)]
pub struct CfgRunner {
    pub key: String,
    pub matched: bool,
    pub runner: Runner,
}

/// Picks the runner for a target: an explicit per-triple runner wins;
/// else the single matching `cfg` entry's runner is taken, none means
/// no runner, and two matching entries are an error naming both keys.
pub fn target_runner(explicit: Option<Runner>, cfg_candidates: Vec<CfgRunner>)
    -> (r: Result<Option<Runner>, (String, String)>)
    ensures
        explicit is Some ==> (r matches Ok(o) && o == explicit),
        explicit is None && (forall|i: int| 0 <= i < cfg_candidates@.len()
            ==> !(#[trigger] cfg_candidates@[i]).matched)
            ==> (r matches Ok(o) && o is None),
        r matches Ok(o) ==> (o matches Some(run)
            ==> (explicit is None ==> exists|i: int| 0 <= i < cfg_candidates@.len()
                && (#[trigger] cfg_candidates@[i]).matched
                && run == cfg_candidates@[i].runner
                && (forall|j: int| 0 <= j < cfg_candidates@.len() && j != i
                    ==> !(#[trigger] cfg_candidates@[j]).matched))),
        r matches Err(p) ==> explicit is None
            && (exists|i: int, j: int| 0 <= i < j < cfg_candidates@.len()
                && (#[trigger] cfg_candidates@[i]).matched
                && (#[trigger] cfg_candidates@[j]).matched
                && p.0@ == cfg_candidates@[i].key@
                && p.1@ == cfg_candidates@[j].key@),
{
    if let Some(run) = explicit {
        return Ok(Some(run));
    }
    let mut first: Option<usize> = None;
    let mut i: usize = 0;
    while i < cfg_candidates.len()
        invariant
            explicit is None,
            0 <= i <= cfg_candidates@.len(),
            first is None ==> forall|j: int| 0 <= j < i
                ==> !(#[trigger] cfg_candidates@[j]).matched,
            first matches Some(f) ==> f < i
                && cfg_candidates@[f as int].matched
                && (forall|j: int| 0 <= j < i && j != f
                    ==> !(#[trigger] cfg_candidates@[j]).matched),
        decreases cfg_candidates.len() - i,
    {
        if cfg_candidates[i].matched {
            match first {
                None => {
                    first = Some(i);
                }
                Some(f) => {
                    // Two predicates both match: refusing is better
                    // than an arbitrary pick.
                    return Err((
                        cfg_candidates[f].key.clone(),
                        cfg_candidates[i].key.clone(),
                    ));
                }
            }
        }
        i += 1;
    }
    match first {
        None => Ok(None),
        Some(f) => {
            let ghost cands0 = cfg_candidates@;
            let mut rest = cfg_candidates;
            let chosen = rest.remove(f);
            proof {
                assert(chosen == cands0[f as int]);
                assert(cands0[f as int].matched);
                assert(exists|i2: int| 0 <= i2 < cands0.len()
                    && (#[trigger] cands0[i2]).matched
                    && chosen.runner == cands0[i2].runner
                    && (forall|j: int| 0 <= j < cands0.len() && j != i2
                        ==> !(#[trigger] cands0[j]).matched)) by {
                    assert(0 <= f < cands0.len() && cands0[f as int].matched
                        && chosen.runner == cands0[f as int].runner
                        && (forall|j: int| 0 <= j < cands0.len() && j != f
                            ==> !(#[trigger] cands0[j]).matched));
                }
            }
            Ok(Some(chosen.runner))
        }
    }
}

} // verus!
