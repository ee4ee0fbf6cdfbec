//! Compilation assembly: the flags, search paths and environment a
//! compiler invocation is given, from the unit's resolved inputs.

use vstd::prelude::*;
use vstd::string::StringExecFns;
use crate::buildout::{bytes_of, sb};
use crate::text::dec_u64;
use crate::version::Version;
use vstd::utf8::valid_utf8;

verus! {

/// A fully assembled compiler invocation.
#[derive(Clone, Debug)]
pub struct CompilerInvocation {
    pub program: String,
    pub args: Vec<String>,
    pub env: Vec<(String, String)>,
    pub cwd: String,
}

/// The `--extern` arguments for a unit: one pair of arguments per
/// dependency artifact, `--extern` then `name=path`. Every path in
/// the result is the artifact of one of the given dependencies, so a
/// caller that passes only artifacts of finished dependency units
/// never references an orphan file.
pub fn extern_args(deps: &Vec<(String, String)>) -> (r: Vec<String>)
    ensures
        r@.len() == 2 * deps@.len(),
        forall|i: int| 0 <= i < deps@.len()
            ==> (#[trigger] r@[2 * i])@ == "--extern"@,
        forall|i: int| 0 <= i < deps@.len()
            ==> (#[trigger] r@[2 * i + 1])@ == deps@[i].0@ + "="@ + deps@[i].1@,
{
    proof {
        reveal_strlit("--extern");
        reveal_strlit("=");
    }
    let mut r: Vec<String> = Vec::new();
    let mut i: usize = 0;
    while i < deps.len()
        invariant
            0 <= i <= deps@.len(),
            r@.len() == 2 * i,
            forall|j: int| 0 <= j < i
                ==> (#[trigger] r@[2 * j])@ == "--extern"@,
            forall|j: int| 0 <= j < i
                ==> (#[trigger] r@[2 * j + 1])@ == deps@[j].0@ + "="@ + deps@[j].1@,
        decreases deps.len() - i,
    {
        let ghost before = r@;
        r.push("--extern".to_owned());
        let mut pair = deps[i].0.clone();
        pair.append("=");
        pair.append(deps[i].1.as_str());
        r.push(pair);
        proof {
            assert forall|j: int| 0 <= j < i + 1
                implies (#[trigger] r@[2 * j])@ == "--extern"@ by {
                if j < i {
                    assert(before[2 * j]@ == "--extern"@);
                    assert(r@[2 * j] == before[2 * j]);
                } else {
                    assert(r@[2 * j] == r@[before.len() as int]);
                }
            }
            assert forall|j: int| 0 <= j < i + 1
                implies (#[trigger] r@[2 * j + 1])@ == deps@[j].0@ + "="@
                    + deps@[j].1@ by {
                if j < i {
                    assert(before[2 * j + 1]@ == deps@[j].0@ + "="@ + deps@[j].1@);
                    assert(r@[2 * j + 1] == before[2 * j + 1]);
                } else {
                    assert(r@[2 * j + 1] == r@[before.len() as int + 1]);
                }
            }
        }
        i += 1;
    }
    r
}

/// Law: every `--extern` path handed to the compiler names an artifact
/// of one of the dependencies it was assembled from.
pub proof fn lemma_no_orphan_externs(deps: Seq<(Seq<char>, Seq<char>)>,
    args: Seq<Seq<char>>, i: int)
    requires
        args.len() == 2 * deps.len(),
        forall|j: int| 0 <= j < deps.len()
            ==> args[2 * j] == "--extern"@
                && (#[trigger] args[2 * j + 1]) == (#[trigger] deps[j]).0 + "="@
                    + deps[j].1,
        0 <= i < deps.len(),
    ensures
        exists|j: int| 0 <= j < deps.len()
            && args[2 * i + 1] == (#[trigger] deps[j]).0 + "="@ + deps[j].1,
{
    assert(args[2 * i + 1] == deps[i].0 + "="@ + deps[i].1);
}

/// The `-L` arguments for the collected search directories, in order.
pub fn search_path_args(dirs: &Vec<String>) -> (r: Vec<String>)
    ensures
        r@.len() == 2 * dirs@.len(),
        forall|i: int| 0 <= i < dirs@.len()
            ==> (#[trigger] r@[2 * i])@ == "-L"@,
        forall|i: int| 0 <= i < dirs@.len()
            ==> (#[trigger] r@[2 * i + 1])@ == dirs@[i]@,
{
    proof {
        reveal_strlit("-L");
    }
    let mut r: Vec<String> = Vec::new();
    let mut i: usize = 0;
    while i < dirs.len()
        invariant
            0 <= i <= dirs@.len(),
            r@.len() == 2 * i,
            forall|j: int| 0 <= j < i
                ==> (#[trigger] r@[2 * j])@ == "-L"@,
            forall|j: int| 0 <= j < i
                ==> (#[trigger] r@[2 * j + 1])@ == dirs@[j]@,
        decreases dirs.len() - i,
    {
        let ghost before = r@;
        r.push("-L".to_owned());
        r.push(dirs[i].clone());
        proof {
            assert forall|j: int| 0 <= j < i + 1
                implies (#[trigger] r@[2 * j])@ == "-L"@ by {
                if j < i {
                    assert(before[2 * j]@ == "-L"@);
                    assert(r@[2 * j] == before[2 * j]);
                } else {
                    assert(r@[2 * j] == r@[before.len() as int]);
                }
            }
            assert forall|j: int| 0 <= j < i + 1
                implies (#[trigger] r@[2 * j + 1])@ == dirs@[j]@ by {
                if j < i {
                    assert(before[2 * j + 1]@ == dirs@[j]@);
                    assert(r@[2 * j + 1] == before[2 * j + 1]);
                } else {
                    assert(r@[2 * j + 1] == r@[before.len() as int + 1]);
                }
            }
        }
        i += 1;
    }
    r
}

/// A search directory with any `kind=` marker stripped, over its
/// byte text: what goes on the dynamic loader path.
pub open spec fn spec_strip_kind(d: Seq<u8>) -> Seq<u8> {
    let n = marker_len(d);
    if n > 0 && valid_utf8(d.subrange(n, d.len() as int)) {
        d.subrange(n, d.len() as int)
    } else {
        d
    }
}

/// The length of the `kind=` marker in front of `d`, or zero.
pub open spec fn marker_len(d: Seq<u8>) -> int {
    if d.len() >= 7 && d.subrange(0, 7) == sb("native=") {
        7
    } else if d.len() >= 6 && d.subrange(0, 6) == sb("crate=") {
        6
    } else if d.len() >= 11 && d.subrange(0, 11) == sb("dependency=") {
        11
    } else if d.len() >= 10 && d.subrange(0, 10) == sb("framework=") {
        10
    } else if d.len() >= 4 && d.subrange(0, 4) == sb("all=") {
        4
    } else {
        0
    }
}

/// Strips a `native=`, `crate=`, `dependency=`, `framework=` or
/// `all=` marker off a native search directory.
pub fn strip_kind_prefix(d: &str) -> (r: String)
    ensures
        bytes_of(r@) == spec_strip_kind(bytes_of(d@)),
{
    let db = crate::buildout::slice_to_vec(d.as_bytes());
    let n = marker_len_exec(&db);
    if n > 0 {
        let rest = crate::buildout::subvec(&db, n, db.len());
        match crate::buildout::bytes_to_string(rest) {
            Some(s) => {
                return s;
            }
            None => {}
        }
    }
    d.to_owned()
}

fn marker_len_exec(db: &Vec<u8>) -> (n: usize)
    ensures
        n == marker_len(db@),
        n <= db@.len(),
{
    if db.len() >= 7 {
        let p = crate::buildout::subvec(db, 0, 7);
        if crate::buildout::bytes_eq(p.as_slice(), "native=".as_bytes()) {
            return 7;
        }
    }
    if db.len() >= 6 {
        let p = crate::buildout::subvec(db, 0, 6);
        if crate::buildout::bytes_eq(p.as_slice(), "crate=".as_bytes()) {
            return 6;
        }
    }
    if db.len() >= 11 {
        let p = crate::buildout::subvec(db, 0, 11);
        if crate::buildout::bytes_eq(p.as_slice(), "dependency=".as_bytes()) {
            return 11;
        }
    }
    if db.len() >= 10 {
        let p = crate::buildout::subvec(db, 0, 10);
        if crate::buildout::bytes_eq(p.as_slice(), "framework=".as_bytes()) {
            return 10;
        }
    }
    if db.len() >= 4 {
        let p = crate::buildout::subvec(db, 0, 4);
        if crate::buildout::bytes_eq(p.as_slice(), "all=".as_bytes()) {
            return 4;
        }
    }
    0
}

/// Joins loader-path entries with the platform separator.
pub open spec fn spec_join_paths(paths: Seq<Seq<char>>, n: int) -> Seq<char>
    decreases n,
{
    if n <= 0 {
        ""@
    } else if n == 1 {
        paths[0]
    } else {
        spec_join_paths(paths, n - 1) + ":"@ + paths[n - 1]
    }
}

/// Joins search-path entries into one loader-path value.
pub fn join_paths(paths: &Vec<String>) -> (r: String)
    ensures
        r@ == spec_join_paths(paths@.map_values(|s: String| s@),
            paths@.len() as int),
{
    proof {
        reveal_strlit("");
        reveal_strlit(":");
    }
    let ghost m = paths@.map_values(|s: String| s@);
    let mut r = String::new();
    proof {
        assert(r@ =~= spec_join_paths(m, 0));
    }
    let mut i: usize = 0;
    while i < paths.len()
        invariant
            0 <= i <= paths@.len(),
            m == paths@.map_values(|s: String| s@),
            r@ == spec_join_paths(m, i as int),
        decreases paths.len() - i,
    {
        if i > 0 {
            r.append(":");
        }
        r.append(paths[i].as_str());
        proof {
            reveal_strlit("");
            reveal_strlit(":");
            if i == 0 {
                assert(r@ =~= spec_join_paths(m, 1));
            } else {
                assert(r@ =~= spec_join_paths(m, i + 1));
            }
        }
        i += 1;
    }
    r
}

/// The environment variable naming the dynamic loader path here.
pub fn dylib_path_envvar() -> (r: &'static str)
    ensures
        r@ == "LD_LIBRARY_PATH"@,
{
    "LD_LIBRARY_PATH"
}

/// The `CARGO_PKG_*` environment a process run against the build's
/// artifacts receives: the version components and the package name,
/// in a fixed order.
pub fn package_env(name: &str, version: &Version) -> (r: Vec<(String, String)>)
    ensures
        r@.len() == 5,
        r@[0].0@ == "CARGO_PKG_VERSION_MAJOR"@
            && r@[0].1@ == crate::text::dec_seq(version.major),
        r@[1].0@ == "CARGO_PKG_VERSION_MINOR"@
            && r@[1].1@ == crate::text::dec_seq(version.minor),
        r@[2].0@ == "CARGO_PKG_VERSION_PATCH"@
            && r@[2].1@ == crate::text::dec_seq(version.patch),
        r@[3].0@ == "CARGO_PKG_VERSION"@ && r@[3].1@ == version.spec_text(),
        r@[4].0@ == "CARGO_PKG_NAME"@ && r@[4].1@ == name@,
{
    proof {
        reveal_strlit("CARGO_PKG_VERSION_MAJOR");
        reveal_strlit("CARGO_PKG_VERSION_MINOR");
        reveal_strlit("CARGO_PKG_VERSION_PATCH");
        reveal_strlit("CARGO_PKG_VERSION");
        reveal_strlit("CARGO_PKG_NAME");
    }
    let mut r: Vec<(String, String)> = Vec::new();
    r.push(("CARGO_PKG_VERSION_MAJOR".to_owned(), dec_u64(version.major)));
    r.push(("CARGO_PKG_VERSION_MINOR".to_owned(), dec_u64(version.minor)));
    r.push(("CARGO_PKG_VERSION_PATCH".to_owned(), dec_u64(version.patch)));
    r.push(("CARGO_PKG_VERSION".to_owned(), version.to_text()));
    r.push(("CARGO_PKG_NAME".to_owned(), name.to_owned()));
    r
}

} // verus!
