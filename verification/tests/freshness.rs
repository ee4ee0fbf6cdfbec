//! Fingerprints, freshness decisions and the dep-info probe.

use buildcore::fingerprint::{
    append_current_dir, calculate_target_mtime, dep_info_loc, dir, filename, is_fresh,
    prepare, prepare_build_cmd, prepare_init, prepare_target, Fingerprint, Freshness,
    MtimeMap, Personal, Work,
};
use buildcore::ident::{PackageId, SourceId};

fn an_fp() -> Fingerprint {
    Fingerprint::new(
        "rustc 1.0 | x86_64 | debug".to_string(),
        vec![Fingerprint::new(
            "dep extra".to_string(),
            Vec::new(),
            Personal::Known("dephash".to_string()),
        )],
        Personal::Known("tarball-hash".to_string()),
    )
}

#[test]
fn fingerprint_is_stable_across_recomputation() {
    // Unchanged inputs give the same string, run after run.
    let m = MtimeMap::new();
    let first = an_fp().resolve(&m).unwrap();
    let second = an_fp().resolve(&m).unwrap();
    assert_eq!(first, second);
}

#[test]
fn fingerprint_changes_with_inputs() {
    let m = MtimeMap::new();
    let base = an_fp().resolve(&m).unwrap();
    let other = Fingerprint::new(
        "rustc 1.1 | x86_64 | debug".to_string(),
        Vec::new(),
        Personal::Known("tarball-hash".to_string()),
    )
    .resolve(&m)
    .unwrap();
    assert_ne!(base, other);
}

#[test]
fn dependency_order_does_not_matter() {
    // Dependency fingerprints are combined sorted, so their order in
    // the graph does not change the result.
    let m = MtimeMap::new();
    let d1 = || Fingerprint::new("a".to_string(), Vec::new(), Personal::Known("1".into()));
    let d2 = || Fingerprint::new("b".to_string(), Vec::new(), Personal::Known("2".into()));
    let x = Fingerprint::new("x".to_string(), vec![d1(), d2()],
        Personal::Known("p".into()));
    let y = Fingerprint::new("x".to_string(), vec![d2(), d1()],
        Personal::Known("p".into()));
    assert_eq!(x.resolve(&m).unwrap(), y.resolve(&m).unwrap());
}

#[test]
fn deferred_probe_needs_the_mtime() {
    let fp = Fingerprint::new(
        "extra".to_string(),
        Vec::new(),
        Personal::Unknown("/t/debug/.fingerprint/foo/dep-lib-foo".to_string()),
    );
    let empty = MtimeMap::new();
    assert!(fp.resolve(&empty).is_none());
    let mut m = MtimeMap::new();
    m.push("/t/debug/.fingerprint/foo/dep-lib-foo".to_string(), 111);
    assert!(fp.resolve(&m).is_some());
}

#[test]
fn freshness_needs_match_and_outputs() {
    let new = "12345".to_string();
    let same = "12345".to_string();
    let other = "54321".to_string();
    assert!(is_fresh(Some(&same), Some(&new), true));
    assert!(!is_fresh(Some(&same), Some(&new), false));
    assert!(!is_fresh(Some(&other), Some(&new), true));
    assert!(!is_fresh(None, Some(&new), true));
    assert!(!is_fresh(Some(&same), None, true));
}

#[test]
fn preparation_work_split() {
    // A fresh unit's chosen work is a no-op: the compiler is not run.
    let p = prepare(true, "/t/.fingerprint/foo/lib-foo".to_string(), "9".to_string());
    assert!(matches!(p.freshness, Freshness::Fresh));
    assert!(matches!(p.fresh, Work::Noop));
    match p.dirty {
        Work::WriteFile { path, contents } => {
            assert_eq!(path, "/t/.fingerprint/foo/lib-foo");
            assert_eq!(contents, "9");
        }
        _ => panic!("dirty work must write the fingerprint"),
    }
    let d = prepare(false, "loc".to_string(), "9".to_string());
    assert!(matches!(d.freshness, Freshness::Dirty));
}

#[test]
fn fingerprint_paths() {
    let pkg = PackageId::new("foo", "0.5.0", SourceId::path("/work/foo")).unwrap();
    let d = dir("/work/target", "debug", &pkg);
    assert!(d.starts_with("/work/target/debug/.fingerprint/foo-"));
    assert_eq!(filename("foo", true, false, false), "lib-foo");
    assert_eq!(filename("foo", false, true, false), "test-bin-foo");
    assert_eq!(filename("foo", true, false, true), "doc-lib-foo");
    let loc = dep_info_loc("/work/target", "debug", &pkg, "foo", true, false, false);
    assert!(loc.starts_with("/work/target/debug/.fingerprint/foo-"));
    assert!(loc.ends_with("/dep-lib-foo"));
}

#[test]
fn dep_info_records_cwd_in_front() {
    let contents = append_current_dir(&b"out: src/lib.rs\n".to_vec(), "/work/foo");
    assert_eq!(&contents[..9], b"/work/foo");
    assert_eq!(contents[9], 0);
    assert_eq!(&contents[10..], b"out: src/lib.rs\n");
}

fn dep_info_bytes(rule: &str) -> Vec<u8> {
    append_current_dir(&rule.as_bytes().to_vec(), "/work/foo")
}

#[test]
fn unchanged_inputs_stay_fresh() {
    // The path-dependency scenario: inputs listed by the dep-info file
    // decide freshness; files the compiler never read do not.
    let info = dep_info_bytes("target/debug/foo: src/lib.rs src/util.rs\n");
    let mut m = MtimeMap::new();
    m.push("/work/foo/src/lib.rs".to_string(), 100);
    m.push("/work/foo/src/util.rs".to_string(), 90);
    // Touching an unreferenced file changes nothing tracked.
    m.push("/work/foo/src/tests/extra.rs".to_string(), 99_999);
    assert_eq!(calculate_target_mtime(&info, &m, 200), Ok(Some(200)));
}

#[test]
fn touched_input_forces_dirty() {
    let info = dep_info_bytes("target/debug/foo: src/lib.rs src/util.rs\n");
    let mut m = MtimeMap::new();
    m.push("/work/foo/src/lib.rs".to_string(), 300);
    m.push("/work/foo/src/util.rs".to_string(), 90);
    assert_eq!(calculate_target_mtime(&info, &m, 200), Ok(None));
}

#[test]
fn missing_input_forces_dirty() {
    let info = dep_info_bytes("target/debug/foo: src/lib.rs src/gone.rs\n");
    let mut m = MtimeMap::new();
    m.push("/work/foo/src/lib.rs".to_string(), 100);
    assert_eq!(calculate_target_mtime(&info, &m, 200), Ok(None));
}

#[test]
fn dep_info_join_of_escaped_spaces() {
    // A backslash at a token's end continues the path across a space.
    let info = dep_info_bytes("out: src/my\\ file.rs\n");
    let mut m = MtimeMap::new();
    m.push("/work/foo/src/my file.rs".to_string(), 10);
    assert_eq!(calculate_target_mtime(&info, &m, 50), Ok(Some(50)));
}

#[test]
fn dep_info_without_rule_is_an_error() {
    let info = append_current_dir(&b"no separator here\n".to_vec(), "/work/foo");
    let m = MtimeMap::new();
    assert_eq!(calculate_target_mtime(&info, &m, 50), Err(()));
    // A file with no recorded directory has no readable inputs; that
    // is a plain rebuild, not an error.
    assert_eq!(calculate_target_mtime(b"plain: src/lib.rs", &m, 50), Ok(None));
}

#[test]
fn single_package_build_then_fresh_rerun() {
    // A single package with no dependencies: the first run is dirty
    // and writes the fingerprint; rerunning with that fingerprint
    // stored and the artifact present is fresh, and the chosen work is
    // a no-op rather than a compiler invocation.
    let m = MtimeMap::new();
    let fp = || {
        Fingerprint::new(
            "rustc 1.0 | bin foo | dev".to_string(),
            Vec::new(),
            Personal::Known("src-main-rs".to_string()),
        )
    };
    let loc = "/t/debug/.fingerprint/foo-1/bin-foo".to_string();
    let first = prepare_target(None, &fp(), &m, loc.clone(), false).unwrap();
    assert!(matches!(first.freshness, Freshness::Dirty));
    let written = match first.dirty {
        Work::WriteFile { contents, .. } => contents,
        _ => panic!("first run must write the fingerprint"),
    };
    let rerun = prepare_target(Some(&written), &fp(), &m, loc, true).unwrap();
    assert!(matches!(rerun.freshness, Freshness::Fresh));
    let chosen = buildcore::schedule::select_work(
        rerun.freshness,
        Work::RunCompiler,
        rerun.fresh,
    );
    assert!(matches!(chosen, Work::Noop));
}

#[test]
fn build_cmd_freshness_follows_the_content_hash() {
    let p = prepare_build_cmd("hash-one".to_string(), None, "loc".to_string());
    assert!(matches!(p.freshness, Freshness::Dirty));
    let written = match p.dirty {
        Work::WriteFile { contents, .. } => contents,
        _ => panic!("dirty work must write the fingerprint"),
    };
    let again = prepare_build_cmd("hash-one".to_string(), Some(&written),
        "loc".to_string());
    assert!(matches!(again.freshness, Freshness::Fresh));
    let changed = prepare_build_cmd("hash-two".to_string(), Some(&written),
        "loc".to_string());
    assert!(matches!(changed.freshness, Freshness::Dirty));
}

#[test]
fn init_work_ensures_the_directory() {
    let (a, b) = prepare_init("/t/debug/.fingerprint/foo-1");
    assert!(matches!(a, Work::EnsureDir(d) if d == "/t/debug/.fingerprint/foo-1"));
    assert!(matches!(b, Work::EnsureDir(d) if d == "/t/debug/.fingerprint/foo-1"));
}

#[test]
fn absolute_paths_skip_the_cwd_join() {
    let info = dep_info_bytes("out: /abs/path.rs\n");
    let mut m = MtimeMap::new();
    m.push("/abs/path.rs".to_string(), 10);
    assert_eq!(calculate_target_mtime(&info, &m, 50), Ok(Some(50)));
}
