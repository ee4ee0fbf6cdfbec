//! The build-script wire protocol and its bookkeeping.

use buildcore::buildout::{BuildOutput, BuildScriptError};
use buildcore::fingerprint::Freshness;
use buildcore::ident::{PackageId, SourceId};
use buildcore::scripts::{dep_metadata_env, envify, feature_env, script_static_env,
    BuildDeps, BuildState};
use buildcore::unit::CompileKind;

fn parse(input: &[u8]) -> Result<BuildOutput, BuildScriptError> {
    BuildOutput::parse(input, "foo", "/old", "/new")
}

#[test]
fn parses_link_directives() {
    // The build-script-with-link-lib scenario: `-l foo` and the search
    // path must reach the dependent compile.
    let out = parse(b"cargo:rustc-link-lib=foo\ncargo:rustc-link-search=native=/x\n")
        .unwrap();
    assert_eq!(out.library_links, vec!["foo".to_string()]);
    assert_eq!(out.library_paths, vec!["native=/x".to_string()]);
}

#[test]
fn rejects_forbidden_rustc_flags() {
    // The same scenario's failure half: `-aaa` is disallowed and the
    // message names it.
    let err = parse(b"cargo:rustc-flags=-aaa").unwrap_err();
    assert_eq!(
        err.to_text(),
        "only `-l` and `-L` flags are allowed in build script of `foo`: `-aaa`"
    );
}

#[test]
fn accepts_l_and_upper_l_flags() {
    let out = parse(b"cargo:rustc-flags=-l dl -L /usr/lib -l z").unwrap();
    assert_eq!(out.library_links, vec!["dl".to_string(), "z".to_string()]);
    assert_eq!(out.library_paths, vec!["/usr/lib".to_string()]);
}

#[test]
fn flag_without_value_fails() {
    let err = parse(b"cargo:rustc-flags=-l").unwrap_err();
    assert_eq!(
        err.to_text(),
        "flag in rustc-flags has no value in build script of `foo`"
    );
}

#[test]
fn wrong_line_fails() {
    let err = parse(b"cargo:key-without-value").unwrap_err();
    assert_eq!(
        err.to_text(),
        "wrong output in build script of `foo`: `cargo:key-without-value`"
    );
}

#[test]
fn rustc_env_splits_on_first_equals() {
    let out = parse(b"cargo:rustc-env=KEY=a=b").unwrap();
    assert_eq!(out.env, vec![("KEY".to_string(), "a=b".to_string())]);
    let err = parse(b"cargo:rustc-env=NOVALUE").unwrap_err();
    assert_eq!(
        err.to_text(),
        "variable rustc-env has no value in build script of `foo`: `NOVALUE`"
    );
}

#[test]
fn unknown_keys_become_metadata() {
    let out = parse(b"cargo:root=/x\ncargo:libdir=/x/lib").unwrap();
    assert_eq!(
        out.metadata,
        vec![
            ("root".to_string(), "/x".to_string()),
            ("libdir".to_string(), "/x/lib".to_string())
        ]
    );
}

#[test]
fn non_directive_lines_pass_through() {
    let out = parse(b"plain build log\ncargo\ncargo:warning=look out\n").unwrap();
    assert_eq!(out.warnings, vec!["look out".to_string()]);
    assert!(out.metadata.is_empty());
}

#[test]
fn search_paths_are_remapped_between_roots() {
    // A path under the recorded old root moves under the current one.
    let out = parse(b"cargo:rustc-link-search=/old/out/dir").unwrap();
    assert_eq!(out.library_paths, vec!["/new/out/dir".to_string()]);
    let kept = parse(b"cargo:rustc-link-search=/other/dir").unwrap();
    assert_eq!(kept.library_paths, vec!["/other/dir".to_string()]);
}

#[test]
fn rerun_directives_are_tracked() {
    let out = parse(
        b"cargo:rerun-if-changed=build.rs\ncargo:rerun-if-env-changed=CC\n",
    )
    .unwrap();
    assert_eq!(out.rerun_if_changed, vec!["build.rs".to_string()]);
    assert_eq!(out.rerun_if_env_changed, vec!["CC".to_string()]);
    let deps = BuildDeps::new("/target/output", Some(&out));
    assert_eq!(deps.build_script_output, "/target/output");
    assert_eq!(deps.rerun_if_changed, vec!["build.rs".to_string()]);
    assert_eq!(deps.rerun_if_env_changed, vec!["CC".to_string()]);
    let empty = BuildDeps::new("/target/output", None);
    assert!(empty.rerun_if_changed.is_empty());
}

#[test]
fn rustc_flags_read_on_their_own() {
    let (paths, links) = BuildOutput::parse_rustc_flags("-L /x -l m", "foo").unwrap();
    assert_eq!(paths, vec!["/x".to_string()]);
    assert_eq!(links, vec!["m".to_string()]);
    let err = BuildOutput::parse_rustc_flags("-O2", "foo").unwrap_err();
    assert_eq!(
        err.to_text(),
        "only `-l` and `-L` flags are allowed in build script of `foo`: `-O2`"
    );
}

#[test]
fn rustc_env_read_on_its_own() {
    let (name, value) = BuildOutput::parse_rustc_env("PATH=/bin:/usr/bin", "foo")
        .unwrap();
    assert_eq!(name, "PATH");
    assert_eq!(value, "/bin:/usr/bin");
    assert!(BuildOutput::parse_rustc_env("JUSTANAME", "foo").is_err());
}

#[test]
fn whitespace_is_trimmed() {
    let out = parse(b"   cargo:rustc-cfg=feature_x   \r\n").unwrap();
    assert_eq!(out.cfgs, vec!["feature_x".to_string()]);
}

fn sample_output(lib: &str) -> BuildOutput {
    let mut o = BuildOutput::new();
    o.library_links.push(lib.to_string());
    o.cfgs.push("has_thing".to_string());
    o.env.push(("K".to_string(), "V".to_string()));
    o
}

fn an_id(name: &str) -> PackageId {
    PackageId::new(name, "1.0.0", SourceId::registry("http://example.com/")).unwrap()
}

#[test]
fn fresh_script_replays_recorded_effects() {
    // The replay property: after a fresh custom-build unit, the
    // effects downstream units see equal those of its last dirty run.
    let mut state = BuildState::new(Vec::new());
    let id = an_id("dep");
    let recorded = sample_output("from_last_dirty_run");
    let freshly_executed = sample_output("should_not_be_used");
    state
        .apply_script_result(
            id.with_precise(None),
            CompileKind::Host,
            Freshness::Fresh,
            Some(recorded),
            freshly_executed,
        )
        .unwrap();
    let got = state.get(&id, CompileKind::Host).unwrap();
    assert_eq!(got.library_links, vec!["from_last_dirty_run".to_string()]);
    assert_eq!(got.cfgs, vec!["has_thing".to_string()]);
    assert_eq!(got.env, vec![("K".to_string(), "V".to_string())]);
}

#[test]
fn fresh_script_without_record_fails() {
    let mut state = BuildState::new(Vec::new());
    let id = an_id("dep");
    let r = state.apply_script_result(
        id,
        CompileKind::Host,
        Freshness::Fresh,
        None,
        sample_output("x"),
    );
    assert!(r.is_err());
}

#[test]
fn dirty_script_records_what_it_produced() {
    let mut state = BuildState::new(Vec::new());
    let id = an_id("dep");
    state
        .apply_script_result(
            id.with_precise(None),
            CompileKind::Target,
            Freshness::Dirty,
            None,
            sample_output("just_built"),
        )
        .unwrap();
    assert!(state.get(&id, CompileKind::Host).is_none());
    let got = state.get(&id, CompileKind::Target).unwrap();
    assert_eq!(got.library_links, vec!["just_built".to_string()]);
}

#[test]
fn later_inserts_shadow_earlier_ones() {
    let mut state = BuildState::new(Vec::new());
    let id = an_id("dep");
    state.insert(id.with_precise(None), CompileKind::Host, sample_output("one"));
    state.insert(id.with_precise(None), CompileKind::Host, sample_output("two"));
    let got = state.get(&id, CompileKind::Host).unwrap();
    assert_eq!(got.library_links, vec!["two".to_string()]);
}

#[test]
fn overrides_are_found_by_links_name() {
    let state = BuildState::new(vec![(
        "native-lib".to_string(),
        CompileKind::Host,
        sample_output("declared"),
    )]);
    assert!(state.override_of("native-lib", CompileKind::Host).is_some());
    assert!(state.override_of("native-lib", CompileKind::Target).is_none());
    assert!(state.override_of("other", CompileKind::Host).is_none());
}

#[test]
fn script_environment_spellings() {
    assert_eq!(envify("serde-json"), b"SERDE_JSON".to_vec());
    assert_eq!(envify("z3"), b"Z3".to_vec());

    let env = feature_env(&vec!["default".to_string(), "use-std".to_string()]);
    assert_eq!(
        env,
        vec![
            ("CARGO_FEATURE_DEFAULT".to_string(), "1".to_string()),
            ("CARGO_FEATURE_USE_STD".to_string(), "1".to_string()),
        ]
    );

    let meta = vec![
        ("root".to_string(), "/x".to_string()),
        ("include-dir".to_string(), "/x/include".to_string()),
    ];
    let dep_env = dep_metadata_env("native-lib", &meta);
    assert_eq!(
        dep_env,
        vec![
            ("DEP_NATIVE_LIB_ROOT".to_string(), "/x".to_string()),
            ("DEP_NATIVE_LIB_INCLUDE_DIR".to_string(), "/x/include".to_string()),
        ]
    );
}

#[test]
fn static_script_environment_table() {
    let env = script_static_env(
        "/t/debug/build/foo-1/out",
        "/work/foo",
        4,
        "x86_64-unknown-linux-gnu",
        "x86_64-unknown-linux-gnu",
        "0",
        true,
        false,
        "/usr/bin/rustc",
        "/usr/bin/rustdoc",
        &Some("native".to_string()),
    );
    assert_eq!(env[0], ("OUT_DIR".to_string(), "/t/debug/build/foo-1/out".to_string()));
    assert_eq!(env[1], ("CARGO_MANIFEST_DIR".to_string(), "/work/foo".to_string()));
    assert_eq!(env[2], ("NUM_JOBS".to_string(), "4".to_string()));
    assert_eq!(env[3].0, "TARGET");
    assert_eq!(env[4].0, "HOST");
    assert_eq!(env[5], ("OPT_LEVEL".to_string(), "0".to_string()));
    assert_eq!(env[6], ("DEBUG".to_string(), "true".to_string()));
    assert_eq!(env[7], ("PROFILE".to_string(), "debug".to_string()));
    assert_eq!(env[8], ("RUSTC".to_string(), "/usr/bin/rustc".to_string()));
    assert_eq!(env[9], ("RUSTDOC".to_string(), "/usr/bin/rustdoc".to_string()));
    assert_eq!(env[10], ("CARGO_MANIFEST_LINKS".to_string(), "native".to_string()));
    let without = script_static_env("/o", "/m", 1, "t", "h", "3", false, true,
        "rustc", "rustdoc", &None);
    assert_eq!(without.len(), 10);
    assert_eq!(without[6], ("DEBUG".to_string(), "false".to_string()));
    assert_eq!(without[7], ("PROFILE".to_string(), "release".to_string()));
}
