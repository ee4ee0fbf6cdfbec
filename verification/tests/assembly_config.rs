//! Compiler-invocation assembly, the build map, configuration values
//! and error display.

use buildcore::assembly::{
    extern_args, join_paths, package_env, search_path_args, strip_kind_prefix,
    dylib_path_envvar,
};
use buildcore::compile::{select_targets, target_runner, test_executables,
    source_ids_from_config, CfgRunner, CompileOptions, EnvTarget, Runner};
use buildcore::config::{credentials_value, ConfigValue, Definition, StringList};
use buildcore::errors::{
    display_error, display_error_chain, display_warning_with_error, ChainedError,
    ErrorLink, ShellLine, Verbosity,
};
use buildcore::ident::{InternedString, PackageId, SourceId};
use buildcore::scripts::build_map;
use buildcore::unit::{
    serialize_unit_graph, CompileKind, CompileMode, Profile, Target, TargetKind, Unit,
    UnitDep, UnitGraph,
};
use buildcore::version::Version;

#[test]
fn extern_flags_point_at_given_artifacts() {
    // The no-orphan property on concrete values: each flag names an
    // artifact of a finished dependency, nothing else.
    let deps = vec![
        ("bar".to_string(), "/t/debug/deps/libbar-1.rlib".to_string()),
        ("baz".to_string(), "/t/debug/deps/libbaz-2.rmeta".to_string()),
    ];
    let args = extern_args(&deps);
    assert_eq!(
        args,
        vec![
            "--extern".to_string(),
            "bar=/t/debug/deps/libbar-1.rlib".to_string(),
            "--extern".to_string(),
            "baz=/t/debug/deps/libbaz-2.rmeta".to_string(),
        ]
    );
    for pair in args.chunks(2) {
        let path = pair[1].split('=').nth(1).unwrap();
        assert!(deps.iter().any(|(_, p)| p == path));
    }
}

#[test]
fn search_path_flags_in_order() {
    let dirs = vec!["/t/debug/deps".to_string(), "/native".to_string()];
    assert_eq!(
        search_path_args(&dirs),
        vec![
            "-L".to_string(),
            "/t/debug/deps".to_string(),
            "-L".to_string(),
            "/native".to_string(),
        ]
    );
}

#[test]
fn kind_markers_are_stripped_for_the_loader_path() {
    assert_eq!(strip_kind_prefix("native=/x"), "/x");
    assert_eq!(strip_kind_prefix("framework=/y"), "/y");
    assert_eq!(strip_kind_prefix("dependency=/d"), "/d");
    assert_eq!(strip_kind_prefix("crate=/c"), "/c");
    assert_eq!(strip_kind_prefix("all=/a"), "/a");
    assert_eq!(strip_kind_prefix("/plain"), "/plain");
    assert_eq!(strip_kind_prefix("unknown=/k"), "unknown=/k");
}

#[test]
fn loader_path_is_joined_with_colons() {
    let paths = vec!["/a".to_string(), "/b".to_string(), "/c".to_string()];
    assert_eq!(join_paths(&paths), "/a:/b:/c");
    assert_eq!(join_paths(&vec!["/only".to_string()]), "/only");
    assert_eq!(join_paths(&Vec::new()), "");
    assert_eq!(dylib_path_envvar(), "LD_LIBRARY_PATH");
}

#[test]
fn package_environment_for_processes() {
    let env = package_env("foo", &Version::parse("1.2.3").unwrap());
    assert_eq!(env[0], ("CARGO_PKG_VERSION_MAJOR".to_string(), "1".to_string()));
    assert_eq!(env[1], ("CARGO_PKG_VERSION_MINOR".to_string(), "2".to_string()));
    assert_eq!(env[2], ("CARGO_PKG_VERSION_PATCH".to_string(), "3".to_string()));
    assert_eq!(env[3], ("CARGO_PKG_VERSION".to_string(), "1.2.3".to_string()));
    assert_eq!(env[4], ("CARGO_PKG_NAME".to_string(), "foo".to_string()));
}

fn et(name: &str, env: &str, is_test: bool) -> EnvTarget {
    EnvTarget { name: name.to_string(), env: env.to_string(), is_test }
}

#[test]
fn target_selection_by_environment() {
    let targets = vec![
        et("lib", "compile", false),
        et("tests", "test", true),
        et("docs", "doc", false),
    ];
    let built = select_targets(&targets, "test");
    assert_eq!(built.len(), 1);
    assert_eq!(built[0].name, "tests");
    // doc and doc-all both select the documentation targets.
    assert_eq!(select_targets(&targets, "doc")[0].name, "docs");
    assert_eq!(select_targets(&targets, "doc-all")[0].name, "docs");
    let exes = test_executables(&select_targets(&targets, "test"));
    assert_eq!(exes, vec!["tests".to_string()]);
    let opts = CompileOptions {
        update: false,
        env: "test".to_string(),
        jobs: Some(2),
        target: None,
    };
    assert_eq!(opts.env, "test");
}

#[test]
fn override_paths_skip_the_current_package() {
    let paths = vec!["/work/dep".to_string(), "/work/me".to_string()];
    let ids = source_ids_from_config(&paths, "/work/me");
    assert_eq!(ids.len(), 1);
    assert!(ids[0].is_path());
    assert_eq!(ids[0].url, "/work/dep");
}

#[test]
fn config_value_accessors() {
    let def = Definition::Path("/home/.config".to_string());
    let i = ConfigValue::Integer(3, def.dup());
    assert_eq!(i.i64().unwrap().0, 3);
    assert!(i.string().is_err());
    assert_eq!(i.desc(), "integer");
    let b = ConfigValue::Boolean(true, def.dup());
    assert!(b.boolean().unwrap().0);
    assert_eq!(b.desc(), "boolean");
    let l = ConfigValue::List(vec![("x".to_string(), def.dup())], def.dup());
    assert_eq!(l.list().unwrap().len(), 1);
    assert_eq!(l.desc(), "array");
    let t = ConfigValue::Table(Vec::new(), def.dup());
    assert!(t.table().is_ok());
    assert_eq!(t.desc(), "table");
}

#[test]
fn merge_appends_lists_and_respects_priority() {
    let file = Definition::Path("/f".to_string());
    let env = Definition::Environment("X".to_string());
    let mut l = ConfigValue::List(vec![("a".to_string(), file.dup())], file.dup());
    l.merge(
        ConfigValue::List(vec![("b".to_string(), env.dup())], env.dup()),
        false,
    )
    .unwrap();
    assert_eq!(l.list().unwrap().len(), 2);

    // An environment value replaces a file value even without force.
    let mut s = ConfigValue::String("from-file".to_string(), file.dup());
    s.merge(ConfigValue::String("from-env".to_string(), env.dup()), false)
        .unwrap();
    assert_eq!(s.string().unwrap().0, "from-env");

    // A file value does not replace a file value without force.
    let mut s2 = ConfigValue::String("original".to_string(), file.dup());
    s2.merge(ConfigValue::String("later".to_string(), file.dup()), false)
        .unwrap();
    assert_eq!(s2.string().unwrap().0, "original");
    s2.merge(ConfigValue::String("forced".to_string(), file.dup()), true)
        .unwrap();
    assert_eq!(s2.string().unwrap().0, "forced");

    // Containers never merge with primitives, and the failure names
    // both sides.
    let mut l2 = ConfigValue::List(Vec::new(), file.dup());
    let err = l2.merge(ConfigValue::Boolean(true, file.dup()), true).unwrap_err();
    assert_eq!(
        err.to_text(),
        "failed to merge config value: expected array (from /f) but found boolean (from /f)"
    );
}

#[test]
fn merge_tables_by_key() {
    let file = Definition::Path("/f".to_string());
    let mut t = ConfigValue::Table(
        vec![("kept".to_string(), ConfigValue::Integer(1, file.dup()))],
        file.dup(),
    );
    t.merge(
        ConfigValue::Table(
            vec![
                ("kept".to_string(), ConfigValue::Integer(2, file.dup())),
                ("new".to_string(), ConfigValue::Integer(3, file.dup())),
            ],
            file.dup(),
        ),
        true,
    )
    .unwrap();
    let entries = t.table().unwrap().0;
    assert_eq!(entries.len(), 2);
    assert_eq!(entries[0].0, "kept");
    assert_eq!(entries[0].1.i64().unwrap().0, 2);
    assert_eq!(entries[1].0, "new");
}

#[test]
fn credentials_layout() {
    let def = Definition::Path("/home/credentials".to_string());
    let (key, value) = credentials_value("SECRET-REDACTED".to_string(), None, def.dup());
    assert_eq!(key, "registry");
    let table = value.table().unwrap().0;
    assert_eq!(table[0].0, "token");
    let (key2, value2) = credentials_value(
        "SECRET-REDACTED".to_string(),
        Some("mirror".to_string()),
        def,
    );
    assert_eq!(key2, "registries");
    let outer = value2.table().unwrap().0;
    assert_eq!(outer[0].0, "mirror");

    let sl = StringList::new(vec!["-C".to_string(), "debuginfo=2".to_string()]);
    assert_eq!(sl.as_slice().len(), 2);
}

fn link(text: &str) -> ErrorLink {
    ErrorLink {
        text: text.to_string(),
        verbose_only: false,
        already_printed: false,
        internal: false,
    }
}

#[test]
fn error_chains_are_displayed_with_causes() {
    let err = ChainedError { links: vec![link("top"), link("middle"), link("root cause")] };
    let (lines, stopped) = display_error_chain(&err, Verbosity::Normal, true);
    assert!(!stopped);
    assert!(matches!(&lines[0], ShellLine::Error(t) if t == "top"));
    assert!(matches!(&lines[1], ShellLine::CausedBy(t) if t == "middle"));
    assert!(matches!(&lines[2], ShellLine::CausedBy(t) if t == "root cause"));
}

#[test]
fn verbose_only_causes_are_cut_when_not_verbose() {
    let mut hidden = link("detail");
    hidden.verbose_only = true;
    let err = ChainedError { links: vec![link("top"), hidden] };
    let (lines, stopped) = display_error_chain(&err, Verbosity::Normal, true);
    assert_eq!(lines.len(), 1);
    assert!(stopped);
    let (all, stopped2) = display_error_chain(&err, Verbosity::Verbose, true);
    assert_eq!(all.len(), 2);
    assert!(!stopped2);
}

#[test]
fn internal_errors_ask_for_a_bug_report() {
    let mut bad = link("invariant broken");
    bad.internal = true;
    let err = ChainedError { links: vec![bad] };
    let lines = display_error(&err, Verbosity::Normal, "buildcore 0.1.0");
    assert_eq!(lines.len(), 4);
    assert!(matches!(&lines[1], ShellLine::Note(t)
        if t == "this is an unexpected internal error"));
    assert!(matches!(&lines[2], ShellLine::Note(t)
        if t == "we would appreciate a bug report"));
    // The build identification rides along for the report.
    assert!(matches!(&lines[3], ShellLine::Note(t) if t == "buildcore 0.1.0"));
    let plain = display_error(&link_chain(), Verbosity::Normal, "buildcore 0.1.0");
    assert_eq!(plain.len(), 1);
}

fn link_chain() -> ChainedError {
    ChainedError { links: vec![link("ordinary failure")] }
}

#[test]
fn warnings_carry_their_explanation() {
    let err = ChainedError { links: vec![link("why it happened")] };
    let lines = display_warning_with_error("unused manifest key", &err, Verbosity::Normal);
    assert!(matches!(&lines[0], ShellLine::Plain(t) if t == "warning: unused manifest key"));
    assert!(matches!(&lines[1], ShellLine::Plain(t) if t.is_empty()));
    assert!(matches!(&lines[2], ShellLine::Plain(t) if t == "why it happened"));
}

fn bm_unit(name: &str, kind: TargetKind, has_script: bool, for_host: bool) -> Unit {
    Unit {
        pkg: PackageId::new(name, "1.0.0", SourceId::registry("http://example.com/"))
            .unwrap(),
        target: Target { name: name.to_string(), kind, for_host },
        profile: Profile {
            name: "dev".to_string(),
            opt_level: 0,
            debuginfo: true,
            lto: false,
            codegen_units: 16,
            overflow_checks: true,
        },
        kind: CompileKind::Target,
        mode: CompileMode::Build,
        features: Vec::new(),
        has_custom_build: has_script,
        links: None,
    }
}

fn bm_edge(to: usize) -> UnitDep {
    UnitDep {
        unit_index: to,
        extern_crate_name: InternedString::new("dep"),
        public: false,
        noprelude: false,
    }
}

#[test]
fn build_map_propagates_scripts_through_linkable_deps() {
    let mut g = UnitGraph::new();
    let sys = g.push_unit(bm_unit("native-sys", TargetKind::Lib, true, false), Vec::new());
    let mid = g.push_unit(bm_unit("mid", TargetKind::Lib, false, false), vec![bm_edge(sys)]);
    let top = g.push_unit(bm_unit("top", TargetKind::Bin, true, false), vec![bm_edge(mid)]);
    let scripts = build_map(&g);
    assert_eq!(scripts.len(), 3);
    // The sys crate consumes its own script.
    assert_eq!(scripts[sys].to_link.len(), 1);
    assert!(scripts[sys].to_link[0].0.name().as_str() == "native-sys");
    // The middle library propagates it, without a script of its own.
    assert_eq!(scripts[mid].to_link.len(), 1);
    // The top binary sees its own script first, then the propagated one,
    // each exactly once.
    assert_eq!(scripts[top].to_link.len(), 2);
    assert_eq!(scripts[top].to_link[0].0.name().as_str(), "top");
    assert_eq!(scripts[top].to_link[1].0.name().as_str(), "native-sys");
}

#[test]
fn build_map_collects_host_side_scripts_as_plugins() {
    let mut g = UnitGraph::new();
    let tool = g.push_unit(bm_unit("proc-tool", TargetKind::Lib, true, true), Vec::new());
    let user = g.push_unit(bm_unit("user", TargetKind::Lib, false, false), vec![bm_edge(tool)]);
    let scripts = build_map(&g);
    assert_eq!(scripts[user].to_link.len(), 0);
    assert_eq!(scripts[user].plugins.len(), 1);
    assert_eq!(scripts[user].plugins[0].name().as_str(), "proc-tool");
}

#[test]
fn home_lookup_answers_optionally() {
    // The configuration home depends on the environment; all that is
    // promised is an answer that is either absent or a path.
    match buildcore::config::homedir("/") {
        Some(path) => assert!(!path.is_empty()),
        None => {}
    }
}

#[test]
fn runner_selection_is_deterministic_or_refused() {
    let runner = |p: &str| Runner { path: p.to_string(), args: vec!["-q".to_string()] };
    let cand = |key: &str, matched: bool, p: &str| CfgRunner {
        key: key.to_string(),
        matched,
        runner: runner(p),
    };
    // An explicit per-triple runner wins over everything.
    let picked = target_runner(
        Some(runner("/bin/explicit")),
        vec![cand("cfg(unix)", true, "/bin/cfg")],
    )
    .unwrap()
    .unwrap();
    assert_eq!(picked.path, "/bin/explicit");
    // A single matching predicate supplies the runner.
    let picked = target_runner(None, vec![
        cand("cfg(windows)", false, "/bin/win"),
        cand("cfg(unix)", true, "/bin/unix"),
    ])
    .unwrap()
    .unwrap();
    assert_eq!(picked.path, "/bin/unix");
    // No match means no runner.
    assert!(target_runner(None, vec![cand("cfg(windows)", false, "/bin/win")])
        .unwrap()
        .is_none());
    // Two matching predicates are refused, naming both.
    let err = target_runner(None, vec![
        cand("cfg(unix)", true, "/bin/a"),
        cand("cfg(target_os = \"linux\")", true, "/bin/b"),
    ])
    .unwrap_err();
    assert_eq!(err.0, "cfg(unix)");
    assert_eq!(err.1, "cfg(target_os = \"linux\")");
}

#[test]
fn unit_graph_serializes_to_indices() {
    let mut g = UnitGraph::new();
    let dep_unit = Unit {
        pkg: PackageId::new("dep", "0.1.0", SourceId::registry("http://example.com/"))
            .unwrap(),
        target: Target { name: "dep".to_string(), kind: TargetKind::Lib, for_host: false },
        profile: Profile {
            name: "dev".to_string(),
            opt_level: 0,
            debuginfo: true,
            lto: false,
            codegen_units: 16,
            overflow_checks: true,
        },
        kind: CompileKind::Target,
        mode: CompileMode::Build,
        features: vec!["std".to_string()],
        has_custom_build: false,
        links: None,
    };
    let mut root_unit = dep_unit.clone();
    root_unit.pkg =
        PackageId::new("root", "1.0.0", SourceId::registry("http://example.com/"))
            .unwrap();
    root_unit.target.name = "root".to_string();
    root_unit.target.kind = TargetKind::Bin;
    let a = g.push_unit(dep_unit, Vec::new());
    let b = g.push_unit(
        root_unit,
        vec![UnitDep {
            unit_index: a,
            extern_crate_name: InternedString::new("dep"),
            public: true,
            noprelude: false,
        }],
    );
    let doc = serialize_unit_graph(&g, &vec![b]);
    assert_eq!(doc.version, 1);
    assert_eq!(doc.units.len(), 2);
    assert_eq!(doc.roots, vec![b]);
    assert_eq!(doc.units[0].target_name, "dep");
    assert_eq!(doc.units[1].target_name, "root");
    assert_eq!(doc.units[1].dependencies.len(), 1);
    assert_eq!(doc.units[1].dependencies[0].index, a);
    assert!(doc.units[1].dependencies[0].public);
    assert_eq!(doc.units[1].dependencies[0].extern_crate_name.as_str(), "dep");
    assert_eq!(doc.units[0].features, vec!["std".to_string()]);
}
