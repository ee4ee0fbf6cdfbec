//! Resolver behaviour over registries built in memory.

use buildcore::dependency::{Dependency, Kind};
use buildcore::ident::{PackageId, SourceId};
use buildcore::registry::Registry;
use buildcore::resolver::{resolve, Resolve, ResolveError};
use buildcore::summary::Summary;

fn registry_loc() -> SourceId {
    SourceId::registry("http://example.com/")
}

fn pkg_id(name: &str) -> PackageId {
    PackageId::new(name, "1.0.0", registry_loc()).unwrap()
}

fn pkg_id_v(name: &str, version: &str) -> PackageId {
    PackageId::new(name, version, registry_loc()).unwrap()
}

fn git_loc(url: &str) -> SourceId {
    SourceId::git(url, "master")
}

fn dep_req(name: &str, req: &str) -> Dependency {
    let mut d = Dependency::parse(name, req).unwrap();
    d.set_source_id(registry_loc());
    d
}

fn dep(name: &str) -> Dependency {
    dep_req(name, "*")
}

fn dep_loc(name: &str, url: &str) -> Dependency {
    let mut d = dep(name);
    d.set_source_id(git_loc(url));
    d
}

fn dep_kind(name: &str, kind: Kind) -> Dependency {
    let mut d = dep(name);
    d.set_kind(kind);
    d
}

fn links_of(name: &str) -> Option<String> {
    if name.ends_with("-sys") {
        Some(name.to_string())
    } else {
        None
    }
}

fn pkg_dep_v(name: &str, version: &str, deps: Vec<Dependency>) -> Summary {
    Summary::new(
        PackageId::new(name, version, registry_loc()).unwrap(),
        deps,
        Vec::new(),
        links_of(name),
    )
}

fn pkg(name: &str) -> Summary {
    pkg_dep_v(name, "1.0.0", Vec::new())
}

fn pkg_v(name: &str, version: &str) -> Summary {
    pkg_dep_v(name, version, Vec::new())
}

fn pkg_dep(name: &str, deps: Vec<Dependency>) -> Summary {
    pkg_dep_v(name, "1.0.0", deps)
}

fn pkg_loc(name: &str, url: &str) -> Summary {
    Summary::new(
        PackageId::new(name, "1.0.0", git_loc(url)).unwrap(),
        Vec::new(),
        Vec::new(),
        links_of(name),
    )
}

fn registry(pkgs: Vec<Summary>) -> Registry {
    Registry::new(pkgs)
}

fn do_resolve(
    root: &PackageId,
    deps: Vec<Dependency>,
    reg: &Registry,
) -> Result<Resolve, ResolveError> {
    resolve(root, deps, reg, false)
}

fn names(ps: &[(&str, &str)]) -> Vec<PackageId> {
    ps.iter().map(|(n, v)| pkg_id_v(n, v)).collect()
}

fn names1(ps: &[&str]) -> Vec<PackageId> {
    ps.iter().map(|n| pkg_id(n)).collect()
}

fn loc_names(ps: &[(&str, &str)]) -> Vec<PackageId> {
    ps.iter()
        .map(|(n, url)| PackageId::new(n, "1.0.0", git_loc(url)).unwrap())
        .collect()
}

fn assert_contains(res: &Resolve, ids: &[PackageId]) {
    for id in ids {
        assert!(res.contains(id), "missing {}", id.to_text());
    }
}

fn assert_same(res: &Resolve, ids: &[PackageId]) {
    assert_eq!(res.len(), ids.len());
    assert_contains(res, ids);
}

#[test]
fn test_resolving_empty_dependency_list() {
    let res = do_resolve(&pkg_id("root"), Vec::new(), &registry(vec![])).unwrap();
    assert_same(&res, &names1(&["root"]));
}

#[test]
fn test_resolving_only_package() {
    let reg = registry(vec![pkg("foo")]);
    let res = do_resolve(&pkg_id("root"), vec![dep("foo")], &reg).unwrap();
    assert_same(&res, &names1(&["root", "foo"]));
}

#[test]
fn test_resolving_one_dep() {
    let reg = registry(vec![pkg("foo"), pkg("bar")]);
    let res = do_resolve(&pkg_id("root"), vec![dep("foo")], &reg).unwrap();
    assert_same(&res, &names1(&["root", "foo"]));
}

#[test]
fn test_resolving_multiple_deps() {
    let reg = registry(vec![pkg("foo"), pkg("bar"), pkg("baz")]);
    let res = do_resolve(&pkg_id("root"), vec![dep("foo"), dep("baz")], &reg).unwrap();
    assert_same(&res, &names1(&["root", "foo", "baz"]));
}

#[test]
fn test_resolving_transitive_deps() {
    let reg = registry(vec![pkg("foo"), pkg_dep("bar", vec![dep("foo")])]);
    let res = do_resolve(&pkg_id("root"), vec![dep("bar")], &reg).unwrap();
    assert_same(&res, &names1(&["root", "foo", "bar"]));
}

#[test]
fn test_resolving_common_transitive_deps() {
    let reg = registry(vec![pkg_dep("foo", vec![dep("bar")]), pkg("bar")]);
    let res = do_resolve(&pkg_id("root"), vec![dep("foo"), dep("bar")], &reg).unwrap();
    assert_same(&res, &names1(&["root", "foo", "bar"]));
}

#[test]
fn test_resolving_with_same_name() {
    let list = vec![
        pkg_loc("foo", "http://first.example.com"),
        pkg_loc("bar", "http://second.example.com"),
    ];
    let reg = registry(list);
    let res = do_resolve(
        &pkg_id("root"),
        vec![
            dep_loc("foo", "http://first.example.com"),
            dep_loc("bar", "http://second.example.com"),
        ],
        &reg,
    )
    .unwrap();
    let mut expected = loc_names(&[
        ("foo", "http://first.example.com"),
        ("bar", "http://second.example.com"),
    ]);
    expected.push(pkg_id("root"));
    assert_same(&res, &expected);
}

#[test]
fn test_resolving_with_dev_deps() {
    let reg = registry(vec![
        pkg_dep("foo", vec![dep("bar"), dep_kind("baz", Kind::Development)]),
        pkg_dep("baz", vec![dep("bat"), dep_kind("bam", Kind::Development)]),
        pkg("bar"),
        pkg("bat"),
    ]);
    let res = do_resolve(
        &pkg_id("root"),
        vec![dep("foo"), dep_kind("baz", Kind::Development)],
        &reg,
    )
    .unwrap();
    assert_same(&res, &names1(&["root", "foo", "bar", "baz", "bat"]));
}

#[test]
fn resolving_with_many_versions() {
    let reg = registry(vec![pkg_v("foo", "1.0.1"), pkg_v("foo", "1.0.2")]);
    let res = do_resolve(&pkg_id("root"), vec![dep("foo")], &reg).unwrap();
    assert_same(&res, &names(&[("root", "1.0.0"), ("foo", "1.0.2")]));
}

#[test]
fn resolving_with_specific_version() {
    let reg = registry(vec![pkg_v("foo", "1.0.1"), pkg_v("foo", "1.0.2")]);
    let res = do_resolve(&pkg_id("root"), vec![dep_req("foo", "=1.0.1")], &reg).unwrap();
    assert_same(&res, &names(&[("root", "1.0.0"), ("foo", "1.0.1")]));
}

#[test]
fn test_resolving_maximum_version_with_transitive_deps() {
    let reg = registry(vec![
        pkg_v("util", "1.2.2"),
        pkg_v("util", "1.0.0"),
        pkg_v("util", "1.1.1"),
        pkg_dep("foo", vec![dep_req("util", "1.0.0")]),
        pkg_dep("bar", vec![dep_req("util", ">=1.0.1")]),
    ]);
    let res = do_resolve(
        &pkg_id("root"),
        vec![dep_req("foo", "1.0.0"), dep_req("bar", "1.0.0")],
        &reg,
    )
    .unwrap();
    assert_contains(
        &res,
        &names(&[
            ("root", "1.0.0"),
            ("foo", "1.0.0"),
            ("bar", "1.0.0"),
            ("util", "1.2.2"),
        ]),
    );
    assert!(!res.contains(&pkg_id_v("util", "1.0.1")));
    assert!(!res.contains(&pkg_id_v("util", "1.1.1")));
}

#[test]
fn test_resolving_minimum_version_with_transitive_deps() {
    // Under the minimal-versions policy the lowest possible version is
    // selected. "util 1.0.0" cannot be selected because of the
    // requirements of "bar", so the minimum version must be 1.1.1.
    let reg = registry(vec![
        pkg_v("util", "1.2.2"),
        pkg_v("util", "1.0.0"),
        pkg_v("util", "1.1.1"),
        pkg_dep("foo", vec![dep_req("util", "1.0.0")]),
        pkg_dep("bar", vec![dep_req("util", ">=1.0.1")]),
    ]);
    let res = resolve(
        &pkg_id("root"),
        vec![dep_req("foo", "1.0.0"), dep_req("bar", "1.0.0")],
        &reg,
        true,
    )
    .unwrap();
    assert_contains(
        &res,
        &names(&[
            ("root", "1.0.0"),
            ("foo", "1.0.0"),
            ("bar", "1.0.0"),
            ("util", "1.1.1"),
        ]),
    );
    assert!(!res.contains(&pkg_id_v("util", "1.2.2")));
    assert!(!res.contains(&pkg_id_v("util", "1.0.0")));
}

#[test]
fn resolving_incompat_versions() {
    let reg = registry(vec![
        pkg_v("foo", "1.0.1"),
        pkg_v("foo", "1.0.2"),
        pkg_dep("bar", vec![dep_req("foo", "=1.0.2")]),
    ]);
    assert!(do_resolve(
        &pkg_id("root"),
        vec![dep_req("foo", "=1.0.1"), dep("bar")],
        &reg
    )
    .is_err());
}

#[test]
fn resolving_wrong_case_from_registry() {
    // Names are matched exactly; a dependency spelled with the wrong
    // case finds nothing.
    let reg = registry(vec![pkg_v("foo", "1.0.0"), pkg_dep("bar", vec![dep("Foo")])]);
    assert!(do_resolve(&pkg_id("root"), vec![dep("bar")], &reg).is_err());
}

#[test]
fn resolving_mis_hyphenated_from_registry() {
    // Hyphens and underscores are distinct; a mis-hyphenated
    // dependency finds nothing.
    let reg = registry(vec![pkg_v("fo-o", "1.0.0"), pkg_dep("bar", vec![dep("fo_o")])]);
    assert!(do_resolve(&pkg_id("root"), vec![dep("bar")], &reg).is_err());
}

#[test]
fn resolving_backtrack() {
    let reg = registry(vec![
        pkg_dep_v("foo", "1.0.2", vec![dep("bar")]),
        pkg_dep_v("foo", "1.0.1", vec![dep("baz")]),
        pkg_dep("bar", vec![dep_req("foo", "=2.0.2")]),
        pkg("baz"),
    ]);
    let res = do_resolve(&pkg_id("root"), vec![dep_req("foo", "^1")], &reg).unwrap();
    assert_contains(
        &res,
        &names(&[("root", "1.0.0"), ("foo", "1.0.1"), ("baz", "1.0.0")]),
    );
}

#[test]
fn resolving_backtrack_features() {
    let mut bad = dep("bar");
    bad.set_features(vec!["bad".to_string()]);
    let reg = registry(vec![
        pkg_dep_v("foo", "1.0.2", vec![bad]),
        pkg_dep_v("foo", "1.0.1", vec![dep("bar")]),
        pkg("bar"),
    ]);
    let res = do_resolve(&pkg_id("root"), vec![dep_req("foo", "^1")], &reg).unwrap();
    assert_contains(
        &res,
        &names(&[("root", "1.0.0"), ("foo", "1.0.1"), ("bar", "1.0.0")]),
    );
}

#[test]
fn resolving_allows_multiple_compatible_versions() {
    let reg = registry(vec![
        pkg_v("foo", "1.0.0"),
        pkg_v("foo", "2.0.0"),
        pkg_v("foo", "0.1.0"),
        pkg_v("foo", "0.2.0"),
        pkg_dep("bar", vec![dep("d1"), dep("d2"), dep("d3"), dep("d4")]),
        pkg_dep("d1", vec![dep_req("foo", "1")]),
        pkg_dep("d2", vec![dep_req("foo", "2")]),
        pkg_dep("d3", vec![dep_req("foo", "0.1")]),
        pkg_dep("d4", vec![dep_req("foo", "0.2")]),
    ]);
    let res = do_resolve(&pkg_id("root"), vec![dep("bar")], &reg).unwrap();
    assert_same(
        &res,
        &names(&[
            ("root", "1.0.0"),
            ("foo", "1.0.0"),
            ("foo", "2.0.0"),
            ("foo", "0.1.0"),
            ("foo", "0.2.0"),
            ("d1", "1.0.0"),
            ("d2", "1.0.0"),
            ("d3", "1.0.0"),
            ("d4", "1.0.0"),
            ("bar", "1.0.0"),
        ]),
    );
}

#[test]
fn resolving_with_deep_backtracking() {
    let reg = registry(vec![
        pkg_dep_v("foo", "1.0.1", vec![dep_req("bar", "1")]),
        pkg_dep_v("foo", "1.0.0", vec![dep_req("bar", "2")]),
        pkg_dep_v(
            "bar",
            "1.0.0",
            vec![dep_req("baz", "=1.0.2"), dep_req("other", "1")],
        ),
        pkg_dep_v("bar", "2.0.0", vec![dep_req("baz", "=1.0.1")]),
        pkg_dep_v("baz", "1.0.2", vec![dep_req("other", "2")]),
        pkg_v("baz", "1.0.1"),
        pkg_v("dep_req", "1.0.0"),
        pkg_v("dep_req", "2.0.0"),
    ]);
    let res = do_resolve(&pkg_id("root"), vec![dep_req("foo", "1")], &reg).unwrap();
    assert_same(
        &res,
        &names(&[
            ("root", "1.0.0"),
            ("foo", "1.0.0"),
            ("bar", "2.0.0"),
            ("baz", "1.0.1"),
        ]),
    );
}

#[test]
fn resolving_with_sys_crates() {
    // A plain library may be selected twice across compatibility
    // classes, but a `links` package only once.
    let reg = registry(vec![
        pkg_v("l-sys", "0.9.1"),
        pkg_v("l-sys", "0.10.0"),
        pkg_v("l", "0.9.1"),
        pkg_v("l", "0.10.0"),
        pkg_dep_v(
            "d",
            "1.0.0",
            vec![
                dep_req("l-sys", ">=0.8.0, <=0.10.0"),
                dep_req("l", ">=0.8.0, <=0.10.0"),
            ],
        ),
        pkg_dep_v("r", "1.0.0", vec![dep_req("l-sys", "0.9"), dep_req("l", "0.9")]),
    ]);
    let res = do_resolve(
        &pkg_id("root"),
        vec![dep_req("d", "1"), dep_req("r", "1")],
        &reg,
    )
    .unwrap();
    assert_same(
        &res,
        &names(&[
            ("root", "1.0.0"),
            ("d", "1.0.0"),
            ("r", "1.0.0"),
            ("l-sys", "0.9.1"),
            ("l", "0.9.1"),
            ("l", "0.10.0"),
        ]),
    );
}

#[test]
fn resolving_with_constrained_sibling_transitive_dep_effects() {
    // When backtracking, alternatives must keep their transitive
    // effects in view: B affects whether D resolves.
    let reg = registry(vec![
        pkg_dep_v(
            "A",
            "1.0.0",
            vec![dep_req("B", "1.0"), dep_req("C", "1.0"), dep_req("D", "1.0.100")],
        ),
        pkg_dep_v("B", "1.0.0", vec![dep_req("C", ">=1.0.0")]),
        pkg_dep_v("B", "1.0.1", vec![dep_req("C", ">=1.0.1")]),
        pkg_dep_v("C", "1.0.0", vec![dep_req("D", "1.0.0")]),
        pkg_dep_v("C", "1.0.1", vec![dep_req("D", ">=1.0.1,<1.0.100")]),
        pkg_dep_v("C", "1.0.2", vec![dep_req("D", ">=1.0.2,<1.0.100")]),
        pkg_v("D", "1.0.0"),
        pkg_v("D", "1.0.1"),
        pkg_v("D", "1.0.2"),
        pkg_v("D", "1.0.100"),
        pkg_v("D", "1.0.101"),
        pkg_v("D", "1.0.102"),
        pkg_v("D", "1.0.103"),
        pkg_v("D", "1.0.104"),
        pkg_v("D", "1.0.105"),
    ]);
    let res = do_resolve(&pkg_id("root"), vec![dep_req("A", "1")], &reg).unwrap();
    assert_same(
        &res,
        &names(&[
            ("root", "1.0.0"),
            ("A", "1.0.0"),
            ("B", "1.0.0"),
            ("C", "1.0.0"),
            ("D", "1.0.105"),
        ]),
    );
}

#[test]
fn incomplete_information_skiping() {
    // Unpublishing a version that a successful resolution did not
    // select must not break the resolution.
    let input = vec![
        pkg_v("a", "1.0.0"),
        pkg_v("a", "1.1.0"),
        pkg_dep("b", vec![dep("a")]),
        pkg_v("c", "1.0.0"),
        pkg_v("c", "1.1.0"),
        pkg_dep("d", vec![dep_req("c", "=1.0")]),
        pkg_v("e", "1.0.0"),
        pkg_dep_v("e", "1.1.0", vec![dep_req("c", "1.1")]),
        pkg("to_yank"),
        pkg_dep_v("f", "1.0.0", vec![dep("to_yank"), dep("d")]),
        pkg_dep_v("f", "1.1.0", vec![dep("d")]),
        pkg_dep("g", vec![dep("b"), dep("e"), dep("f")]),
    ];
    let reg = registry(input.clone());
    let res = do_resolve(&pkg_id("root"), vec![dep("g")], &reg).unwrap();
    let package_to_yank = pkg_id("to_yank");
    assert!(!res.contains(&package_to_yank));
    let new_reg = registry(
        input
            .iter()
            .cloned()
            .filter(|x| !package_to_yank.equals(x.package_id()))
            .collect(),
    );
    assert_eq!(input.len(), new_reg.len() + 1);
    assert!(do_resolve(&pkg_id("root"), vec![dep("g")], &new_reg).is_ok());
}

#[test]
fn incomplete_information_skiping_2() {
    let input = vec![
        pkg_v("b", "3.8.10"),
        pkg_v("b", "8.7.4"),
        pkg_v("b", "9.4.6"),
        pkg_v("c", "1.8.8"),
        pkg_v("c", "10.2.5"),
        pkg_dep_v("d", "4.1.2", vec![dep_req("bad", "=6.10.9")]),
        pkg_v("d", "5.5.6"),
        pkg_v("d", "5.6.10"),
        pkg_v("to_yank", "8.0.1"),
        pkg_v("to_yank", "8.8.1"),
        pkg_dep_v(
            "e",
            "4.7.8",
            vec![dep_req("d", ">=5.5.6, <=5.6.10"), dep_req("to_yank", "=8.0.1")],
        ),
        pkg_dep_v("e", "7.4.9", vec![dep_req("bad", "=4.7.5")]),
        pkg_dep("f", vec![dep_req("d", ">=4.1.2, <=5.5.6")]),
        pkg_dep("g", vec![dep("bad")]),
        pkg_dep_v("h", "3.8.3", vec![dep("g")]),
        pkg_dep_v("h", "6.8.3", vec![dep("f")]),
        pkg_dep_v("h", "8.1.9", vec![dep_req("to_yank", "=8.8.1")]),
        pkg_dep("i", vec![dep("b"), dep("c"), dep("e"), dep("h")]),
    ];
    let reg = registry(input.clone());
    let res = do_resolve(&pkg_id("root"), vec![dep("i")], &reg).unwrap();
    let package_to_yank = pkg_id_v("to_yank", "8.8.1");
    assert!(!res.contains(&package_to_yank));
    let new_reg = registry(
        input
            .iter()
            .cloned()
            .filter(|x| !package_to_yank.equals(x.package_id()))
            .collect(),
    );
    assert_eq!(input.len(), new_reg.len() + 1);
    assert!(do_resolve(&pkg_id("root"), vec![dep("i")], &new_reg).is_ok());
}

#[test]
fn incomplete_information_skiping_3() {
    let input = vec![
        pkg_v("to_yank", "3.0.3"),
        pkg_v("to_yank", "3.3.0"),
        pkg_v("to_yank", "3.3.1"),
        pkg_dep_v("a", "3.3.0", vec![dep_req("to_yank", "=3.0.3")]),
        pkg_dep_v("a", "3.3.2", vec![dep_req("to_yank", "<=3.3.0")]),
        pkg_dep_v("b", "0.1.3", vec![dep_req("a", "=3.3.0")]),
        pkg_dep_v("b", "2.0.2", vec![dep_req("to_yank", "3.3.0"), dep("a")]),
        pkg_dep_v("b", "2.3.3", vec![dep_req("to_yank", "3.3.0"), dep_req("a", "=3.3.0")]),
    ];
    let reg = registry(input.clone());
    let res = do_resolve(&pkg_id("root"), vec![dep("b")], &reg).unwrap();
    let package_to_yank = pkg_id_v("to_yank", "3.0.3");
    assert!(!res.contains(&package_to_yank));
    let new_reg = registry(
        input
            .iter()
            .cloned()
            .filter(|x| !package_to_yank.equals(x.package_id()))
            .collect(),
    );
    assert_eq!(input.len(), new_reg.len() + 1);
    assert!(do_resolve(&pkg_id("root"), vec![dep("b")], &new_reg).is_ok());
}

#[test]
fn resolving_but_no_exists() {
    let reg = registry(vec![]);
    let res = do_resolve(&pkg_id("root"), vec![dep_req("foo", "1")], &reg);
    assert!(res.is_err());
    assert_eq!(
        res.err().unwrap().to_text(),
        "no matching package named `foo` found\n\
         location searched: registry `http://example.com/`\n\
         required by package `root v1.0.0 (registry `http://example.com/`)`"
    );
}

#[test]
fn resolving_cycle() {
    let reg = registry(vec![pkg_dep("foo", vec![dep("foo")])]);
    let _ = do_resolve(&pkg_id("root"), vec![dep_req("foo", "1")], &reg);
}

#[test]
fn hard_equality() {
    let reg = registry(vec![
        pkg_v("foo", "1.0.1"),
        pkg_v("foo", "1.0.0"),
        pkg_dep_v("bar", "1.0.0", vec![dep_req("foo", "1.0.0")]),
    ]);
    let res = do_resolve(
        &pkg_id("root"),
        vec![dep_req("bar", "1"), dep_req("foo", "=1.0.0")],
        &reg,
    )
    .unwrap();
    assert_same(
        &res,
        &names(&[("root", "1.0.0"), ("foo", "1.0.0"), ("bar", "1.0.0")]),
    );
}

#[test]
fn resolver_is_deterministic() {
    // The same inputs give byte-for-byte the same selection.
    let build = || {
        registry(vec![
            pkg_v("foo", "1.0.0"),
            pkg_v("foo", "1.2.0"),
            pkg_dep("bar", vec![dep_req("foo", "1")]),
            pkg_dep("baz", vec![dep("bar")]),
        ])
    };
    let run = || {
        let res = do_resolve(&pkg_id("root"), vec![dep("baz"), dep("foo")], &build())
            .unwrap();
        res.nodes()
            .iter()
            .map(|n| n.summary().package_id().to_text())
            .collect::<Vec<_>>()
    };
    assert_eq!(run(), run());
}

#[test]
fn links_conflict() {
    // Two selected packages cannot both claim one `links` name; the
    // failure names both packages.
    let a = Summary::new(
        pkg_id("a"),
        Vec::new(),
        Vec::new(),
        Some("native".to_string()),
    );
    let b = Summary::new(
        pkg_id("b"),
        Vec::new(),
        Vec::new(),
        Some("native".to_string()),
    );
    let reg = registry(vec![a, b]);
    let res = do_resolve(&pkg_id("root"), vec![dep("a"), dep("b")], &reg);
    let msg = res.err().unwrap().to_text();
    assert_eq!(
        msg,
        "native library `native` is linked by both `b v1.0.0 (registry \
         `http://example.com/`)` and `a v1.0.0 (registry `http://example.com/`)`"
    );
}

#[test]
fn two_versions_coexist_across_major() {
    // A root needing bar 0.1 and, transitively, bar 0.2 gets both.
    let reg = registry(vec![
        pkg_v("bar", "0.1.3"),
        pkg_v("bar", "0.2.2"),
        pkg_dep_v("baz", "0.2.0", vec![dep_req("bar", "0.2")]),
    ]);
    let res = do_resolve(
        &pkg_id("root"),
        vec![dep_req("bar", "0.1"), dep_req("baz", "0.2")],
        &reg,
    )
    .unwrap();
    assert_same(
        &res,
        &names(&[
            ("root", "1.0.0"),
            ("bar", "0.1.3"),
            ("bar", "0.2.2"),
            ("baz", "0.2.0"),
        ]),
    );
}

#[test]
fn conflicting_exact_requirements_report_the_loser() {
    // Two exact requirements in one compatibility class cannot both
    // hold; the failure names the dependency that lost.
    let reg = registry(vec![pkg_v("foo", "1.0.1"), pkg_v("foo", "1.0.2")]);
    let err = do_resolve(
        &pkg_id("root"),
        vec![dep_req("foo", "=1.0.1"), dep_req("foo", "=1.0.2")],
        &reg,
    )
    .unwrap_err();
    let msg = err.to_text();
    assert!(msg.contains("failed to select a version for `foo`"));
    assert!(msg.contains("required by package `root v1.0.0"));
}

#[test]
fn feature_activation_reaches_its_fixed_point() {
    // Enabling one feature pulls in everything it declares,
    // transitively, and nothing undeclared.
    let table = vec![
        ("default".to_string(), vec!["net".to_string()]),
        ("net".to_string(), vec!["io".to_string()]),
        ("io".to_string(), Vec::new()),
        ("unused".to_string(), Vec::new()),
    ];
    let s = Summary::new(pkg_id("feat"), Vec::new(), table, None);
    let act = s.activated_features(&Vec::new(), true).unwrap();
    assert!(act.contains(&"default".to_string()));
    assert!(act.contains(&"net".to_string()));
    assert!(act.contains(&"io".to_string()));
    assert!(!act.contains(&"unused".to_string()));
    let err = s.activated_features(&vec!["ghost".to_string()], false).unwrap_err();
    assert_eq!(err, "ghost");
}
