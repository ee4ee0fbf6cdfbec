//! Resolver behaviour on deep and heavily backtracking registries: the
//! conflict cache must keep these searches from diverging.

use buildcore::dependency::Dependency;
use buildcore::ident::{PackageId, SourceId};
use buildcore::registry::Registry;
use buildcore::resolver::{resolve, Resolve, ResolveError};
use buildcore::summary::Summary;

fn d_loc() -> SourceId {
    SourceId::registry("http://example.com/")
}

fn d_pkg_id(name: &str) -> PackageId {
    PackageId::new(name, "1.0.0", d_loc()).unwrap()
}

fn d_pkg_id_v(name: &str, version: &str) -> PackageId {
    PackageId::new(name, version, d_loc()).unwrap()
}

fn d_dep_req(name: &str, req: &str) -> Dependency {
    let mut d = Dependency::parse(name, req).unwrap();
    d.set_source_id(d_loc());
    d
}

fn d_dep(name: &str) -> Dependency {
    d_dep_req(name, "*")
}

fn d_pkg_dep_v(name: &str, version: &str, deps: Vec<Dependency>) -> Summary {
    let links = if name.ends_with("-sys") {
        Some(name.to_string())
    } else {
        None
    };
    Summary::new(
        PackageId::new(name, version, d_loc()).unwrap(),
        deps,
        Vec::new(),
        links,
    )
}

fn d_pkg_v(name: &str, version: &str) -> Summary {
    d_pkg_dep_v(name, version, Vec::new())
}

fn d_resolve(
    root: &PackageId,
    deps: Vec<Dependency>,
    reg: &Registry,
) -> Result<Resolve, ResolveError> {
    resolve(root, deps, reg, false)
}

fn d_contains(res: &Resolve, ids: &[PackageId]) {
    for id in ids {
        assert!(res.contains(id), "missing {}", id.to_text());
    }
}

#[test]
fn resolving_with_constrained_sibling_backtrack_parent() {
    // The backtrack traps cannot change the failure of `constrained`;
    // the search must step past them and re-choose `bar`.
    let mut reglist = vec![
        d_pkg_dep_v(
            "foo",
            "1.0.0",
            vec![d_dep_req("bar", "1.0"), d_dep_req("constrained", "=1.0.0")],
        ),
        d_pkg_dep_v(
            "bar",
            "1.0.0",
            vec![
                d_dep_req("backtrack_trap1", "1.0.2"),
                d_dep_req("backtrack_trap2", "1.0.2"),
                d_dep_req("constrained", "1.0.0"),
            ],
        ),
        d_pkg_v("constrained", "1.0.0"),
        d_pkg_v("backtrack_trap1", "1.0.0"),
        d_pkg_v("backtrack_trap2", "1.0.0"),
    ];
    const NUM_BARS_AND_TRAPS: usize = 50;
    for i in 1..NUM_BARS_AND_TRAPS {
        let vsn = format!("1.0.{}", i);
        reglist.push(d_pkg_dep_v(
            "bar",
            &vsn,
            vec![
                d_dep_req("backtrack_trap1", "1.0.2"),
                d_dep_req("backtrack_trap2", "1.0.2"),
                d_dep_req("constrained", "1.0.1"),
            ],
        ));
        reglist.push(d_pkg_v("backtrack_trap1", &vsn));
        reglist.push(d_pkg_v("backtrack_trap2", &vsn));
        reglist.push(d_pkg_v("constrained", &vsn));
    }
    let reg = Registry::new(reglist);
    let res = d_resolve(&d_pkg_id("root"), vec![d_dep_req("foo", "1")], &reg).unwrap();
    d_contains(
        &res,
        &[
            d_pkg_id_v("root", "1.0.0"),
            d_pkg_id_v("foo", "1.0.0"),
            d_pkg_id_v("bar", "1.0.0"),
            d_pkg_id_v("constrained", "1.0.0"),
        ],
    );
}

#[test]
fn resolving_with_constrained_sibling_backtrack_activation() {
    // The traps come between the two attempted resolutions of
    // `constrained`; backtracking must reach the right activation.
    let mut reglist = vec![
        d_pkg_dep_v(
            "foo",
            "1.0.0",
            vec![
                d_dep_req("bar", "=1.0.0"),
                d_dep_req("backtrack_trap1", "1.0"),
                d_dep_req("backtrack_trap2", "1.0"),
                d_dep_req("constrained", "<=1.0.60"),
            ],
        ),
        d_pkg_dep_v("bar", "1.0.0", vec![d_dep_req("constrained", ">=1.0.60")]),
    ];
    const NUM_TRAPS: usize = 45;
    const NUM_CONSTRAINED: usize = 100;
    for i in 0..NUM_TRAPS {
        let vsn = format!("1.0.{}", i);
        reglist.push(d_pkg_v("backtrack_trap1", &vsn));
        reglist.push(d_pkg_v("backtrack_trap2", &vsn));
    }
    for i in 0..NUM_CONSTRAINED {
        let vsn = format!("1.0.{}", i);
        reglist.push(d_pkg_v("constrained", &vsn));
    }
    let reg = Registry::new(reglist);
    let res = d_resolve(&d_pkg_id("root"), vec![d_dep_req("foo", "1")], &reg).unwrap();
    d_contains(
        &res,
        &[
            d_pkg_id_v("root", "1.0.0"),
            d_pkg_id_v("foo", "1.0.0"),
            d_pkg_id_v("bar", "1.0.0"),
            d_pkg_id_v("constrained", "1.0.60"),
        ],
    );
}

#[test]
fn resolving_with_many_equivalent_backtracking() {
    let mut reglist = Vec::new();
    const DEPTH: usize = 200;
    const BRANCHING_FACTOR: usize = 100;

    // Each level depends on the next, but the last level does not
    // exist: every path must be discovered unsatisfiable without
    // trying them all.
    for l in 0..DEPTH {
        let name = format!("level{}", l);
        let next = format!("level{}", l + 1);
        for i in 1..BRANCHING_FACTOR {
            let vsn = format!("1.0.{}", i);
            reglist.push(d_pkg_dep_v(&name, &vsn, vec![d_dep(&next)]));
        }
    }
    let reg = Registry::new(reglist.clone());
    let res = d_resolve(&d_pkg_id("root"), vec![d_dep("level0")], &reg);
    assert!(res.is_err());

    // A good answer must still be found when one exists.
    reglist.push(d_pkg_v("level0", "1.0.0"));
    let reg = Registry::new(reglist.clone());
    let res = d_resolve(&d_pkg_id("root"), vec![d_dep("level0")], &reg).unwrap();
    d_contains(&res, &[d_pkg_id_v("root", "1.0.0"), d_pkg_id_v("level0", "1.0.0")]);

    // No special casing of empty candidate lists.
    reglist.push(d_pkg_v("constrained", "1.1.0"));
    reglist.push(d_pkg_v("constrained", "1.0.0"));
    reglist.push(d_pkg_dep_v(
        &format!("level{}", DEPTH),
        "1.0.0",
        vec![d_dep_req("constrained", "=1.0.0")],
    ));
    let reg = Registry::new(reglist.clone());
    let res = d_resolve(
        &d_pkg_id("root"),
        vec![d_dep("level0"), d_dep("constrained")],
        &reg,
    )
    .unwrap();
    d_contains(
        &res,
        &[
            d_pkg_id_v("root", "1.0.0"),
            d_pkg_id_v("level0", "1.0.0"),
            d_pkg_id_v("constrained", "1.1.0"),
        ],
    );

    let reg = Registry::new(reglist.clone());
    let res = d_resolve(
        &d_pkg_id("root"),
        vec![d_dep_req("level0", "1.0.1"), d_dep("constrained")],
        &reg,
    )
    .unwrap();
    d_contains(
        &res,
        &[
            d_pkg_id_v("root", "1.0.0"),
            d_pkg_id_v(&format!("level{}", DEPTH), "1.0.0"),
            d_pkg_id_v("constrained", "1.0.0"),
        ],
    );

    let reg = Registry::new(reglist.clone());
    let res = d_resolve(
        &d_pkg_id("root"),
        vec![d_dep_req("level0", "1.0.1"), d_dep_req("constrained", "1.1.0")],
        &reg,
    );
    assert!(res.is_err());
}

#[test]
fn resolving_with_deep_traps() {
    let mut reglist = Vec::new();
    const DEPTH: usize = 200;
    const BRANCHING_FACTOR: usize = 100;

    // Each backtrack_trap depends on the next, adding a backtrack
    // frame; none of which helps with `bad`.
    for l in 0..DEPTH {
        let name = format!("backtrack_trap{}", l);
        let next = format!("backtrack_trap{}", l + 1);
        for i in 1..BRANCHING_FACTOR {
            let vsn = format!("1.0.{}", i);
            reglist.push(d_pkg_dep_v(&name, &vsn, vec![d_dep(&next)]));
        }
    }
    {
        let name = format!("backtrack_trap{}", DEPTH);
        for i in 1..BRANCHING_FACTOR {
            let vsn = format!("1.0.{}", i);
            reglist.push(d_pkg_v(&name, &vsn));
        }
    }
    {
        // Slightly less constrained, so `cloaking` is picked last.
        for i in 1..(BRANCHING_FACTOR + 10) {
            let vsn = format!("1.0.{}", i);
            reglist.push(d_pkg_dep_v("cloaking", &vsn, vec![d_dep_req("bad", "1.0.1")]));
        }
    }
    let reg = Registry::new(reglist);
    let res = d_resolve(
        &d_pkg_id("root"),
        vec![d_dep("backtrack_trap0"), d_dep("cloaking")],
        &reg,
    );
    assert!(res.is_err());
}

#[test]
fn resolving_with_constrained_cousins_backtrack() {
    let mut reglist = Vec::new();
    const DEPTH: usize = 100;
    const BRANCHING_FACTOR: usize = 50;

    // Each backtrack_trap depends on the next; the last depends on a
    // specific range of `constrained`.
    for l in 0..DEPTH {
        let name = format!("backtrack_trap{}", l);
        let next = format!("backtrack_trap{}", l + 1);
        for i in 1..BRANCHING_FACTOR {
            let vsn = format!("1.0.{}", i);
            reglist.push(d_pkg_dep_v(&name, &vsn, vec![d_dep(&next)]));
        }
    }
    {
        let name = format!("backtrack_trap{}", DEPTH);
        for i in 1..BRANCHING_FACTOR {
            let vsn = format!("1.0.{}", i);
            reglist.push(d_pkg_dep_v(
                &name,
                &vsn,
                vec![d_dep_req("constrained", ">=1.1.0, <=2.0.0")],
            ));
        }
    }
    {
        // Slightly less constrained, so `constrained` is picked last.
        for i in 0..(BRANCHING_FACTOR + 10) {
            let vsn = format!("1.0.{}", i);
            reglist.push(d_pkg_v("constrained", &vsn));
        }
        reglist.push(d_pkg_v("constrained", "1.1.0"));
        reglist.push(d_pkg_v("constrained", "2.0.0"));
        reglist.push(d_pkg_v("constrained", "2.0.1"));
    }
    reglist.push(d_pkg_dep_v(
        "cloaking",
        "1.0.0",
        vec![d_dep_req("constrained", "~1.0.0")],
    ));

    let reg = Registry::new(reglist.clone());
    // The trap chain needs `constrained` within >=1.1.0, <=2.0.0, but
    // 2.0.1 is already picked, and cloaking needs ~1.0.0 besides.
    let res = d_resolve(
        &d_pkg_id("root"),
        vec![
            d_dep("backtrack_trap0"),
            d_dep_req("constrained", "2.0.1"),
            d_dep("cloaking"),
        ],
        &reg,
    );
    assert!(res.is_err());

    // Each level depends on the next, but the last level's own
    // dependencies are incompatible: the dead end must be remembered.
    for l in 0..DEPTH {
        let name = format!("level{}", l);
        let next = format!("level{}", l + 1);
        for i in 1..BRANCHING_FACTOR {
            let vsn = format!("1.0.{}", i);
            reglist.push(d_pkg_dep_v(&name, &vsn, vec![d_dep(&next)]));
        }
    }
    reglist.push(d_pkg_dep_v(
        &format!("level{}", DEPTH),
        "1.0.0",
        vec![d_dep("backtrack_trap0"), d_dep("cloaking")],
    ));

    let reg = Registry::new(reglist.clone());
    let res = d_resolve(
        &d_pkg_id("root"),
        vec![d_dep("level0"), d_dep_req("constrained", "2.0.1")],
        &reg,
    );
    assert!(res.is_err());

    let res = d_resolve(
        &d_pkg_id("root"),
        vec![d_dep("level0"), d_dep_req("constrained", "2.0.0")],
        &reg,
    )
    .unwrap();
    d_contains(
        &res,
        &[d_pkg_id_v("constrained", "2.0.0"), d_pkg_id_v("cloaking", "1.0.0")],
    );
}

#[test]
fn large_conflict_cache() {
    let mut input = vec![d_pkg_dep_v("last", "0.0.0", vec![d_dep("bad")])];
    let mut root_deps = vec![d_dep("last")];
    const NUM_VERSIONS: u8 = 3;
    for name in 0..=NUM_VERSIONS {
        // A sys crate and a major release version both generate many
        // conflicts.
        let sys_name = format!("{}-sys", (b'a' + name) as char);
        let in_len = input.len();
        input.push(d_pkg_dep_v(
            "last",
            &format!("{}.0.0", in_len),
            vec![d_dep_req(&sys_name, "=0.0.0")],
        ));
        root_deps.push(d_dep_req(&sys_name, ">= 0.0.1"));

        let plane_name = format!("{}", (b'a' + name) as char);
        let in_len = input.len();
        input.push(d_pkg_dep_v(
            "last",
            &format!("{}.0.0", in_len),
            vec![d_dep_req(&plane_name, "=1.0.0")],
        ));
        root_deps.push(d_dep_req(&plane_name, ">= 1.0.1"));

        for i in 0..=NUM_VERSIONS {
            input.push(d_pkg_v(&sys_name, &format!("{}.0.0", i)));
            input.push(d_pkg_v(&plane_name, &format!("1.0.{}", i)));
        }
    }
    let reg = Registry::new(input);
    let _ = d_resolve(&d_pkg_id("root"), root_deps, &reg);
}
