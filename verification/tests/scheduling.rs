//! The job scheduler: dependency order, deterministic dispatch,
//! fail-fast against no-fail-fast, and cancellation.

use buildcore::fingerprint::{Freshness, Work};
use buildcore::ident::{PackageId, SourceId};
use buildcore::schedule::{select_work, Scheduler, UnitState};
use buildcore::unit::{
    CompileKind, CompileMode, Profile, Target, TargetKind, Unit, UnitDep, UnitGraph,
};
use buildcore::ident::InternedString;

fn unit(name: &str) -> Unit {
    Unit {
        pkg: PackageId::new(name, "1.0.0", SourceId::registry("http://example.com/"))
            .unwrap(),
        target: Target { name: name.to_string(), kind: TargetKind::Lib, for_host: false },
        profile: Profile {
            name: "dev".to_string(),
            opt_level: 0,
            debuginfo: true,
            lto: false,
            codegen_units: 16,
            overflow_checks: true,
        },
        kind: CompileKind::Target,
        mode: CompileMode::Build,
        features: Vec::new(),
        has_custom_build: false,
        links: None,
    }
}

fn edge(to: usize) -> UnitDep {
    UnitDep {
        unit_index: to,
        extern_crate_name: InternedString::new("dep"),
        public: false,
        noprelude: false,
    }
}

/// Drives the scheduler to completion, failing the units named in
/// `failing`; returns the finished order.
fn run(g: &UnitGraph, jobs: usize, fail_fast: bool, failing: &[usize]) -> (Scheduler, Vec<usize>) {
    let mut s = Scheduler::new(g, jobs, fail_fast);
    let mut order = Vec::new();
    loop {
        s.update_ready(g);
        match s.next_ready(g) {
            Some(i) => {
                s.start(i);
                let ok = !failing.contains(&i);
                s.finish(i, ok);
                order.push(i);
            }
            None => {
                // This driver finishes each unit as it starts it, so
                // nothing dispatchable means the build is over.
                break;
            }
        }
    }
    (s, order)
}

fn three_independent() -> UnitGraph {
    let mut g = UnitGraph::new();
    g.push_unit(unit("a"), Vec::new());
    g.push_unit(unit("b"), Vec::new());
    g.push_unit(unit("c"), Vec::new());
    g
}

#[test]
fn fail_fast_stops_after_first_failure() {
    // Three independent units with A failing: default mode reports one
    // failure and starts nothing more.
    let g = three_independent();
    let (s, order) = run(&g, 1, true, &[0]);
    assert_eq!(order, vec![0]);
    assert_eq!(s.failures(), vec![0]);
}

#[test]
fn no_fail_fast_completes_independent_units() {
    // In no-fail-fast mode the independent siblings still run, and all
    // failures are reported together.
    let g = three_independent();
    let (s, order) = run(&g, 1, false, &[0, 2]);
    assert_eq!(order, vec![0, 1, 2]);
    assert_eq!(s.failures(), vec![0, 2]);
}

#[test]
fn dependencies_run_before_dependents() {
    let mut g = UnitGraph::new();
    let a = g.push_unit(unit("dep"), Vec::new());
    let b = g.push_unit(unit("mid"), vec![edge(a)]);
    let _c = g.push_unit(unit("top"), vec![edge(b), edge(a)]);
    let (s, order) = run(&g, 4, true, &[]);
    assert_eq!(order, vec![0, 1, 2]);
    assert!(s.failures().is_empty());
    assert!(s.done());
}

#[test]
fn dispatch_order_follows_package_ids() {
    // Equal readiness dispatches in package-id order, so logs are
    // deterministic regardless of insertion order.
    let mut g = UnitGraph::new();
    g.push_unit(unit("zeta"), Vec::new());
    g.push_unit(unit("alpha"), Vec::new());
    g.push_unit(unit("midway"), Vec::new());
    let (_, order) = run(&g, 1, true, &[]);
    assert_eq!(order, vec![1, 2, 0]);
}

#[test]
fn failed_dependency_cancels_dependents() {
    let mut g = UnitGraph::new();
    let a = g.push_unit(unit("base"), Vec::new());
    let _b = g.push_unit(unit("user"), vec![edge(a)]);
    let (mut s, order) = run(&g, 1, false, &[0]);
    assert_eq!(order, vec![0]);
    s.update_ready(&g);
    assert!(matches!(s.states[1], UnitState::Cancelled));
    assert_eq!(s.failures(), vec![0]);
}

#[test]
fn capacity_bounds_running_units() {
    let g = three_independent();
    let mut s = Scheduler::new(&g, 1, true);
    s.update_ready(&g);
    let first = s.next_ready(&g).unwrap();
    s.start(first);
    // The one worker slot is taken: nothing else is dispatched.
    assert!(s.next_ready(&g).is_none());
    s.finish(first, true);
    s.update_ready(&g);
    assert!(s.next_ready(&g).is_some());
}

#[test]
fn fresh_units_do_not_run_the_compiler() {
    // Selecting work for a fresh unit picks its fresh half, which the
    // fingerprint engine made a no-op.
    let chosen = select_work(Freshness::Fresh, Work::RunCompiler, Work::Noop);
    assert!(matches!(chosen, Work::Noop));
    let dirty = select_work(Freshness::Dirty, Work::RunCompiler, Work::Noop);
    assert!(matches!(dirty, Work::RunCompiler));
}
