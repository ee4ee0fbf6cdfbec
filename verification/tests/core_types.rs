//! Versions, requirements, identifiers and dependencies.

use buildcore::dependency::{Dependency, SerializedDependency};
use buildcore::ident::{GitReference, GitSource, InternedString, PackageId, SourceId};
use buildcore::req::VersionReq;
use buildcore::version::Version;

fn v(s: &str) -> Version {
    Version::parse(s).unwrap()
}

fn crates_io() -> SourceId {
    SourceId::registry("https://github.com/rust-lang/crates.io-index")
}

#[test]
fn invalid_version_handled_nicely() {
    let repo = crates_io();
    assert!(PackageId::new("foo", "1.0", repo.with_precise(None)).is_err());
    assert!(PackageId::new("foo", "1", repo.with_precise(None)).is_err());
    assert!(PackageId::new("foo", "bar", repo.with_precise(None)).is_err());
    assert!(PackageId::new("foo", "", repo).is_err());
}

#[test]
fn display() {
    let pkg_id = PackageId::new("foo", "1.0.0", crates_io()).unwrap();
    assert_eq!("foo v1.0.0", pkg_id.to_text());
    let other = PackageId::new("foo", "1.0.0", SourceId::registry("http://example.com/"))
        .unwrap();
    assert_eq!("foo v1.0.0 (registry `http://example.com/`)", other.to_text());
}

#[test]
fn version_parsing_and_order() {
    let a = v("1.2.3");
    assert_eq!((a.major, a.minor, a.patch), (1, 2, 3));
    assert!(v("1.2.3").lt(&v("1.2.4")));
    assert!(v("1.2.3").lt(&v("1.3.0")));
    assert!(v("1.9.9").lt(&v("2.0.0")));
    assert!(!v("2.0.0").lt(&v("2.0.0")));
    assert!(v("2.0.0").le(&v("2.0.0")));
    assert_eq!(v("10.20.30").to_text(), "10.20.30");
    assert!(Version::parse("1.0.0-alpha").is_err());
}

#[test]
fn compatibility_classes() {
    // Major for >=1.0.0, minor for 0.x, patch for 0.0.x.
    assert!(v("1.0.1").compatible(&v("1.9.0")));
    assert!(!v("1.0.0").compatible(&v("2.0.0")));
    assert!(v("0.1.1").compatible(&v("0.1.9")));
    assert!(!v("0.1.0").compatible(&v("0.2.0")));
    assert!(v("0.0.3").compatible(&v("0.0.3")));
    assert!(!v("0.0.3").compatible(&v("0.0.4")));
}

#[test]
fn requirement_matching() {
    let caret = VersionReq::parse("1.2.3").unwrap();
    assert!(caret.matches(&v("1.2.3")));
    assert!(caret.matches(&v("1.9.0")));
    assert!(!caret.matches(&v("2.0.0")));
    assert!(!caret.matches(&v("1.2.2")));

    let zero = VersionReq::parse("0.1").unwrap();
    assert!(zero.matches(&v("0.1.7")));
    assert!(!zero.matches(&v("0.2.0")));

    let exact = VersionReq::parse("=1.0.1").unwrap();
    assert!(exact.matches(&v("1.0.1")));
    assert!(!exact.matches(&v("1.0.2")));

    let range = VersionReq::parse(">=1.0.1, <=2.0.0").unwrap();
    assert!(range.matches(&v("1.0.1")));
    assert!(range.matches(&v("2.0.0")));
    assert!(!range.matches(&v("2.0.1")));
    assert!(!range.matches(&v("1.0.0")));

    let tilde = VersionReq::parse("~1.2.3").unwrap();
    assert!(tilde.matches(&v("1.2.9")));
    assert!(!tilde.matches(&v("1.3.0")));

    let wild = VersionReq::parse("*").unwrap();
    assert!(wild.matches(&v("0.0.1")));
    assert!(wild.matches(&v("9.9.9")));

    assert!(VersionReq::parse("not a req").is_err());
}

#[test]
fn requirement_text_round_trips() {
    let r = VersionReq::parse(">=1.0.1, <=2.0.0").unwrap();
    assert_eq!(r.to_text(), ">=1.0.1, <=2.0.0");
    let c = VersionReq::parse("1.2").unwrap();
    assert_eq!(c.to_text(), "^1.2");
    let w = VersionReq::parse("*").unwrap();
    assert_eq!(w.to_text(), "*");
}

#[test]
fn dependency_accessors() {
    let d = Dependency::parse("foo", "=1.0.1").unwrap();
    assert_eq!(d.get_name(), "foo");
    assert_eq!(d.get_version_req().to_text(), "=1.0.1");
    assert!(!d.is_optional());
    assert!(d.uses_default_features());

    let e = Dependency::exact("bar", &v("2.3.4"));
    assert!(e.get_version_req().matches(&v("2.3.4")));
    assert!(!e.get_version_req().matches(&v("2.3.5")));

    let s = SerializedDependency::from_dependency(&d);
    assert_eq!(s.name(), "foo");
    assert_eq!(s.req(), "=1.0.1");
}

#[test]
fn interned_strings_and_sources() {
    let a = InternedString::new("serde");
    let b = InternedString::new("serde");
    assert!(a.equals(&b));
    assert_eq!(a.as_str(), "serde");

    let p = SourceId::path("/work/foo");
    let g = SourceId::git("https://example.com/repo", "main");
    assert!(p.is_path());
    assert!(!g.is_path());
    assert!(!p.loose_eq(&g));
    assert!(crates_io().is_default_registry());
    assert!(!SourceId::registry("http://example.com/").is_default_registry());

    let precise = g.with_precise(Some("abc123".to_string()));
    assert!(g.loose_eq(&precise));
    assert!(!g.full_eq(&precise));
    assert_eq!(p.to_text(), "path `/work/foo`");
}

#[test]
fn git_source_reference() {
    let gs = GitSource::new(
        "https://example.com/repo".to_string(),
        "master".to_string(),
        "/db".to_string(),
        "/co".to_string(),
        false,
    );
    assert!(matches!(gs.reference, GitReference::Master));
    let other = GitSource::new(
        "https://example.com/repo".to_string(),
        "v1".to_string(),
        "/db".to_string(),
        "/co".to_string(),
        true,
    );
    match other.reference {
        GitReference::Other(s) => assert_eq!(s, "v1"),
        _ => panic!("expected a named reference"),
    }
}

#[test]
fn package_id_rebinding() {
    let id = PackageId::new("foo", "1.0.0", crates_io()).unwrap();
    let moved = id.with_source_id(SourceId::path("/elsewhere"));
    assert_eq!(moved.name().as_str(), "foo");
    assert!(moved.source_id().is_path());
    let pinned = id.with_precise(Some("deadbeef".to_string()));
    assert!(!pinned.equals(&id));
    assert!(pinned.source_id().loose_eq(id.source_id()));
}
