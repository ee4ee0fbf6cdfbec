//! The fingerprint engine: a per-unit freshness key combining the
//! statically known inputs, the personal component (content hash or a
//! deferred modification-time probe), and the dependency fingerprints.

use vstd::prelude::*;
use vstd::string::{StringExecFns, StringSliceAdditionalSpecFns};
use crate::buildout::{bytes_of, find_byte, subvec, first_at};
use crate::ident::{PackageId, spec_pkg_text};
use crate::text::{dec_seq, dec_u64};

verus! {

/// Whether a unit's prior output can be reused.
#[derive(Clone, Copy, PartialEq, Eq, Structural, Debug)]
pub enum Freshness {
    Fresh,
    Dirty,
}

/// A unit of deferred work, as the scheduler will see it.
#[derive(Clone, Debug)]
pub enum Work {
    /// Nothing to do.
    Noop,
    /// Make sure a directory exists.
    EnsureDir(String),
    /// Write a file with the given contents.
    WriteFile { path: String, contents: String },
    /// Invoke the compiler for the unit.
    RunCompiler,
    /// Replay the recorded output of a build script.
    ReplayOutput,
}

/// The result of preparing a unit: its freshness, and the work to run
/// when it is dirty or fresh respectively. Exactly one of the two is
/// chosen at execution.
#[derive(Clone, Debug)]
pub struct Preparation {
    pub freshness: Freshness,
    pub dirty: Work,
    pub fresh: Work,
}

/// One multiply-xor mixing step, on the low 64 bits.
pub open spec fn mix(h: u64, v: u64) -> u64 {
    (((h ^ v) * 0x100000001b3) % 0x10000000000000000) as u64
}

/// The running hash of a byte sequence from an initial state.
pub open spec fn hash_bytes(s: Seq<u8>, h: u64) -> u64
    decreases s.len(),
{
    if s.len() == 0 {
        h
    } else {
        hash_bytes(s.drop_first(), mix(h, s[0] as u64))
    }
}

/// The seed of every fingerprint hash.
pub open spec fn hash_seed() -> u64 {
    0xcbf29ce484222325
}

fn mix_exec(h: u64, v: u64) -> (r: u64)
    ensures
        r == mix(h, v),
{
    (h ^ v).wrapping_mul(0x100000001b3)
}

/// Hashes the bytes of a string into the running state.
fn hash_str(s: &str, h0: u64) -> (r: u64)
    ensures
        r == hash_bytes(bytes_of(s@), h0),
{
    let bytes = s.as_bytes();
    proof {
        assert(bytes@.subrange(0, bytes@.len() as int) =~= bytes@);
    }
    let mut h = h0;
    let mut i: usize = 0;
    while i < bytes.len()
        invariant
            0 <= i <= bytes@.len(),
            bytes@ == bytes_of(s@),
            hash_bytes(bytes@, h0) == hash_bytes(bytes@.subrange(i as int,
                bytes@.len() as int), h),
        decreases bytes.len() - i,
    {
        let ghost pre = bytes@.subrange(i as int, bytes@.len() as int);
        h = mix_exec(h, bytes[i] as u64);
        proof {
            assert(pre.drop_first() =~= bytes@.subrange(i + 1, bytes@.len() as int));
        }
        i += 1;
    }
    proof {
        assert(bytes@.subrange(bytes@.len() as int, bytes@.len() as int)
            =~= Seq::<u8>::empty());
    }
    h
}

/// Ascending insertion of a value into a sorted run of values.
pub open spec fn spec_insert_sorted(v: u64, s: Seq<u64>) -> Seq<u64>
    decreases s.len(),
{
    if s.len() == 0 {
        seq![v]
    } else if v <= s[0] {
        seq![v] + s
    } else {
        seq![s[0]] + spec_insert_sorted(v, s.drop_first())
    }
}

/// Insertion sort, ascending.
pub open spec fn spec_sort(s: Seq<u64>, n: int) -> Seq<u64>
    decreases n,
{
    if n <= 0 {
        Seq::empty()
    } else {
        spec_insert_sorted(s[n - 1], spec_sort(s, n - 1))
    }
}

proof fn lemma_insert_at(v: u64, s: Seq<u64>, i: int)
    requires
        0 <= i <= s.len(),
        forall|j: int| 0 <= j < i ==> s[j] < v,
        i < s.len() ==> v <= s[i],
    ensures
        spec_insert_sorted(v, s) == s.subrange(0, i) + seq![v]
            + s.subrange(i, s.len() as int),
    decreases i,
{
    if s.len() == 0 {
        assert(spec_insert_sorted(v, s) =~= s.subrange(0, i) + seq![v]
            + s.subrange(i, s.len() as int));
    } else if i == 0 {
        assert(spec_insert_sorted(v, s) =~= s.subrange(0, 0) + seq![v]
            + s.subrange(0, s.len() as int));
    } else {
        let t = s.drop_first();
        assert(t =~= s.subrange(1, s.len() as int));
        lemma_insert_at(v, t, i - 1);
        assert(seq![s[0]] + (t.subrange(0, i - 1) + seq![v]
            + t.subrange(i - 1, t.len() as int))
            =~= s.subrange(0, i) + seq![v] + s.subrange(i, s.len() as int));
    }
}

/// Sorts hash values ascending, exactly as `spec_sort` does.
fn sort_values(s: &Vec<u64>) -> (r: Vec<u64>)
    ensures
        r@ == spec_sort(s@, s@.len() as int),
{
    let mut r: Vec<u64> = Vec::new();
    let mut n: usize = 0;
    while n < s.len()
        invariant
            0 <= n <= s@.len(),
            r@ == spec_sort(s@, n as int),
        decreases s.len() - n,
    {
        let v = s[n];
        let mut i: usize = 0;
        while i < r.len() && r[i] < v
            invariant
                0 <= i <= r@.len(),
                forall|j: int| 0 <= j < i ==> r@[j] < v,
            decreases r.len() - i,
        {
            i += 1;
        }
        let ghost old_r = r@;
        r.insert(i, v);
        proof {
            lemma_insert_at(v, old_r, i as int);
            assert(r@ =~= old_r.subrange(0, i as int) + seq![v]
                + old_r.subrange(i as int, old_r.len() as int));
        }
        n += 1;
    }
    r
}

/// The personal component of a fingerprint: either a known string (a
/// content hash of an immutable source) or a deferred probe of the
/// dep-info file at a path.
#[derive(Clone, Debug)]
pub enum Personal {
    Known(String),
    Unknown(String),
}

/// The mathematical shape of a fingerprint.
pub enum PersonalV {
    Known(Seq<char>),
    Unknown(Seq<char>),
}

pub struct FingerprintV {
    pub extra: Seq<char>,
    pub deps: Seq<FingerprintV>,
    pub personal: PersonalV,
}

/// A per-unit freshness key: the hash of the statically known inputs,
/// the fingerprints of the dependencies, and the personal component.
/// Resolving it yields a string that is stable across runs on the
/// same inputs.
#[derive(Debug)]
pub struct Fingerprint {
    pub extra: String,
    pub deps: Vec<Fingerprint>,
    pub personal: Personal,
}

/// The view of a fingerprint.
pub open spec fn fp_view(f: Fingerprint) -> FingerprintV
    decreases f, 1int,
{
    FingerprintV {
        extra: f.extra@,
        deps: fp_views(f, 0),
        personal: match f.personal {
            Personal::Known(s) => PersonalV::Known(s@),
            Personal::Unknown(p) => PersonalV::Unknown(p@),
        },
    }
}

/// The views of a fingerprint's dependencies from index `i` on.
pub open spec fn fp_views(f: Fingerprint, i: int) -> Seq<FingerprintV>
    decreases f, 0int, f.deps@.len() - i,
{
    if i < 0 || i >= f.deps@.len() {
        Seq::empty()
    } else {
        seq![fp_view(f.deps@[i])] + fp_views(f, i + 1)
    }
}

/// The dependency views are the element views, in order.
pub proof fn lemma_fp_views(f: Fingerprint, i: int)
    requires
        0 <= i <= f.deps@.len(),
    ensures
        fp_views(f, i).len() == f.deps@.len() - i,
        forall|j: int| i <= j < f.deps@.len()
            ==> fp_views(f, i)[j - i] == fp_view(#[trigger] f.deps@[j]),
    decreases f.deps@.len() - i,
{
    if i < f.deps@.len() {
        lemma_fp_views(f, i + 1);
    }
}

/// The recorded modification time of a path, if the probe map lists it.
pub open spec fn spec_mtime_of(m: Seq<(Seq<char>, u64)>, p: Seq<char>) -> Option<u64>
    decreases m.len(),
{
    if m.len() == 0 {
        None
    } else if m[0].0 == p {
        Some(m[0].1)
    } else {
        spec_mtime_of(m.drop_first(), p)
    }
}

/// The numeric value a fingerprint resolves to under a probe map:
/// `None` exactly when a deferred probe finds no modification time.
pub open spec fn spec_resolve_val(f: FingerprintV, m: Seq<(Seq<char>, u64)>)
    -> Option<u64>
    decreases f, 1int,
{
    let personal_text = match f.personal {
        PersonalV::Known(s) => Some(s),
        PersonalV::Unknown(p) => match spec_mtime_of(m, p) {
            Some(t) => Some(dec_seq(t)),
            None => None,
        },
    };
    match personal_text {
        None => None,
        Some(pt) => {
            let base = hash_bytes(bytes_of(f.extra),
                hash_bytes(bytes_of(pt), hash_seed()));
            match spec_resolve_deps(f, 0, m) {
                None => None,
                Some(ds) => {
                    Some(spec_fold_mix(spec_sort(ds, ds.len() as int), 0, base))
                }
            }
        }
    }
}

/// The values of a fingerprint's dependencies from index `i` on.
pub open spec fn spec_resolve_deps(f: FingerprintV, i: int, m: Seq<(Seq<char>, u64)>)
    -> Option<Seq<u64>>
    decreases f, 0int, f.deps.len() - i,
{
    if i < 0 || i >= f.deps.len() {
        Some(Seq::empty())
    } else {
        match spec_resolve_val(f.deps[i], m) {
            None => None,
            Some(v) => match spec_resolve_deps(f, i + 1, m) {
                None => None,
                Some(rest) => Some(seq![v] + rest),
            },
        }
    }
}

/// Folds sorted dependency values into the hash state.
pub open spec fn spec_fold_mix(ds: Seq<u64>, i: int, h: u64) -> u64
    decreases ds.len() - i,
{
    if i < 0 || i >= ds.len() {
        h
    } else {
        spec_fold_mix(ds, i + 1, mix(h, ds[i]))
    }
}

/// The string form of a resolved fingerprint.
pub open spec fn spec_resolve(f: FingerprintV, m: Seq<(Seq<char>, u64)>)
    -> Option<Seq<char>> {
    match spec_resolve_val(f, m) {
        None => None,
        Some(v) => Some(dec_seq(v)),
    }
}

/// A probe map: paths with their recorded modification times, as the
/// surrounding program observed them.
pub struct MtimeMap {
    pub entries: Vec<(String, u64)>,
}

impl View for MtimeMap {
    type V = Seq<(Seq<char>, u64)>;

    open spec fn view(&self) -> Seq<(Seq<char>, u64)> {
        self.entries@.map_values(|e: (String, u64)| (e.0@, e.1))
    }
}

impl MtimeMap {
    /// An empty probe map.
    pub fn new() -> (r: MtimeMap)
        ensures
            r@ == Seq::<(Seq<char>, u64)>::empty(),
    {
        let r = MtimeMap { entries: Vec::new() };
        proof {
            assert(r@ =~= Seq::<(Seq<char>, u64)>::empty());
        }
        r
    }

    /// Records one path's modification time, appended last.
    pub fn push(&mut self, path: String, mtime: u64)
        ensures
            final(self)@ == old(self)@.push((path@, mtime)),
    {
        let ghost pv = path@;
        self.entries.push((path, mtime));
        proof {
            assert(self@ =~= old(self)@.push((pv, mtime)));
        }
    }

    /// Looks a path up, first match wins.
    pub fn mtime_of(&self, p: &str) -> (r: Option<u64>)
        ensures
            r == spec_mtime_of(self@, p@),
    {
        let mut i: usize = 0;
        proof {
            assert(self@.subrange(0, self@.len() as int) =~= self@);
        }
        while i < self.entries.len()
            invariant
                0 <= i <= self.entries@.len(),
                spec_mtime_of(self@, p@) == spec_mtime_of(self@.subrange(i as int,
                    self@.len() as int), p@),
            decreases self.entries.len() - i,
        {
            let ghost pre = self@.subrange(i as int, self@.len() as int);
            if crate::text::str_eq(self.entries[i].0.as_str(), p) {
                return Some(self.entries[i].1);
            }
            proof {
                assert(pre.drop_first() =~= self@.subrange(i + 1, self@.len() as int));
            }
            i += 1;
        }
        proof {
            assert(self@.subrange(self@.len() as int, self@.len() as int)
                =~= Seq::<(Seq<char>, u64)>::empty());
        }
        None
    }
}

impl Fingerprint {
    /// Builds a fingerprint from its parts.
    pub fn new(extra: String, deps: Vec<Fingerprint>, personal: Personal)
        -> (r: Fingerprint)
        ensures
            fp_view(r).extra == extra@,
            fp_view(r).deps.len() == deps@.len(),
            forall|j: int| 0 <= j < deps@.len()
                ==> fp_view(r).deps[j] == fp_view(#[trigger] deps@[j]),
            fp_view(r).personal == match personal {
                Personal::Known(s) => PersonalV::Known(s@),
                Personal::Unknown(p) => PersonalV::Unknown(p@),
            },
    {
        let r = Fingerprint { extra, deps, personal };
        proof {
            lemma_fp_views(r, 0);
        }
        r
    }

    /// Resolves the fingerprint to its string form under a probe map:
    /// the hash of the personal text and the extra input, mixed with
    /// the sorted resolved dependency values. Fails exactly when some
    /// deferred probe finds no modification time. The result is a
    /// function of the fingerprint and the map alone, so recomputing
    /// it on unchanged inputs yields the same string.
    pub fn resolve(&self, m: &MtimeMap) -> (r: Option<String>)
        ensures
            r is Some <==> spec_resolve(fp_view(*self), m@) is Some,
            r matches Some(s) ==> spec_resolve(fp_view(*self), m@) == Some(s@),
        decreases *self, 1int,
    {
        let personal_text: Option<String> = match &self.personal {
            Personal::Known(s) => Some(s.clone()),
            Personal::Unknown(p) => match m.mtime_of(p.as_str()) {
                Some(t) => Some(dec_u64(t)),
                None => None,
            },
        };
        match personal_text {
            None => None,
            Some(pt) => {
                let base = hash_str(self.extra.as_str(), hash_str(pt.as_str(),
                    0xcbf29ce484222325u64));
                match self.resolve_deps(0, m) {
                    None => None,
                    Some(ds) => {
                        let sorted = sort_values(&ds);
                        let mut h = base;
                        let mut i: usize = 0;
                        while i < sorted.len()
                            invariant
                                0 <= i <= sorted@.len(),
                                spec_fold_mix(sorted@, 0, base)
                                    == spec_fold_mix(sorted@, i as int, h),
                            decreases sorted.len() - i,
                        {
                            h = mix_exec(h, sorted[i]);
                            i += 1;
                        }
                        Some(dec_u64(h))
                    }
                }
            }
        }
    }

    /// Resolves the dependency fingerprints from index `i` on.
    fn resolve_deps(&self, i: usize, m: &MtimeMap) -> (r: Option<Vec<u64>>)
        requires
            i <= self.deps@.len(),
        ensures
            r is Some <==> spec_resolve_deps(fp_view(*self), i as int, m@) is Some,
            r matches Some(v) ==> spec_resolve_deps(fp_view(*self), i as int, m@)
                == Some(v@),
        decreases *self, 0int, self.deps@.len() - i,
    {
        proof {
            lemma_fp_views(*self, 0);
        }
        if i >= self.deps.len() {
            proof {
                assert(spec_resolve_deps(fp_view(*self), i as int, m@)
                    == Some(Seq::<u64>::empty()));
            }
            return Some(Vec::new());
        }
        let dep = &self.deps[i];
        proof {
            assert(fp_view(*self).deps[i as int] == fp_view(*dep));
        }
        let v = match dep.resolve_val(m) {
            None => {
                return None;
            }
            Some(v) => v,
        };
        match self.resolve_deps(i + 1, m) {
            None => None,
            Some(rest) => {
                let mut out: Vec<u64> = Vec::new();
                out.push(v);
                let mut k: usize = 0;
                while k < rest.len()
                    invariant
                        0 <= k <= rest@.len(),
                        out@ =~= seq![v] + rest@.subrange(0, k as int),
                    decreases rest.len() - k,
                {
                    out.push(rest[k]);
                    proof {
                        assert(out@ =~= seq![v] + rest@.subrange(0, k + 1));
                    }
                    k += 1;
                }
                proof {
                    assert(out@ =~= seq![v] + rest@);
                }
                Some(out)
            }
        }
    }

    /// Resolves to the numeric hash value.
    fn resolve_val(&self, m: &MtimeMap) -> (r: Option<u64>)
        ensures
            r == spec_resolve_val(fp_view(*self), m@),
        decreases *self, 1int,
    {
        let personal_text: Option<String> = match &self.personal {
            Personal::Known(s) => Some(s.clone()),
            Personal::Unknown(p) => match m.mtime_of(p.as_str()) {
                Some(t) => Some(dec_u64(t)),
                None => None,
            },
        };
        match personal_text {
            None => None,
            Some(pt) => {
                let base = hash_str(self.extra.as_str(), hash_str(pt.as_str(),
                    0xcbf29ce484222325u64));
                match self.resolve_deps(0, m) {
                    None => None,
                    Some(ds) => {
                        let sorted = sort_values(&ds);
                        let mut h = base;
                        let mut i: usize = 0;
                        while i < sorted.len()
                            invariant
                                0 <= i <= sorted@.len(),
                                spec_fold_mix(sorted@, 0, base)
                                    == spec_fold_mix(sorted@, i as int, h),
                            decreases sorted.len() - i,
                        {
                            h = mix_exec(h, sorted[i]);
                            i += 1;
                        }
                        Some(h)
                    }
                }
            }
        }
    }
}

/// Whether freshness should be decided by the dep-info probe: only for
/// non-documentation targets of path sources; immutable sources keep a
/// known content hash instead.
pub fn use_dep_info(is_doc: bool, is_path_source: bool) -> (r: bool)
    ensures
        r == (!is_doc && is_path_source),
{
    !is_doc && is_path_source
}

/// A unit is fresh exactly when a fingerprint was stored, it resolves,
/// the stored string equals the resolved one, and every expected
/// output artifact is present.
pub fn is_fresh(stored: Option<&String>, resolved: Option<&String>,
    outputs_present: bool) -> (r: bool)
    ensures
        r == (stored matches Some(s) && resolved matches Some(n) && s@ == n@
            && outputs_present),
{
    match (stored, resolved) {
        (Some(s), Some(n)) => crate::text::str_eq(s.as_str(), n.as_str())
            && outputs_present,
        _ => false,
    }
}

/// Packages the work for a prepared unit: dirty work writes the new
/// fingerprint, fresh work is nothing; a fresh unit never runs the
/// compiler.
pub fn prepare(fresh: bool, loc: String, resolved: String) -> (r: Preparation)
    ensures
        r.freshness == if fresh { Freshness::Fresh } else { Freshness::Dirty },
        r.dirty matches Work::WriteFile { path, contents } && path@ == loc@
            && contents@ == resolved@,
        r.fresh is Noop,
{
    Preparation {
        freshness: if fresh { Freshness::Fresh } else { Freshness::Dirty },
        dirty: Work::WriteFile { path: loc, contents: resolved },
        fresh: Work::Noop,
    }
}

/// Law: a fingerprint of unchanged inputs resolves to the same string
/// after a rebuild; freshness keys are stable across runs.
pub proof fn lemma_fingerprint_stability(before: FingerprintV, after: FingerprintV,
    m_before: Seq<(Seq<char>, u64)>, m_after: Seq<(Seq<char>, u64)>)
    requires
        before == after,
        m_before == m_after,
    ensures
        spec_resolve(before, m_before) == spec_resolve(after, m_after),
{
}

/// Prepares one target's unit: resolves its fingerprint under the
/// probe map, compares it with the stored one, and packages the work.
/// The unit is fresh exactly when a fingerprint was stored, it equals
/// the resolved one, and every expected output is present; fails only
/// when a deferred probe finds no modification time.
pub fn prepare_target(stored: Option<&String>, fp: &Fingerprint, m: &MtimeMap,
    loc: String, outputs_present: bool) -> (r: Result<Preparation, ()>)
    ensures
        r is Ok <==> spec_resolve(fp_view(*fp), m@) is Some,
        r matches Ok(p) ==> {
            let resolved = spec_resolve(fp_view(*fp), m@)->Some_0;
            &&& p.freshness == if (stored matches Some(s) && s@ == resolved)
                    && outputs_present { Freshness::Fresh } else { Freshness::Dirty }
            &&& p.dirty matches Work::WriteFile { path, contents }
                && path@ == loc@ && contents@ == resolved
            &&& p.fresh is Noop
        },
{
    match fp.resolve(m) {
        None => Err(()),
        Some(resolved) => {
            let fresh = is_fresh(stored, Some(&resolved), outputs_present);
            Ok(prepare(fresh, loc, resolved))
        }
    }
}

/// Prepares a build command's unit: its fingerprint is the package's
/// own content hash, with no dependencies and no deferred probe, so
/// preparation always succeeds.
pub fn prepare_build_cmd(content_hash: String, stored: Option<&String>, loc: String)
    -> (r: Preparation)
    ensures
        ({
            let fpv = FingerprintV {
                extra: Seq::empty(),
                deps: Seq::empty(),
                personal: PersonalV::Known(content_hash@),
            };
            let resolved = spec_resolve(fpv, Seq::empty())->Some_0;
            &&& spec_resolve(fpv, Seq::empty()) is Some
            &&& r.freshness == if stored matches Some(s) && s@ == resolved {
                    Freshness::Fresh
                } else { Freshness::Dirty }
            &&& r.dirty matches Work::WriteFile { path, contents }
                && path@ == loc@ && contents@ == resolved
            &&& r.fresh is Noop
        }),
{
    let fp = Fingerprint::new(String::new(), Vec::new(), Personal::Known(content_hash));
    let m = MtimeMap::new();
    proof {
        assert(fp_view(fp).extra =~= Seq::<char>::empty());
        assert(fp_view(fp).deps =~= Seq::<FingerprintV>::empty());
    }
    let resolved = match fp.resolve(&m) {
        Some(s) => s,
        None => {
            // A known personal component always resolves.
            proof {
                assert(spec_resolve_val(fp_view(fp), m@) is Some);
            }
            String::new()
        }
    };
    let fresh = is_fresh(stored, Some(&resolved), true);
    prepare(fresh, loc, resolved)
}

/// Prepares the start of a package's build: both the dirty and the
/// fresh path make sure the fingerprint directory exists.
pub fn prepare_init(fingerprint_dir: &str) -> (r: (Work, Work))
    ensures
        r.0 matches Work::EnsureDir(d) && d@ == fingerprint_dir@,
        r.1 matches Work::EnsureDir(d) && d@ == fingerprint_dir@,
{
    (
        Work::EnsureDir(fingerprint_dir.to_owned()),
        Work::EnsureDir(fingerprint_dir.to_owned()),
    )
}

/// The fingerprint directory of a package:
/// `<target-dir>/<profile>/.fingerprint/<name>-<hash>`.
pub fn dir(target_dir: &str, profile: &str, pkg: &PackageId) -> (r: String)
    ensures
        r@ == target_dir@ + "/"@ + profile@ + "/.fingerprint/"@ + pkg@.name + "-"@
            + dec_seq(hash_bytes(bytes_of(spec_pkg_text(pkg@)), hash_seed())),
{
    proof {
        reveal_strlit("/");
        reveal_strlit("/.fingerprint/");
        reveal_strlit("-");
    }
    let mut r = target_dir.to_owned();
    r.append("/");
    r.append(profile);
    r.append("/.fingerprint/");
    let name = pkg.name();
    r.append(name.as_str());
    r.append("-");
    let text = pkg.to_text();
    let h = hash_str(text.as_str(), 0xcbf29ce484222325u64);
    let hs = dec_u64(h);
    r.append(hs.as_str());
    proof {
        assert(r@ =~= target_dir@ + "/"@ + profile@ + "/.fingerprint/"@ + pkg@.name
            + "-"@ + dec_seq(hash_bytes(bytes_of(spec_pkg_text(pkg@)), hash_seed())));
    }
    r
}

/// The flavoured file name a target's fingerprint is kept under.
pub open spec fn spec_filename(name: Seq<char>, is_lib: bool, is_test: bool,
    is_doc: bool) -> Seq<char> {
    let flavor = if is_test { "test-"@ } else if is_doc { "doc-"@ } else { ""@ };
    let kind = if is_lib { "lib"@ } else { "bin"@ };
    flavor + kind + "-"@ + name
}

/// Names a target's fingerprint file: flavour, kind, and target name.
pub fn filename(name: &str, is_lib: bool, is_test: bool, is_doc: bool) -> (r: String)
    ensures
        r@ == spec_filename(name@, is_lib, is_test, is_doc),
{
    proof {
        reveal_strlit("test-");
        reveal_strlit("doc-");
        reveal_strlit("");
        reveal_strlit("lib");
        reveal_strlit("bin");
        reveal_strlit("-");
    }
    let flavor: &str = if is_test { "test-" } else if is_doc { "doc-" } else { "" };
    let mut r = flavor.to_owned();
    if is_lib {
        r.append("lib");
    } else {
        r.append("bin");
    }
    r.append("-");
    r.append(name);
    proof {
        assert(r@ =~= spec_filename(name@, is_lib, is_test, is_doc));
    }
    r
}

/// The dep-info file of a target: `dep-` plus its fingerprint name,
/// in the package's fingerprint directory.
pub fn dep_info_loc(target_dir: &str, profile: &str, pkg: &PackageId, name: &str,
    is_lib: bool, is_test: bool, is_doc: bool) -> (r: String)
    ensures
        r@ == target_dir@ + "/"@ + profile@ + "/.fingerprint/"@ + pkg@.name + "-"@
            + dec_seq(hash_bytes(bytes_of(spec_pkg_text(pkg@)), hash_seed()))
            + "/dep-"@ + spec_filename(name@, is_lib, is_test, is_doc),
{
    proof {
        reveal_strlit("/dep-");
    }
    let mut r = dir(target_dir, profile, pkg);
    r.append("/dep-");
    let f = filename(name, is_lib, is_test, is_doc);
    r.append(f.as_str());
    proof {
        assert(r@ =~= target_dir@ + "/"@ + profile@ + "/.fingerprint/"@ + pkg@.name
            + "-"@ + dec_seq(hash_bytes(bytes_of(spec_pkg_text(pkg@)), hash_seed()))
            + "/dep-"@ + spec_filename(name@, is_lib, is_test, is_doc));
    }
    r
}

/// The recorded modification time of a path given by bytes.
pub open spec fn spec_mtime_of_b(m: Seq<(Seq<char>, u64)>, p: Seq<u8>) -> Option<u64>
    decreases m.len(),
{
    if m.len() == 0 {
        None
    } else if bytes_of(m[0].0) == p {
        Some(m[0].1)
    } else {
        spec_mtime_of_b(m.drop_first(), p)
    }
}

/// The index of the first `": "` at or after `pos`, or the length.
pub open spec fn first_colon_space(s: Seq<u8>, pos: int) -> int
    decreases s.len() - pos,
{
    if pos < 0 || pos + 1 >= s.len() {
        s.len() as int
    } else if s[pos] == 58 && s[pos + 1] == 32 {
        pos
    } else {
        first_colon_space(s, pos + 1)
    }
}

proof fn lemma_first_colon_space_found(s: Seq<u8>, pos: int, k: int)
    requires
        0 <= pos <= k,
        k + 1 <= s.len() ==> k + 1 == s.len() || (s[k] == 58 && s[k + 1] == 32),
        forall|j: int| pos <= j && j + 1 < s.len() && j < k ==> !((#[trigger] s[j]) == 58
            && s[j + 1] == 32),
        k <= s.len(),
    ensures
        first_colon_space(s, pos) == if k + 1 < s.len() { k } else { s.len() as int },
    decreases k - pos,
{
    if pos < k && pos + 1 < s.len() {
        lemma_first_colon_space_found(s, pos + 1, k);
    }
}

/// One dependency path read from `pos`: the token, with backslash
/// continuations joined by a space, and the position after it.
pub open spec fn spec_read_path(s: Seq<u8>, pos: int) -> (Seq<u8>, int)
    decreases s.len() - pos,
    via spec_read_path_dec
{
    let e = first_at(s, 32, pos);
    let tok = s.subrange(if pos < 0 { 0 } else { pos }, e);
    if tok.len() > 0 && tok[tok.len() - 1] == 92 && e < s.len() {
        let (rest, q) = spec_read_path(s, e + 1);
        (tok.subrange(0, tok.len() - 1) + seq![32u8] + rest, q)
    } else {
        (tok, e)
    }
}

proof fn lemma_first_at_ge(s: Seq<u8>, b: u8, pos: int)
    requires
        0 <= pos <= s.len(),
    ensures
        pos <= first_at(s, b, pos) <= s.len(),
    decreases s.len() - pos,
{
    if pos < s.len() && s[pos] != b {
        lemma_first_at_ge(s, b, pos + 1);
    }
}

#[via_fn]
proof fn spec_read_path_dec(s: Seq<u8>, pos: int) {
    if 0 <= pos <= s.len() {
        lemma_first_at_ge(s, 32, pos);
    }
}

/// Whether every dependency read from `pos` on is known to the probe
/// map and not newer than `t`; `Some(t)` when so, `None` otherwise.
pub open spec fn spec_check_deps(s: Seq<u8>, pos: int, cwd: Seq<u8>,
    m: Seq<(Seq<char>, u64)>, t: u64) -> Option<u64>
    decreases s.len() - pos,
    via spec_check_deps_dec
{
    if pos < 0 || pos >= s.len() {
        Some(t)
    } else if s[pos] == 32 || s[pos] == 13 {
        spec_check_deps(s, pos + 1, cwd, m, t)
    } else {
        let (path, q) = spec_read_path(s, pos);
        let trimmed = crate::buildout::trim_end(path);
        let full = if trimmed.len() > 0 && trimmed[0] == 47 {
            trimmed
        } else {
            cwd + seq![47u8] + trimmed
        };
        match spec_mtime_of_b(m, full) {
            None => None,
            Some(mt) => if mt <= t {
                spec_check_deps(s, q, cwd, m, t)
            } else {
                None
            },
        }
    }
}

proof fn lemma_read_path_advances(s: Seq<u8>, pos: int)
    requires
        0 <= pos < s.len(),
        s[pos] != 32,
    ensures
        pos < spec_read_path(s, pos).1 <= s.len(),
    decreases s.len() - pos,
{
    lemma_first_at_ge(s, 32, pos);
    let e = first_at(s, 32, pos);
    assert(e > pos) by {
        lemma_first_at_found_ne(s, 32, pos);
    }
    let tok = s.subrange(pos, e);
    if tok.len() > 0 && tok[tok.len() - 1] == 92 && e < s.len() {
        if e + 1 < s.len() && s[e + 1] != 32 {
            lemma_read_path_advances(s, e + 1);
        } else {
            lemma_read_path_ge(s, e + 1);
        }
    }
}

proof fn lemma_read_path_ge(s: Seq<u8>, pos: int)
    requires
        0 <= pos <= s.len(),
    ensures
        pos <= spec_read_path(s, pos).1 <= s.len(),
    decreases s.len() - pos,
{
    lemma_first_at_ge(s, 32, pos);
    let e = first_at(s, 32, pos);
    let tok = s.subrange(pos, e);
    if tok.len() > 0 && tok[tok.len() - 1] == 92 && e < s.len() {
        lemma_read_path_ge(s, e + 1);
    }
}

proof fn lemma_first_at_found_ne(s: Seq<u8>, b: u8, pos: int)
    requires
        0 <= pos < s.len(),
        s[pos] != b,
    ensures
        first_at(s, b, pos) >= pos + 1,
{
    lemma_first_at_ge(s, b, pos + 1);
}

#[via_fn]
proof fn spec_check_deps_dec(s: Seq<u8>, pos: int, cwd: Seq<u8>,
    m: Seq<(Seq<char>, u64)>, t: u64) {
    if 0 <= pos < s.len() && s[pos] != 32 && s[pos] != 13 {
        lemma_read_path_advances(s, pos);
    }
}

/// What probing a dep-info file decides: `Ok(None)` (rebuild) when
/// the file has no recorded working directory, and also when some
/// input is missing from the probe map or newer than the dep-info
/// file itself; `Err` when the rule line has no `": "` separator;
/// else `Ok(Some(t))` with the file's own time.
pub open spec fn spec_target_mtime(s: Seq<u8>, m: Seq<(Seq<char>, u64)>, t: u64)
    -> Result<Option<u64>, ()> {
    let z = first_at(s, 0, 0);
    if z == s.len() {
        Ok(None)
    } else {
        let cwd = s.subrange(0, z);
        let rest = s.subrange(z + 1, s.len() as int);
        let nl = first_at(rest, 10, 0);
        let line = rest.subrange(0, nl);
        let cs = first_colon_space(line, 0);
        if cs == line.len() {
            Err(())
        } else {
            Ok(spec_check_deps(line, cs + 2, cwd, m, t))
        }
    }
}

/// Reads a dep-info file (its recorded working directory, then one
/// rule line) and decides whether every listed input is unchanged:
/// exactly what `spec_target_mtime` states.
pub fn calculate_target_mtime(dep_info: &[u8], m: &MtimeMap, dep_info_mtime: u64)
    -> (r: Result<Option<u64>, ()>)
    ensures
        r == spec_target_mtime(dep_info@, m@, dep_info_mtime),
{
    let z = crate::buildout::find_byte_slice(dep_info, 0, 0);
    if z == dep_info.len() {
        return Ok(None);
    }
    let cwd = crate::buildout::subvec_slice(dep_info, 0, z);
    let rest = crate::buildout::subvec_slice(dep_info, z + 1, dep_info.len());
    let nl = find_byte(&rest, 10, 0);
    let line = subvec(&rest, 0, nl);
    // Find the ": " separating the rule head from its inputs.
    let mut cs: usize = 0;
    let mut found = false;
    loop
        invariant_except_break
            !found,
            cs <= line@.len(),
            forall|j: int| 0 <= j && j + 1 < line@.len() && j < cs
                ==> !((#[trigger] line@[j]) == 58 && line@[j + 1] == 32),
        ensures
            found ==> cs + 1 < line@.len() && line@[cs as int] == 58
                && line@[cs as int + 1] == 32
                && forall|j: int| 0 <= j && j + 1 < line@.len() && j < cs
                    ==> !((#[trigger] line@[j]) == 58 && line@[j + 1] == 32),
            !found ==> cs == line@.len()
                && forall|j: int| 0 <= j && j + 1 < line@.len()
                    ==> !((#[trigger] line@[j]) == 58 && line@[j + 1] == 32),
        decreases line@.len() - cs,
    {
        if cs < line.len() && cs + 1 < line.len() {
            if line[cs] == 58 && line[cs + 1] == 32 {
                found = true;
                break;
            }
            cs += 1;
        } else {
            cs = line.len();
            break;
        }
    }
    if !found {
        proof {
            lemma_first_colon_space_found(line@, 0, line@.len() as int);
            assert(first_colon_space(line@, 0) == line@.len());
        }
        return Err(());
    }
    proof {
        lemma_first_colon_space_found(line@, 0, cs as int);
    }
    let mut pos: usize = cs + 2;
    let ghost spec_target = spec_target_mtime(dep_info@, m@, dep_info_mtime);
    proof {
        assert(spec_target == Ok::<Option<u64>, ()>(spec_check_deps(line@,
            cs + 2, cwd@, m@, dep_info_mtime)));
    }
    loop
        invariant
            pos <= line@.len(),
            spec_target == spec_target_mtime(dep_info@, m@, dep_info_mtime),
            spec_target == Ok::<Option<u64>, ()>(spec_check_deps(line@,
                pos as int, cwd@, m@, dep_info_mtime)),
        decreases line@.len() - pos,
    {
        if pos >= line.len() {
            return Ok(Some(dep_info_mtime));
        }
        if line[pos] == 32 || line[pos] == 13 {
            pos += 1;
            continue;
        }
        let (path, q) = read_path(&line, pos);
        proof {
            lemma_read_path_advances(line@, pos as int);
        }
        let trimmed = crate::buildout::trim_end_exec(&path);
        let full = if trimmed.len() > 0 && trimmed[0] == 47 {
            trimmed
        } else {
            let mut f = crate::buildout::subvec(&cwd, 0, cwd.len());
            proof {
                assert(f@ =~= cwd@);
            }
            f.push(47u8);
            let mut k: usize = 0;
            while k < trimmed.len()
                invariant
                    0 <= k <= trimmed@.len(),
                    f@ =~= cwd@ + seq![47u8] + trimmed@.subrange(0, k as int),
                decreases trimmed.len() - k,
            {
                f.push(trimmed[k]);
                proof {
                    assert(f@ =~= cwd@ + seq![47u8] + trimmed@.subrange(0, k + 1));
                }
                k += 1;
            }
            proof {
                assert(f@ =~= cwd@ + seq![47u8] + trimmed@);
            }
            f
        };
        match mtime_of_bytes(m, &full) {
            None => {
                return Ok(None);
            }
            Some(mt) => {
                if mt <= dep_info_mtime {
                    pos = q;
                } else {
                    return Ok(None);
                }
            }
        }
    }
}

/// Reads one dependency path token, joining backslash continuations.
fn read_path(s: &Vec<u8>, pos: usize) -> (r: (Vec<u8>, usize))
    requires
        pos <= s@.len(),
    ensures
        r.0@ == spec_read_path(s@, pos as int).0,
        r.1 == spec_read_path(s@, pos as int).1,
        r.1 <= s@.len(),
    decreases s@.len() - pos,
{
    let e = find_byte(s, 32, pos);
    let tok = subvec(s, pos, e);
    if tok.len() > 0 && tok[tok.len() - 1] == 92 && e < s.len() {
        let (rest, q) = read_path(s, e + 1);
        let mut joined = subvec(&tok, 0, tok.len() - 1);
        joined.push(32u8);
        let mut k: usize = 0;
        while k < rest.len()
            invariant
                0 <= k <= rest@.len(),
                joined@ =~= tok@.subrange(0, tok@.len() - 1) + seq![32u8]
                    + rest@.subrange(0, k as int),
            decreases rest.len() - k,
        {
            joined.push(rest[k]);
            proof {
                assert(joined@ =~= tok@.subrange(0, tok@.len() - 1) + seq![32u8]
                    + rest@.subrange(0, k + 1));
            }
            k += 1;
        }
        proof {
            assert(joined@ =~= tok@.subrange(0, tok@.len() - 1) + seq![32u8] + rest@);
        }
        (joined, q)
    } else {
        (tok, e)
    }
}

/// Looks a byte-path up in the probe map.
fn mtime_of_bytes(m: &MtimeMap, p: &Vec<u8>) -> (r: Option<u64>)
    ensures
        r == spec_mtime_of_b(m@, p@),
{
    let mut i: usize = 0;
    proof {
        assert(m@.subrange(0, m@.len() as int) =~= m@);
    }
    while i < m.entries.len()
        invariant
            0 <= i <= m.entries@.len(),
            spec_mtime_of_b(m@, p@) == spec_mtime_of_b(m@.subrange(i as int,
                m@.len() as int), p@),
        decreases m.entries.len() - i,
    {
        let ghost pre = m@.subrange(i as int, m@.len() as int);
        if crate::buildout::bytes_eq(m.entries[i].0.as_str().as_bytes(),
            p.as_slice()) {
            return Some(m.entries[i].1);
        }
        proof {
            assert(pre.drop_first() =~= m@.subrange(i + 1, m@.len() as int));
        }
        i += 1;
    }
    proof {
        assert(m@.subrange(m@.len() as int, m@.len() as int)
            =~= Seq::<(Seq<char>, u64)>::empty());
    }
    None
}

/// The contents a dep-info file gets when the compiler's working
/// directory is recorded in front: the directory's bytes, a zero
/// byte, then the original contents.
pub fn append_current_dir(contents: &Vec<u8>, cwd: &str) -> (r: Vec<u8>)
    ensures
        r@ == bytes_of(cwd@) + seq![0u8] + contents@,
{
    let mut r = crate::buildout::slice_to_vec(cwd.as_bytes());
    r.push(0u8);
    let mut k: usize = 0;
    while k < contents.len()
        invariant
            0 <= k <= contents@.len(),
            r@ =~= bytes_of(cwd@) + seq![0u8] + contents@.subrange(0, k as int),
        decreases contents.len() - k,
    {
        r.push(contents[k]);
        proof {
            assert(r@ =~= bytes_of(cwd@) + seq![0u8]
                + contents@.subrange(0, k + 1));
        }
        k += 1;
    }
    proof {
        assert(r@ =~= bytes_of(cwd@) + seq![0u8] + contents@);
    }
    r
}

} // verus!
