//! The build-script wire protocol: parsing the stdout of a custom
//! build script into its structured effects, line by line, against the
//! grammar `cargo:<key>=<value>` with unrecognised lines passed over.

use vstd::prelude::*;
use vstd::string::{StringExecFns, StringSliceAdditionalSpecFns};
use vstd::utf8::{encode_utf8, valid_utf8};

verus! {

/// The byte encoding of a string.
pub open spec fn bytes_of(s: Seq<char>) -> Seq<u8> {
    encode_utf8(s)
}

/// The byte encoding of a literal.
pub open spec fn sb(s: &str) -> Seq<u8> {
    s.spec_bytes()
}

/// Relies on `String::from_utf8`: succeeds exactly on valid UTF-8 and
/// returns the string with those very bytes.
#[verifier::external_body]
pub(crate) fn bytes_to_string(v: Vec<u8>) -> (r: Option<String>)
    ensures
        r is Some <==> valid_utf8(v@),
        r matches Some(s) ==> bytes_of(s@) == v@,
{
    String::from_utf8(v).ok()
}

/// Equality of byte slices.
pub(crate) fn bytes_eq(a: &[u8], b: &[u8]) -> (r: bool)
    ensures
        r == (a@ == b@),
{
    if a.len() != b.len() {
        return false;
    }
    let mut i: usize = 0;
    while i < a.len()
        invariant
            a@.len() == b@.len(),
            0 <= i <= a@.len(),
            forall|j: int| 0 <= j < i ==> a@[j] == b@[j],
        decreases a.len() - i,
    {
        if a[i] != b[i] {
            return false;
        }
        i += 1;
    }
    proof {
        assert(a@ =~= b@);
    }
    true
}

/// The whitespace bytes the protocol trims: space, tab, carriage
/// return, line feed.
pub open spec fn is_ws(b: u8) -> bool {
    b == 32 || b == 9 || b == 13 || b == 10
}

/// `s` without leading whitespace.
pub open spec fn trim_start(s: Seq<u8>) -> Seq<u8>
    decreases s.len(),
{
    if s.len() > 0 && is_ws(s[0]) {
        trim_start(s.drop_first())
    } else {
        s
    }
}

/// `s` without trailing whitespace.
pub open spec fn trim_end(s: Seq<u8>) -> Seq<u8>
    decreases s.len(),
{
    if s.len() > 0 && is_ws(s[s.len() - 1]) {
        trim_end(s.drop_last())
    } else {
        s
    }
}

/// `s` without surrounding whitespace.
pub open spec fn trim(s: Seq<u8>) -> Seq<u8> {
    trim_end(trim_start(s))
}

proof fn lemma_trim_start_range(s: Seq<u8>, i: int)
    requires
        0 <= i <= s.len(),
        forall|j: int| 0 <= j < i ==> is_ws(s[j]),
        i < s.len() ==> !is_ws(s[i]),
    ensures
        trim_start(s) == s.subrange(i, s.len() as int),
    decreases i,
{
    if i == 0 {
        if s.len() > 0 {
            assert(!is_ws(s[0]));
        }
        assert(s.subrange(0, s.len() as int) =~= s);
    } else {
        assert(is_ws(s[0]));
        let t = s.drop_first();
        assert(t =~= s.subrange(1, s.len() as int));
        lemma_trim_start_range(t, i - 1);
        assert(t.subrange(i - 1, t.len() as int) =~= s.subrange(i, s.len() as int));
    }
}

proof fn lemma_trim_end_range(s: Seq<u8>, i: int)
    requires
        0 <= i <= s.len(),
        forall|j: int| i <= j < s.len() ==> is_ws(s[j]),
        i > 0 ==> !is_ws(s[i - 1]),
    ensures
        trim_end(s) == s.subrange(0, i),
    decreases s.len() - i,
{
    if i == s.len() {
        if s.len() > 0 {
            assert(!is_ws(s[s.len() - 1]));
        }
        assert(s.subrange(0, s.len() as int) =~= s);
    } else {
        assert(is_ws(s[s.len() - 1]));
        let t = s.drop_last();
        assert(t =~= s.subrange(0, s.len() - 1));
        lemma_trim_end_range(t, i);
        assert(t.subrange(0, i) =~= s.subrange(0, i));
    }
}

/// Trims a byte vector on both sides.
fn trim_exec(s: &Vec<u8>) -> (r: Vec<u8>)
    ensures
        r@ == trim(s@),
{
    let mut lo: usize = 0;
    while lo < s.len() && (s[lo] == 32 || s[lo] == 9 || s[lo] == 13 || s[lo] == 10)
        invariant
            0 <= lo <= s@.len(),
            forall|j: int| 0 <= j < lo ==> is_ws(s@[j]),
        decreases s.len() - lo,
    {
        lo += 1;
    }
    proof {
        lemma_trim_start_range(s@, lo as int);
    }
    let ghost ts = trim_start(s@);
    let mut hi: usize = s.len();
    while hi > lo && (s[hi - 1] == 32 || s[hi - 1] == 9 || s[hi - 1] == 13
        || s[hi - 1] == 10)
        invariant
            lo <= hi <= s@.len(),
            forall|j: int| 0 <= j < lo ==> is_ws(s@[j]),
            !(lo < s@.len() && is_ws(s@[lo as int])) || lo == s@.len(),
            ts == s@.subrange(lo as int, s@.len() as int),
            forall|j: int| hi <= j < s@.len() ==> is_ws(s@[j]),
        decreases hi,
    {
        hi -= 1;
    }
    proof {
        lemma_trim_end_range(ts, hi - lo);
    }
    let mut r: Vec<u8> = Vec::new();
    let mut k: usize = lo;
    while k < hi
        invariant
            lo <= k <= hi <= s@.len(),
            r@ =~= s@.subrange(lo as int, k as int),
        decreases hi - k,
    {
        r.push(s[k]);
        proof {
            assert(r@ =~= s@.subrange(lo as int, k + 1));
        }
        k += 1;
    }
    proof {
        assert(r@ =~= ts.subrange(0, hi - lo));
    }
    r
}

/// The index of the first occurrence of `b` at or after `pos`, or the
/// length when there is none.
pub open spec fn first_at(s: Seq<u8>, b: u8, pos: int) -> int
    decreases s.len() - pos,
{
    if pos < 0 || pos >= s.len() {
        s.len() as int
    } else if s[pos] == b {
        pos
    } else {
        first_at(s, b, pos + 1)
    }
}

proof fn lemma_first_at_found(s: Seq<u8>, b: u8, pos: int, k: int)
    requires
        0 <= pos <= k <= s.len(),
        forall|j: int| pos <= j < k ==> s[j] != b,
        k < s.len() ==> s[k] == b,
    ensures
        first_at(s, b, pos) == if k < s.len() { k } else { s.len() as int },
    decreases k - pos,
{
    if pos < k {
        lemma_first_at_found(s, b, pos + 1, k);
    }
}

/// Finds the first occurrence of `b` in `s` starting at `pos`.
pub(crate) fn find_byte(s: &Vec<u8>, b: u8, pos: usize) -> (r: usize)
    requires
        pos <= s@.len(),
    ensures
        r == first_at(s@, b, pos as int),
        pos <= r <= s@.len(),
{
    let mut k: usize = pos;
    while k < s.len() && s[k] != b
        invariant
            pos <= k <= s@.len(),
            forall|j: int| pos <= j < k ==> s@[j] != b,
        decreases s.len() - k,
    {
        k += 1;
    }
    proof {
        lemma_first_at_found(s@, b, pos as int, k as int);
    }
    k
}

/// Appends the bytes of `src` to `dst`.
pub(crate) fn append_bytes(dst: &mut Vec<u8>, src: &[u8])
    ensures
        final(dst)@ == old(dst)@ + src@,
{
    let ghost base = dst@;
    let mut k: usize = 0;
    while k < src.len()
        invariant
            0 <= k <= src@.len(),
            dst@ =~= base + src@.subrange(0, k as int),
        decreases src.len() - k,
    {
        dst.push(src[k]);
        proof {
            assert(dst@ =~= base + src@.subrange(0, k + 1));
        }
        k += 1;
    }
    proof {
        assert(dst@ =~= base + src@);
    }
}

/// Copies `s[lo..hi]`.
pub(crate) fn subvec(s: &Vec<u8>, lo: usize, hi: usize) -> (r: Vec<u8>)
    requires
        lo <= hi <= s@.len(),
    ensures
        r@ == s@.subrange(lo as int, hi as int),
{
    let mut r: Vec<u8> = Vec::new();
    let mut k: usize = lo;
    while k < hi
        invariant
            lo <= k <= hi <= s@.len(),
            r@ =~= s@.subrange(lo as int, k as int),
        decreases hi - k,
    {
        r.push(s[k]);
        proof {
            assert(r@ =~= s@.subrange(lo as int, k + 1));
        }
        k += 1;
    }
    r
}

/// The mathematical shape of parsed build-script output: every field
/// as the byte text it was read from.
pub struct BuildOutputV {
    pub library_paths: Seq<Seq<u8>>,
    pub library_links: Seq<Seq<u8>>,
    pub cfgs: Seq<Seq<u8>>,
    pub env: Seq<(Seq<u8>, Seq<u8>)>,
    pub metadata: Seq<(Seq<u8>, Seq<u8>)>,
    pub rerun_if_changed: Seq<Seq<u8>>,
    pub rerun_if_env_changed: Seq<Seq<u8>>,
    pub warnings: Seq<Seq<u8>>,
}

/// Contains the parsed output of a custom build script.
#[derive(Clone, Debug, Default)]
pub struct BuildOutput {
    /// Paths to pass to the compiler as `-L`.
    pub library_paths: Vec<String>,
    /// Names of libraries for `-l`.
    pub library_links: Vec<String>,
    /// `--cfg` flags for dependent compiles of this package.
    pub cfgs: Vec<String>,
    /// Environment variables injected into dependent compiles.
    pub env: Vec<(String, String)>,
    /// Metadata exported to dependents of a `links` package.
    pub metadata: Vec<(String, String)>,
    /// Paths that trigger a rerun of the script when changed.
    pub rerun_if_changed: Vec<String>,
    /// Environment variables that trigger a rerun when changed.
    pub rerun_if_env_changed: Vec<String>,
    /// Warnings to surface as diagnostics.
    pub warnings: Vec<String>,
}

pub open spec fn views_of(v: Seq<String>) -> Seq<Seq<u8>> {
    v.map_values(|s: String| bytes_of(s@))
}

pub open spec fn pair_views_of(v: Seq<(String, String)>) -> Seq<(Seq<u8>, Seq<u8>)> {
    v.map_values(|p: (String, String)| (bytes_of(p.0@), bytes_of(p.1@)))
}

impl View for BuildOutput {
    type V = BuildOutputV;

    open spec fn view(&self) -> BuildOutputV {
        BuildOutputV {
            library_paths: views_of(self.library_paths@),
            library_links: views_of(self.library_links@),
            cfgs: views_of(self.cfgs@),
            env: pair_views_of(self.env@),
            metadata: pair_views_of(self.metadata@),
            rerun_if_changed: views_of(self.rerun_if_changed@),
            rerun_if_env_changed: views_of(self.rerun_if_env_changed@),
            warnings: views_of(self.warnings@),
        }
    }
}

/// Why parsing build-script output failed, with the package name for
/// the message.
#[derive(Clone, Debug)]
pub enum BuildScriptError {
    /// A `cargo:` line with no `key=value` shape.
    WrongLine { pkg_name: String, line: String },
    /// A `rustc-flags` token other than `-l` or `-L`.
    BadFlag { pkg_name: String, flag: String },
    /// A `-l`/`-L` flag with no following value.
    MissingFlagValue { pkg_name: String },
    /// A `rustc-env` value with no `=`.
    BadEnv { pkg_name: String, value: String },
}

/// The rendering of a build-script error.
pub open spec fn spec_bs_error_text(e: BuildScriptError) -> Seq<char> {
    match e {
        BuildScriptError::WrongLine { pkg_name, line } =>
            "wrong output in build script of `"@ + pkg_name@ + "`: `"@ + line@ + "`"@,
        BuildScriptError::BadFlag { pkg_name, flag } =>
            "only `-l` and `-L` flags are allowed in build script of `"@ + pkg_name@
                + "`: `"@ + flag@ + "`"@,
        BuildScriptError::MissingFlagValue { pkg_name } =>
            "flag in rustc-flags has no value in build script of `"@ + pkg_name@ + "`"@,
        BuildScriptError::BadEnv { pkg_name, value } =>
            "variable rustc-env has no value in build script of `"@ + pkg_name@
                + "`: `"@ + value@ + "`"@,
    }
}

impl BuildScriptError {
    /// Renders the error for display.
    pub fn to_text(&self) -> (r: String)
        ensures
            r@ == spec_bs_error_text(*self),
    {
        match self {
            BuildScriptError::WrongLine { pkg_name, line } => {
                let mut r: String = "wrong output in build script of `".to_owned();
                r.append(pkg_name.as_str());
                r.append("`: `");
                r.append(line.as_str());
                r.append("`");
                proof {
                    assert(r@ =~= spec_bs_error_text(*self));
                }
                r
            }
            BuildScriptError::BadFlag { pkg_name, flag } => {
                let mut r: String =
                    "only `-l` and `-L` flags are allowed in build script of `".to_owned();
                r.append(pkg_name.as_str());
                r.append("`: `");
                r.append(flag.as_str());
                r.append("`");
                proof {
                    assert(r@ =~= spec_bs_error_text(*self));
                }
                r
            }
            BuildScriptError::MissingFlagValue { pkg_name } => {
                let mut r: String =
                    "flag in rustc-flags has no value in build script of `".to_owned();
                r.append(pkg_name.as_str());
                r.append("`");
                proof {
                    assert(r@ =~= spec_bs_error_text(*self));
                }
                r
            }
            BuildScriptError::BadEnv { pkg_name, value } => {
                let mut r: String =
                    "variable rustc-env has no value in build script of `".to_owned();
                r.append(pkg_name.as_str());
                r.append("`: `");
                r.append(value.as_str());
                r.append("`");
                proof {
                    assert(r@ =~= spec_bs_error_text(*self));
                }
                r
            }
        }
    }
}

/// The kind of failure, without the message strings: what the parse
/// contract is stated over.
pub enum BsErrV {
    WrongLine(Seq<u8>),
    BadFlag(Seq<u8>),
    MissingFlagValue,
    BadEnv(Seq<u8>),
}

/// A search-path value remapped from the root dir the output was
/// written under to the current one: prefix replacement on a path
/// separator boundary, the value untouched otherwise.
pub open spec fn remap(value: Seq<u8>, old_root: Seq<u8>, new_root: Seq<u8>) -> Seq<u8> {
    if value.len() >= old_root.len()
        && value.subrange(0, old_root.len() as int) == old_root
        && (value.len() == old_root.len() || value[old_root.len() as int] == 47) {
        new_root + value.subrange(old_root.len() as int, value.len() as int)
    } else {
        value
    }
}

fn remap_exec(value: &Vec<u8>, old_root: &Vec<u8>, new_root: &Vec<u8>) -> (r: Vec<u8>)
    ensures
        r@ == remap(value@, old_root@, new_root@),
{
    let take = if value.len() >= old_root.len() {
        let prefix = subvec(value, 0, old_root.len());
        if bytes_eq(prefix.as_slice(), old_root.as_slice()) {
            value.len() == old_root.len() || value[old_root.len()] == 47
        } else {
            false
        }
    } else {
        false
    };
    if take {
        let mut r: Vec<u8> = Vec::new();
        let mut k: usize = 0;
        while k < new_root.len()
            invariant
                0 <= k <= new_root@.len(),
                r@ =~= new_root@.subrange(0, k as int),
            decreases new_root.len() - k,
        {
            r.push(new_root[k]);
            proof {
                assert(r@ =~= new_root@.subrange(0, k + 1));
            }
            k += 1;
        }
        proof {
            assert(r@ =~= new_root@);
        }
        let rest = subvec(value, old_root.len(), value.len());
        let mut j: usize = 0;
        while j < rest.len()
            invariant
                0 <= j <= rest@.len(),
                r@ =~= new_root@ + rest@.subrange(0, j as int),
            decreases rest.len() - j,
        {
            r.push(rest[j]);
            proof {
                assert(r@ =~= new_root@ + rest@.subrange(0, j + 1));
            }
            j += 1;
        }
        proof {
            assert(rest@.subrange(0, rest@.len() as int) =~= rest@);
            assert(r@ =~= remap(value@, old_root@, new_root@));
        }
        r
    } else {
        let r = subvec(value, 0, value.len());
        proof {
            assert(r@ =~= value@);
        }
        r
    }
}

/// The result of reading one `rustc-flags` value.
pub enum FlagsV {
    Parsed(Seq<Seq<u8>>, Seq<Seq<u8>>),
    Bad,
    Missing,
    Skip,
}

/// Tokenises a `rustc-flags` value from `pos`: whitespace-separated
/// tokens, read as alternating `-l`/`-L` flags and their values; any
/// other flag token fails, a flag without a value fails, and a token
/// that is not valid UTF-8 makes the whole line passed over.
pub open spec fn spec_flags(s: Seq<u8>, pos: int, paths: Seq<Seq<u8>>,
    links: Seq<Seq<u8>>) -> FlagsV
    decreases s.len() - pos, 1int,
    via spec_flags_dec
{
    if pos < 0 || pos >= s.len() {
        FlagsV::Parsed(paths, links)
    } else if is_ws(s[pos]) {
        spec_flags(s, pos + 1, paths, links)
    } else {
        let e = first_ws(s, pos);
        let tok = s.subrange(pos, e);
        if !valid_utf8(tok) {
            FlagsV::Skip
        } else if tok == sb("-l") || tok == sb("-L") {
            spec_flags_value(s, e, tok == sb("-L"), paths, links)
        } else {
            FlagsV::Bad
        }
    }
}

/// Reads the value token after a flag at `pos`.
pub open spec fn spec_flags_value(s: Seq<u8>, pos: int, is_path: bool,
    paths: Seq<Seq<u8>>, links: Seq<Seq<u8>>) -> FlagsV
    decreases s.len() - pos, 0int,
    via spec_flags_value_dec
{
    if pos < 0 {
        FlagsV::Missing
    } else if pos >= s.len() {
        FlagsV::Missing
    } else if is_ws(s[pos]) {
        spec_flags_value(s, pos + 1, is_path, paths, links)
    } else {
        let e = first_ws(s, pos);
        let tok = s.subrange(pos, e);
        if !valid_utf8(tok) {
            FlagsV::Skip
        } else if is_path {
            spec_flags(s, e, paths.push(tok), links)
        } else {
            spec_flags(s, e, paths, links.push(tok))
        }
    }
}

proof fn lemma_first_ws_bounds(s: Seq<u8>, pos: int)
    requires
        0 <= pos <= s.len(),
    ensures
        pos <= first_ws(s, pos) <= s.len(),
    decreases s.len() - pos,
{
    if pos < s.len() && !is_ws(s[pos]) {
        lemma_first_ws_bounds(s, pos + 1);
    }
}

#[via_fn]
proof fn spec_flags_dec(s: Seq<u8>, pos: int, paths: Seq<Seq<u8>>, links: Seq<Seq<u8>>) {
    if 0 <= pos < s.len() && !is_ws(s[pos]) {
        lemma_first_ws_bounds(s, pos + 1);
        assert(first_ws(s, pos) >= pos + 1);
    }
}

#[via_fn]
proof fn spec_flags_value_dec(s: Seq<u8>, pos: int, is_path: bool, paths: Seq<Seq<u8>>,
    links: Seq<Seq<u8>>) {
    if 0 <= pos < s.len() && !is_ws(s[pos]) {
        lemma_first_ws_bounds(s, pos + 1);
        assert(first_ws(s, pos) >= pos + 1);
    }
}

/// The index of the first whitespace byte at or after `pos`, or the
/// length when there is none.
pub open spec fn first_ws(s: Seq<u8>, pos: int) -> int
    decreases s.len() - pos,
{
    if pos < 0 || pos >= s.len() {
        s.len() as int
    } else if is_ws(s[pos]) {
        pos
    } else {
        first_ws(s, pos + 1)
    }
}

proof fn lemma_first_ws_found(s: Seq<u8>, pos: int, k: int)
    requires
        0 <= pos <= k <= s.len(),
        forall|j: int| pos <= j < k ==> !is_ws(s[j]),
        k < s.len() ==> is_ws(s[k]),
    ensures
        first_ws(s, pos) == if k < s.len() { k } else { s.len() as int },
    decreases k - pos,
{
    if pos < k {
        lemma_first_ws_found(s, pos + 1, k);
    }
}

fn find_ws(s: &Vec<u8>, pos: usize) -> (r: usize)
    requires
        pos <= s@.len(),
    ensures
        r == first_ws(s@, pos as int),
        pos <= r <= s@.len(),
{
    let mut k: usize = pos;
    while k < s.len() && !(s[k] == 32 || s[k] == 9 || s[k] == 13 || s[k] == 10)
        invariant
            pos <= k <= s@.len(),
            forall|j: int| pos <= j < k ==> !is_ws(s@[j]),
        decreases s.len() - k,
    {
        k += 1;
    }
    proof {
        lemma_first_ws_found(s@, pos as int, k as int);
    }
    k
}

/// The executable mirror of `FlagsV`, fields already decoded.
enum FlagsOut {
    Parsed(Vec<String>, Vec<String>),
    Bad,
    Missing,
    Skip,
}

spec fn flags_out_matches(r: FlagsOut, v: FlagsV) -> bool {
    match (r, v) {
        (FlagsOut::Parsed(ps, ls), FlagsV::Parsed(pv, lv)) =>
            views_of(ps@) == pv && views_of(ls@) == lv,
        (FlagsOut::Bad, FlagsV::Bad) => true,
        (FlagsOut::Missing, FlagsV::Missing) => true,
        (FlagsOut::Skip, FlagsV::Skip) => true,
        _ => false,
    }
}

fn parse_flags(s: &Vec<u8>, pos: usize, paths: Vec<String>, links: Vec<String>)
    -> (r: FlagsOut)
    requires
        pos <= s@.len(),
    ensures
        flags_out_matches(r, spec_flags(s@, pos as int, views_of(paths@), views_of(links@))),
    decreases s@.len() - pos, 1int,
{
    if pos >= s.len() {
        return FlagsOut::Parsed(paths, links);
    }
    let b = s[pos];
    if b == 32 || b == 9 || b == 13 || b == 10 {
        return parse_flags(s, pos + 1, paths, links);
    }
    let e = find_ws(s, pos);
    let tok = subvec(s, pos, e);
    let is_l = bytes_eq(tok.as_slice(), "-l".as_bytes());
    let is_path = bytes_eq(tok.as_slice(), "-L".as_bytes());
    match bytes_to_string(tok) {
        None => FlagsOut::Skip,
        Some(_) => {
            if is_l || is_path {
                parse_flags_value(s, e, is_path, paths, links)
            } else {
                FlagsOut::Bad
            }
        }
    }
}

fn parse_flags_value(s: &Vec<u8>, pos: usize, is_path: bool, paths: Vec<String>,
    links: Vec<String>) -> (r: FlagsOut)
    requires
        pos <= s@.len(),
    ensures
        flags_out_matches(r, spec_flags_value(s@, pos as int, is_path, views_of(paths@),
            views_of(links@))),
    decreases s@.len() - pos, 0int,
{
    if pos >= s.len() {
        return FlagsOut::Missing;
    }
    let b = s[pos];
    if b == 32 || b == 9 || b == 13 || b == 10 {
        return parse_flags_value(s, pos + 1, is_path, paths, links);
    }
    let e = find_ws(s, pos);
    proof {
        lemma_first_ws_bounds(s@, pos + 1);
    }
    let tok = subvec(s, pos, e);
    match bytes_to_string(tok) {
        None => FlagsOut::Skip,
        Some(t) => {
            if is_path {
                let mut paths2 = paths;
                let ghost before = views_of(paths2@);
                paths2.push(t);
                proof {
                    assert(views_of(paths2@) =~= before.push(
                        s@.subrange(pos as int, e as int)));
                }
                parse_flags(s, e, paths2, links)
            } else {
                let mut links2 = links;
                let ghost before = views_of(links2@);
                links2.push(t);
                proof {
                    assert(views_of(links2@) =~= before.push(
                        s@.subrange(pos as int, e as int)));
                }
                parse_flags(s, e, paths, links2)
            }
        }
    }
}

/// The shape of an error value, over the byte text it reports.
pub open spec fn err_shape(e: BuildScriptError) -> BsErrV {
    match e {
        BuildScriptError::WrongLine { pkg_name, line } => BsErrV::WrongLine(bytes_of(line@)),
        BuildScriptError::BadFlag { pkg_name, flag } => BsErrV::BadFlag(bytes_of(flag@)),
        BuildScriptError::MissingFlagValue { pkg_name } => BsErrV::MissingFlagValue,
        BuildScriptError::BadEnv { pkg_name, value } => BsErrV::BadEnv(bytes_of(value@)),
    }
}

proof fn lemma_views_push(v: Seq<String>, x: String)
    ensures
        views_of(v.push(x)) == views_of(v).push(bytes_of(x@)),
{
    assert(views_of(v.push(x)) =~= views_of(v).push(bytes_of(x@)));
}

proof fn lemma_pair_views_push(v: Seq<(String, String)>, x: (String, String))
    ensures
        pair_views_of(v.push(x)) == pair_views_of(v).push((bytes_of(x.0@), bytes_of(x.1@))),
{
    assert(pair_views_of(v.push(x)) =~= pair_views_of(v).push(
        (bytes_of(x.0@), bytes_of(x.1@))));
}

/// What one output line does to the accumulated result. A line that is
/// not valid UTF-8, or does not read `cargo:` after trimming, is
/// passed over; a `cargo:` line without `key=value` shape is an error;
/// recognised keys extend their fields, and any other key becomes
/// metadata.
pub open spec fn spec_line(line: Seq<u8>, old_root: Seq<u8>, new_root: Seq<u8>,
    acc: BuildOutputV) -> Result<BuildOutputV, BsErrV> {
    if !valid_utf8(line) {
        Ok(acc)
    } else {
        let t = trim(line);
        if !(t.len() >= 6 && t.subrange(0, 6) == sb("cargo:")) {
            Ok(acc)
        } else {
            let data = t.subrange(6, t.len() as int);
            let e = first_at(data, 61, 0);
            if e == data.len() {
                if valid_utf8(t) {
                    Err(BsErrV::WrongLine(t))
                } else {
                    Ok(acc)
                }
            } else {
                let key = data.subrange(0, e);
                let value = trim_end(data.subrange(e + 1, data.len() as int));
                spec_dispatch(key, value, old_root, new_root, acc)
            }
        }
    }
}

/// Applies one parsed `key=value` directive.
pub open spec fn spec_dispatch(key: Seq<u8>, value: Seq<u8>, old_root: Seq<u8>,
    new_root: Seq<u8>, acc: BuildOutputV) -> Result<BuildOutputV, BsErrV> {
    if key == sb("rustc-flags") {
        match spec_flags(value, 0, Seq::empty(), Seq::empty()) {
            FlagsV::Parsed(ps, ls) => Ok(BuildOutputV {
                library_paths: acc.library_paths + ps,
                library_links: acc.library_links + ls,
                ..acc
            }),
            FlagsV::Bad => if valid_utf8(value) {
                Err(BsErrV::BadFlag(value))
            } else {
                Ok(acc)
            },
            FlagsV::Missing => Err(BsErrV::MissingFlagValue),
            FlagsV::Skip => Ok(acc),
        }
    } else if key == sb("rustc-link-lib") {
        if valid_utf8(value) {
            Ok(BuildOutputV { library_links: acc.library_links.push(value), ..acc })
        } else {
            Ok(acc)
        }
    } else if key == sb("rustc-link-search") {
        let p = remap(value, old_root, new_root);
        if valid_utf8(p) {
            Ok(BuildOutputV { library_paths: acc.library_paths.push(p), ..acc })
        } else {
            Ok(acc)
        }
    } else if key == sb("rustc-cfg") {
        if valid_utf8(value) {
            Ok(BuildOutputV { cfgs: acc.cfgs.push(value), ..acc })
        } else {
            Ok(acc)
        }
    } else if key == sb("rustc-env") {
        let p = first_at(value, 61, 0);
        if p == value.len() {
            if valid_utf8(value) {
                Err(BsErrV::BadEnv(value))
            } else {
                Ok(acc)
            }
        } else {
            let name = value.subrange(0, p);
            let val = value.subrange(p + 1, value.len() as int);
            if valid_utf8(name) && valid_utf8(val) {
                Ok(BuildOutputV { env: acc.env.push((name, val)), ..acc })
            } else {
                Ok(acc)
            }
        }
    } else if key == sb("warning") {
        if valid_utf8(value) {
            Ok(BuildOutputV { warnings: acc.warnings.push(value), ..acc })
        } else {
            Ok(acc)
        }
    } else if key == sb("rerun-if-changed") {
        let p = remap(value, old_root, new_root);
        if valid_utf8(p) {
            Ok(BuildOutputV { rerun_if_changed: acc.rerun_if_changed.push(p), ..acc })
        } else {
            Ok(acc)
        }
    } else if key == sb("rerun-if-env-changed") {
        if valid_utf8(value) {
            Ok(BuildOutputV {
                rerun_if_env_changed: acc.rerun_if_env_changed.push(value),
                ..acc
            })
        } else {
            Ok(acc)
        }
    } else {
        if valid_utf8(key) && valid_utf8(value) {
            Ok(BuildOutputV { metadata: acc.metadata.push((key, value)), ..acc })
        } else {
            Ok(acc)
        }
    }
}

/// The whole output from byte `pos` on, folded line by line.
pub open spec fn spec_parse_from(s: Seq<u8>, pos: int, old_root: Seq<u8>,
    new_root: Seq<u8>, acc: BuildOutputV) -> Result<BuildOutputV, BsErrV>
    decreases s.len() - pos,
    via spec_parse_from_dec
{
    if pos < 0 || pos >= s.len() {
        Ok(acc)
    } else {
        let k = first_at(s, 10, pos);
        let line = s.subrange(pos, k);
        match spec_line(line, old_root, new_root, acc) {
            Err(e) => Err(e),
            Ok(acc2) => {
                if k >= s.len() {
                    Ok(acc2)
                } else {
                    spec_parse_from(s, k + 1, old_root, new_root, acc2)
                }
            }
        }
    }
}

proof fn lemma_first_at_bounds(s: Seq<u8>, b: u8, pos: int)
    requires
        0 <= pos <= s.len(),
    ensures
        pos <= first_at(s, b, pos) <= s.len(),
    decreases s.len() - pos,
{
    if pos < s.len() && s[pos] != b {
        lemma_first_at_bounds(s, b, pos + 1);
    }
}

#[via_fn]
proof fn spec_parse_from_dec(s: Seq<u8>, pos: int, old_root: Seq<u8>, new_root: Seq<u8>,
    acc: BuildOutputV) {
    if 0 <= pos < s.len() {
        lemma_first_at_bounds(s, 10, pos);
    }
}

/// The empty accumulated output.
pub open spec fn empty_output() -> BuildOutputV {
    BuildOutputV {
        library_paths: Seq::empty(),
        library_links: Seq::empty(),
        cfgs: Seq::empty(),
        env: Seq::empty(),
        metadata: Seq::empty(),
        rerun_if_changed: Seq::empty(),
        rerun_if_env_changed: Seq::empty(),
        warnings: Seq::empty(),
    }
}

/// The parse of a whole build-script output.
pub open spec fn spec_parse(s: Seq<u8>, old_root: Seq<u8>, new_root: Seq<u8>)
    -> Result<BuildOutputV, BsErrV> {
    spec_parse_from(s, 0, old_root, new_root, empty_output())
}

impl BuildOutput {
    /// Reads one `rustc-flags` value on its own: the `-L` paths and
    /// `-l` names it carries, or the error a full parse would give.
    /// `pkg_name` only decorates error messages.
    pub fn parse_rustc_flags(value: &str, pkg_name: &str)
        -> (r: Result<(Vec<String>, Vec<String>), BuildScriptError>)
        ensures
            r matches Ok(p) ==> (spec_flags(bytes_of(value@), 0, Seq::empty(),
                Seq::empty()) == FlagsV::Parsed(views_of(p.0@), views_of(p.1@))
                || (spec_flags(bytes_of(value@), 0, Seq::empty(), Seq::empty())
                    is Skip && p.0@.len() == 0 && p.1@.len() == 0)),
            r matches Err(e) ==> ((e matches BuildScriptError::BadFlag {
                    pkg_name: p, flag } && p@ == pkg_name@ && flag@ == value@
                && spec_flags(bytes_of(value@), 0, Seq::empty(), Seq::empty()) is Bad)
                || (e matches BuildScriptError::MissingFlagValue { pkg_name: p }
                    && p@ == pkg_name@
                    && spec_flags(bytes_of(value@), 0, Seq::empty(), Seq::empty())
                        is Missing)),
    {
        let bytes = slice_to_vec(value.as_bytes());
        proof {
            assert(views_of(Seq::<String>::empty()) =~= Seq::<Seq<u8>>::empty());
        }
        match parse_flags(&bytes, 0, Vec::new(), Vec::new()) {
            FlagsOut::Parsed(paths, links) => Ok((paths, links)),
            FlagsOut::Bad => Err(BuildScriptError::BadFlag {
                pkg_name: pkg_name.to_owned(),
                flag: value.to_owned(),
            }),
            FlagsOut::Missing => Err(BuildScriptError::MissingFlagValue {
                pkg_name: pkg_name.to_owned(),
            }),
            FlagsOut::Skip => Ok((Vec::new(), Vec::new())),
        }
    }

    /// Reads one `rustc-env` value on its own: the name and value
    /// around the first `=`, or an error when there is none.
    pub fn parse_rustc_env(value: &str, pkg_name: &str)
        -> (r: Result<(String, String), BuildScriptError>)
        ensures
            r matches Ok(p) ==> first_at(bytes_of(value@), 61, 0)
                    < bytes_of(value@).len()
                && bytes_of(p.0@) == bytes_of(value@).subrange(0,
                    first_at(bytes_of(value@), 61, 0))
                && bytes_of(p.1@) == bytes_of(value@).subrange(
                    first_at(bytes_of(value@), 61, 0) + 1,
                    bytes_of(value@).len() as int),
            r matches Err(e) ==> (e matches BuildScriptError::BadEnv { pkg_name: p,
                value: v } && p@ == pkg_name@ && v@ == value@
                && (first_at(bytes_of(value@), 61, 0) == bytes_of(value@).len()
                    || !(valid_utf8(bytes_of(value@).subrange(0,
                            first_at(bytes_of(value@), 61, 0)))
                        && valid_utf8(bytes_of(value@).subrange(
                            first_at(bytes_of(value@), 61, 0) + 1,
                            bytes_of(value@).len() as int))))),
    {
        let bytes = slice_to_vec(value.as_bytes());
        let p = find_byte(&bytes, 61, 0);
        if p == bytes.len() {
            return Err(BuildScriptError::BadEnv {
                pkg_name: pkg_name.to_owned(),
                value: value.to_owned(),
            });
        }
        let name = subvec(&bytes, 0, p);
        let val = subvec(&bytes, p + 1, bytes.len());
        match (bytes_to_string(name), bytes_to_string(val)) {
            (Some(n), Some(v)) => Ok((n, v)),
            _ => Err(BuildScriptError::BadEnv {
                pkg_name: pkg_name.to_owned(),
                value: value.to_owned(),
            }),
        }
    }

    /// An output with every field empty.
    pub fn new() -> (r: BuildOutput)
        ensures
            r@ == empty_output(),
    {
        let r = BuildOutput {
            library_paths: Vec::new(),
            library_links: Vec::new(),
            cfgs: Vec::new(),
            env: Vec::new(),
            metadata: Vec::new(),
            rerun_if_changed: Vec::new(),
            rerun_if_env_changed: Vec::new(),
            warnings: Vec::new(),
        };
        proof {
            assert(views_of(r.library_paths@) =~= Seq::<Seq<u8>>::empty());
            assert(views_of(r.library_links@) =~= Seq::<Seq<u8>>::empty());
            assert(views_of(r.cfgs@) =~= Seq::<Seq<u8>>::empty());
            assert(pair_views_of(r.env@) =~= Seq::<(Seq<u8>, Seq<u8>)>::empty());
            assert(pair_views_of(r.metadata@) =~= Seq::<(Seq<u8>, Seq<u8>)>::empty());
            assert(views_of(r.rerun_if_changed@) =~= Seq::<Seq<u8>>::empty());
            assert(views_of(r.rerun_if_env_changed@) =~= Seq::<Seq<u8>>::empty());
            assert(views_of(r.warnings@) =~= Seq::<Seq<u8>>::empty());
        }
        r
    }

    /// Parses the stdout of a build script: every line against the
    /// `cargo:key=value` grammar, search paths remapped from
    /// `old_root` to `new_root`, exactly as `spec_parse` states.
    /// `pkg_name` only decorates error messages.
    pub fn parse(input: &[u8], pkg_name: &str, old_root: &str, new_root: &str)
        -> (r: Result<BuildOutput, BuildScriptError>)
        ensures
            r matches Ok(b) ==> spec_parse(input@, sb(old_root), sb(new_root))
                == Ok::<BuildOutputV, BsErrV>(b@),
            r matches Err(e) ==> spec_parse(input@, sb(old_root), sb(new_root))
                == Err::<BuildOutputV, BsErrV>(err_shape(e)),
    {
        let oldr_v = slice_to_vec(old_root.as_bytes());
        let newr_v = slice_to_vec(new_root.as_bytes());
        let mut acc = BuildOutput::new();
        let mut pos: usize = 0;
        loop
            invariant
                pos <= input@.len(),
                oldr_v@ == sb(old_root),
                newr_v@ == sb(new_root),
                spec_parse(input@, sb(old_root), sb(new_root)) == spec_parse_from(
                    input@, pos as int, sb(old_root), sb(new_root), acc@),
            decreases input@.len() - pos,
        {
            if pos >= input.len() {
                return Ok(acc);
            }
            let k = find_byte_slice(input, 10, pos);
            let line = subvec_slice(input, pos, k);
            match parse_line(line, pkg_name, &oldr_v, &newr_v, acc) {
                Err(e) => {
                    return Err(e);
                }
                Ok(acc2) => {
                    acc = acc2;
                }
            }
            if k >= input.len() {
                return Ok(acc);
            }
            pos = k + 1;
        }
    }
}

pub(crate) fn slice_to_vec(s: &[u8]) -> (r: Vec<u8>)
    ensures
        r@ == s@,
{
    let mut r: Vec<u8> = Vec::new();
    let mut k: usize = 0;
    while k < s.len()
        invariant
            0 <= k <= s@.len(),
            r@ =~= s@.subrange(0, k as int),
        decreases s.len() - k,
    {
        r.push(s[k]);
        proof {
            assert(r@ =~= s@.subrange(0, k + 1));
        }
        k += 1;
    }
    proof {
        assert(r@ =~= s@);
    }
    r
}

pub(crate) fn find_byte_slice(s: &[u8], b: u8, pos: usize) -> (r: usize)
    requires
        pos <= s@.len(),
    ensures
        r == first_at(s@, b, pos as int),
        pos <= r <= s@.len(),
{
    let mut k: usize = pos;
    while k < s.len() && s[k] != b
        invariant
            pos <= k <= s@.len(),
            forall|j: int| pos <= j < k ==> s@[j] != b,
        decreases s.len() - k,
    {
        k += 1;
    }
    proof {
        lemma_first_at_found(s@, b, pos as int, k as int);
    }
    k
}

pub(crate) fn subvec_slice(s: &[u8], lo: usize, hi: usize) -> (r: Vec<u8>)
    requires
        lo <= hi <= s@.len(),
    ensures
        r@ == s@.subrange(lo as int, hi as int),
{
    let mut r: Vec<u8> = Vec::new();
    let mut k: usize = lo;
    while k < hi
        invariant
            lo <= k <= hi <= s@.len(),
            r@ =~= s@.subrange(lo as int, k as int),
        decreases hi - k,
    {
        r.push(s[k]);
        proof {
            assert(r@ =~= s@.subrange(lo as int, k + 1));
        }
        k += 1;
    }
    r
}

/// Processes one output line against the accumulated result.
fn parse_line(line: Vec<u8>, pkg_name: &str, old_root: &Vec<u8>, new_root: &Vec<u8>,
    acc: BuildOutput) -> (r: Result<BuildOutput, BuildScriptError>)
    ensures
        r matches Ok(b) ==> spec_line(line@, old_root@, new_root@, acc@)
            == Ok::<BuildOutputV, BsErrV>(b@),
        r matches Err(e) ==> spec_line(line@, old_root@, new_root@, acc@)
            == Err::<BuildOutputV, BsErrV>(err_shape(e)),
{
    let ghost linev = line@;
    match bytes_to_string(line.clone()) {
        None => {
            return Ok(acc);
        }
        Some(_) => {}
    }
    let t = trim_exec(&line);
    let prefix_ok = t.len() >= 6 && {
        let p = subvec(&t, 0, 6);
        bytes_eq(p.as_slice(), "cargo:".as_bytes())
    };
    if !prefix_ok {
        return Ok(acc);
    }
    let data = subvec(&t, 6, t.len());
    let e = find_byte(&data, 61, 0);
    if e == data.len() {
        match bytes_to_string(t.clone()) {
            None => Ok(acc),
            Some(ts) => Err(BuildScriptError::WrongLine {
                pkg_name: pkg_name.to_owned(),
                line: ts,
            }),
        }
    } else {
        let key = subvec(&data, 0, e);
        let raw_value = subvec(&data, e + 1, data.len());
        let value = trim_end_exec(&raw_value);
        proof {
            assert(value@ == trim_end(linev_data_value(linev, old_root@)));
        }
        dispatch(key, value, pkg_name, old_root, new_root, acc)
    }
}

/// Ghost shorthand used only to restate the value slice in proofs.
spec fn linev_data_value(linev: Seq<u8>, old_root: Seq<u8>) -> Seq<u8> {
    let t = trim(linev);
    let data = t.subrange(6, t.len() as int);
    let e = first_at(data, 61, 0);
    data.subrange(e + 1, data.len() as int)
}

/// Trims trailing whitespace of a byte vector.
pub(crate) fn trim_end_exec(s: &Vec<u8>) -> (r: Vec<u8>)
    ensures
        r@ == trim_end(s@),
{
    let mut hi: usize = s.len();
    while hi > 0 && (s[hi - 1] == 32 || s[hi - 1] == 9 || s[hi - 1] == 13
        || s[hi - 1] == 10)
        invariant
            0 <= hi <= s@.len(),
            forall|j: int| hi <= j < s@.len() ==> is_ws(s@[j]),
        decreases hi,
    {
        hi -= 1;
    }
    proof {
        lemma_trim_end_range(s@, hi as int);
    }
    let r = subvec(s, 0, hi);
    r
}

/// Applies one `key=value` directive to the accumulated output.
#[verifier::rlimit(100)]
fn dispatch(key: Vec<u8>, value: Vec<u8>, pkg_name: &str, old_root: &Vec<u8>,
    new_root: &Vec<u8>, acc: BuildOutput) -> (r: Result<BuildOutput, BuildScriptError>)
    ensures
        r matches Ok(b) ==> spec_dispatch(key@, value@, old_root@, new_root@, acc@)
            == Ok::<BuildOutputV, BsErrV>(b@),
        r matches Err(e) ==> spec_dispatch(key@, value@, old_root@, new_root@, acc@)
            == Err::<BuildOutputV, BsErrV>(err_shape(e)),
{
    let ghost accv = acc@;
    let mut out = acc;
    if bytes_eq(key.as_slice(), "rustc-flags".as_bytes()) {
        proof {
            assert(views_of(Seq::<String>::empty()) =~= Seq::<Seq<u8>>::empty());
        }
        match parse_flags(&value, 0, Vec::new(), Vec::new()) {
            FlagsOut::Parsed(ps, ls) => {
                let mut pi: usize = 0;
                let ghost ps0 = views_of(ps@);
                while pi < ps.len()
                    invariant
                        0 <= pi <= ps@.len(),
                        ps0 == views_of(ps@),
                        out@ == (BuildOutputV {
                            library_paths: acc@.library_paths
                                + ps0.subrange(0, pi as int),
                            ..acc@
                        }),
                    decreases ps.len() - pi,
                {
                    let ghost bv = out.library_paths@;
                    out.library_paths.push(ps[pi].clone());
                    proof {
                        lemma_views_push(bv, out.library_paths@[bv.len() as int]);
                        assert(bytes_of(out.library_paths@[bv.len() as int]@)
                            == ps0[pi as int]);
                        assert(acc@.library_paths + ps0.subrange(0, pi + 1)
                            =~= (acc@.library_paths
                                + ps0.subrange(0, pi as int)).push(ps0[pi as int]));
                    }
                    pi += 1;
                }
                proof {
                    assert(ps0.subrange(0, ps0.len() as int) =~= ps0);
                }
                let mut li: usize = 0;
                let ghost ls0 = views_of(ls@);
                let ghost mid = out@;
                while li < ls.len()
                    invariant
                        0 <= li <= ls@.len(),
                        ls0 == views_of(ls@),
                        out@ == (BuildOutputV {
                            library_links: mid.library_links
                                + ls0.subrange(0, li as int),
                            ..mid
                        }),
                    decreases ls.len() - li,
                {
                    let ghost bv = out.library_links@;
                    out.library_links.push(ls[li].clone());
                    proof {
                        lemma_views_push(bv, out.library_links@[bv.len() as int]);
                        assert(bytes_of(out.library_links@[bv.len() as int]@)
                            == ls0[li as int]);
                        assert(mid.library_links + ls0.subrange(0, li + 1)
                            =~= (mid.library_links
                                + ls0.subrange(0, li as int)).push(ls0[li as int]));
                    }
                    li += 1;
                }
                proof {
                    assert(ls0.subrange(0, ls0.len() as int) =~= ls0);
                    assert(out@ == (BuildOutputV {
                        library_paths: accv.library_paths + ps0,
                        library_links: accv.library_links + ls0,
                        ..accv
                    }));
                }
                Ok(out)
            }
            FlagsOut::Bad => {
                match bytes_to_string(value) {
                    None => Ok(out),
                    Some(vs) => Err(BuildScriptError::BadFlag {
                        pkg_name: pkg_name.to_owned(),
                        flag: vs,
                    }),
                }
            }
            FlagsOut::Missing => Err(BuildScriptError::MissingFlagValue {
                pkg_name: pkg_name.to_owned(),
            }),
            FlagsOut::Skip => Ok(out),
        }
    } else if bytes_eq(key.as_slice(), "rustc-link-lib".as_bytes()) {
        match bytes_to_string(value) {
            None => Ok(out),
            Some(vs) => {
                let ghost bv = out.library_links@;
                out.library_links.push(vs);
                proof {
                    lemma_views_push(bv, out.library_links@[bv.len() as int]);
                }
                Ok(out)
            }
        }
    } else if bytes_eq(key.as_slice(), "rustc-link-search".as_bytes()) {
        let p = remap_exec(&value, old_root, new_root);
        match bytes_to_string(p) {
            None => Ok(out),
            Some(vs) => {
                let ghost bv = out.library_paths@;
                out.library_paths.push(vs);
                proof {
                    lemma_views_push(bv, out.library_paths@[bv.len() as int]);
                }
                Ok(out)
            }
        }
    } else if bytes_eq(key.as_slice(), "rustc-cfg".as_bytes()) {
        match bytes_to_string(value) {
            None => Ok(out),
            Some(vs) => {
                let ghost bv = out.cfgs@;
                out.cfgs.push(vs);
                proof {
                    lemma_views_push(bv, out.cfgs@[bv.len() as int]);
                }
                Ok(out)
            }
        }
    } else if bytes_eq(key.as_slice(), "rustc-env".as_bytes()) {
        let p = find_byte(&value, 61, 0);
        if p == value.len() {
            match bytes_to_string(value) {
                None => Ok(out),
                Some(vs) => Err(BuildScriptError::BadEnv {
                    pkg_name: pkg_name.to_owned(),
                    value: vs,
                }),
            }
        } else {
            let name = subvec(&value, 0, p);
            let val = subvec(&value, p + 1, value.len());
            match (bytes_to_string(name), bytes_to_string(val)) {
                (Some(n), Some(v)) => {
                    let ghost bv = out.env@;
                    out.env.push((n, v));
                    proof {
                        lemma_pair_views_push(bv, out.env@[bv.len() as int]);
                    }
                    Ok(out)
                }
                _ => Ok(out),
            }
        }
    } else if bytes_eq(key.as_slice(), "warning".as_bytes()) {
        match bytes_to_string(value) {
            None => Ok(out),
            Some(vs) => {
                let ghost bv = out.warnings@;
                out.warnings.push(vs);
                proof {
                    lemma_views_push(bv, out.warnings@[bv.len() as int]);
                }
                Ok(out)
            }
        }
    } else if bytes_eq(key.as_slice(), "rerun-if-changed".as_bytes()) {
        let p = remap_exec(&value, old_root, new_root);
        match bytes_to_string(p) {
            None => Ok(out),
            Some(vs) => {
                let ghost bv = out.rerun_if_changed@;
                out.rerun_if_changed.push(vs);
                proof {
                    lemma_views_push(bv, out.rerun_if_changed@[bv.len() as int]);
                }
                Ok(out)
            }
        }
    } else if bytes_eq(key.as_slice(), "rerun-if-env-changed".as_bytes()) {
        match bytes_to_string(value) {
            None => Ok(out),
            Some(vs) => {
                let ghost bv = out.rerun_if_env_changed@;
                out.rerun_if_env_changed.push(vs);
                proof {
                    lemma_views_push(bv, out.rerun_if_env_changed@[bv.len() as int]);
                }
                Ok(out)
            }
        }
    } else {
        match (bytes_to_string(key), bytes_to_string(value)) {
            (Some(k), Some(v)) => {
                let ghost bv = out.metadata@;
                out.metadata.push((k, v));
                proof {
                    lemma_pair_views_push(bv, out.metadata@[bv.len() as int]);
                }
                Ok(out)
            }
            _ => Ok(out),
        }
    }
}

} // verus!
