//! The configuration bag: a tree of typed values with their origins,
//! merged across layers with documented precedence, and the typed
//! views of the recognised sections.

use vstd::prelude::*;
use vstd::string::StringExecFns;
use crate::text::str_eq;

verus! {

/// Where a configuration value came from.
#[derive(Clone, Debug)]
pub enum Definition {
    /// A configuration file at this path.
    Path(String),
    /// An environment variable of this name.
    Environment(String),
}

impl Definition {
    /// Environment values take precedence over file values.
    pub fn is_higher_priority(&self, other: &Definition) -> (r: bool)
        ensures
            r == (self is Environment && other is Path),
    {
        matches!(self, Definition::Environment(_))
            && matches!(other, Definition::Path(_))
    }

    /// A copy of the definition.
    pub fn dup(&self) -> (r: Definition)
        ensures
            match (r, self) {
                (Definition::Path(a), Definition::Path(b)) => a@ == b@,
                (Definition::Environment(a), Definition::Environment(b)) => a@ == b@,
                _ => false,
            },
    {
        match self {
            Definition::Path(p) => Definition::Path(p.clone()),
            Definition::Environment(e) => Definition::Environment(e.clone()),
        }
    }
}

/// A typed configuration value with its origin. Tables keep their
/// entries as a keyed list in insertion order.
#[derive(Debug)]
pub enum ConfigValue {
    Integer(i64, Definition),
    String(String, Definition),
    List(Vec<(String, Definition)>, Definition),
    Table(Vec<(String, ConfigValue)>, Definition),
    Boolean(bool, Definition),
}

impl ConfigValue {
    /// The integer carried, or the value itself as the error.
    pub fn i64(&self) -> (r: Result<(i64, &Definition), ()>)
        ensures
            r is Ok <==> self is Integer,
            r matches Ok(p) ==> self matches ConfigValue::Integer(v, d)
                && p.0 == v && *p.1 == d,
    {
        match self {
            ConfigValue::Integer(v, d) => Ok((*v, d)),
            _ => Err(()),
        }
    }

    /// The string carried.
    pub fn string(&self) -> (r: Result<(&String, &Definition), ()>)
        ensures
            r is Ok <==> self is String,
            r matches Ok(p) ==> self matches ConfigValue::String(v, d)
                && *p.0 == v && *p.1 == d,
    {
        match self {
            ConfigValue::String(v, d) => Ok((v, d)),
            _ => Err(()),
        }
    }

    /// The table carried.
    pub fn table(&self) -> (r: Result<(&Vec<(String, ConfigValue)>, &Definition), ()>)
        ensures
            r is Ok <==> self is Table,
            r matches Ok(p) ==> self matches ConfigValue::Table(v, d)
                && *p.0 == v && *p.1 == d,
    {
        match self {
            ConfigValue::Table(v, d) => Ok((v, d)),
            _ => Err(()),
        }
    }

    /// The list carried.
    pub fn list(&self) -> (r: Result<&Vec<(String, Definition)>, ()>)
        ensures
            r is Ok <==> self is List,
            r matches Ok(v) ==> self matches ConfigValue::List(xs, _) && *v == xs,
    {
        match self {
            ConfigValue::List(v, _) => Ok(v),
            _ => Err(()),
        }
    }

    /// The boolean carried.
    pub fn boolean(&self) -> (r: Result<(bool, &Definition), ()>)
        ensures
            r is Ok <==> self is Boolean,
            r matches Ok(p) ==> self matches ConfigValue::Boolean(v, d)
                && p.0 == v && *p.1 == d,
    {
        match self {
            ConfigValue::Boolean(v, d) => Ok((*v, d)),
            _ => Err(()),
        }
    }

    /// The word naming the value's type in messages.
    pub fn desc(&self) -> (r: &'static str)
        ensures
            self is Table ==> r@ == "table"@,
            self is List ==> r@ == "array"@,
            self is String ==> r@ == "string"@,
            self is Boolean ==> r@ == "boolean"@,
            self is Integer ==> r@ == "integer"@,
    {
        proof {
            reveal_strlit("table");
            reveal_strlit("array");
            reveal_strlit("string");
            reveal_strlit("boolean");
            reveal_strlit("integer");
        }
        match self {
            ConfigValue::Table(..) => "table",
            ConfigValue::List(..) => "array",
            ConfigValue::String(..) => "string",
            ConfigValue::Boolean(..) => "boolean",
            ConfigValue::Integer(..) => "integer",
        }
    }

    /// The origin of the value.
    pub fn definition(&self) -> (r: &Definition)
        ensures
            match self {
                ConfigValue::Integer(_, d) => *r == d,
                ConfigValue::String(_, d) => *r == d,
                ConfigValue::List(_, d) => *r == d,
                ConfigValue::Table(_, d) => *r == d,
                ConfigValue::Boolean(_, d) => *r == d,
            },
    {
        match self {
            ConfigValue::Integer(_, d) => d,
            ConfigValue::String(_, d) => d,
            ConfigValue::List(_, d) => d,
            ConfigValue::Table(_, d) => d,
            ConfigValue::Boolean(_, d) => d,
        }
    }

    /// Merges `from` into `self`. Lists append `from`\'s entries after
    /// `self`\'s; tables merge per key recursively, inserting keys
    /// absent from `self` and keeping every present key in its place;
    /// a primitive replaces an existing primitive only when `force`
    /// holds or its origin has higher priority; a container never
    /// merges with a primitive, and that failure names both sides.
    /// Nesting beyond the supported depth is refused, and a failure
    /// inside a table entry is passed up.
    pub fn merge(&mut self, from: ConfigValue, force: bool) -> (r: Result<(), MergeError>)
        ensures
            (*old(self)) is List && from is List
                ==> r is Ok && (*final(self)) is List
                    && cv_list(*final(self)) == cv_list(*old(self)) + cv_list(from)
                    && cv_def(*final(self)) == cv_def(*old(self)),
            !((*old(self)) is List) && !((*old(self)) is Table) && !(from is List)
                && !(from is Table)
                ==> r is Ok && *final(self) == (if force
                        || decide_priority(from, *old(self)) { from }
                    else { *old(self) }),
            (*old(self)) is Table && from is Table && r is Ok
                ==> (*final(self)) is Table
                    && cv_def(*final(self)) == cv_def(*old(self))
                    && cv_table(*final(self)).len() >= cv_table(*old(self)).len()
                    && (forall|i: int| 0 <= i < cv_table(*old(self)).len()
                        ==> (#[trigger] cv_table(*final(self))[i]).0@
                            == cv_table(*old(self))[i].0@)
                    && (forall|n: int| 0 <= n < cv_table(from).len()
                        ==> table_has_key(cv_table(*final(self)),
                            (#[trigger] cv_table(from)[n]).0@)),
            (((*old(self)) is List) != (from is List))
                || (((*old(self)) is Table) != (from is Table))
                ==> r is Err && *final(self) == *old(self)
                    && (r matches Err(e) ==> e matches MergeError::Mismatch {
                        expected, expected_def, found, found_def }
                        && expected@ == spec_desc(*old(self))
                        && expected_def == cv_def(*old(self))
                        && found@ == spec_desc(from)
                        && found_def == cv_def(from)),
    {
        self.merge_inner(from, force, 64)
    }

    /// The bounded-depth worker behind `merge`.
    fn merge_inner(&mut self, from: ConfigValue, force: bool, fuel: u64)
        -> (r: Result<(), MergeError>)
        ensures
            fuel >= 1 && (*old(self)) is List && from is List
                ==> r is Ok && (*final(self)) is List
                    && cv_list(*final(self)) == cv_list(*old(self)) + cv_list(from)
                    && cv_def(*final(self)) == cv_def(*old(self)),
            fuel >= 1 && !((*old(self)) is List) && !((*old(self)) is Table)
                && !(from is List) && !(from is Table)
                ==> r is Ok && *final(self) == (if force
                        || decide_priority(from, *old(self)) { from }
                    else { *old(self) }),
            fuel >= 1 && (*old(self)) is Table && from is Table && r is Ok
                ==> (*final(self)) is Table
                    && cv_def(*final(self)) == cv_def(*old(self))
                    && cv_table(*final(self)).len() >= cv_table(*old(self)).len()
                    && (forall|i: int| 0 <= i < cv_table(*old(self)).len()
                        ==> (#[trigger] cv_table(*final(self))[i]).0@
                            == cv_table(*old(self))[i].0@)
                    && (forall|n: int| 0 <= n < cv_table(from).len()
                        ==> table_has_key(cv_table(*final(self)),
                            (#[trigger] cv_table(from)[n]).0@)),
            fuel >= 1 && ((((*old(self)) is List) != (from is List))
                || (((*old(self)) is Table) != (from is Table)))
                ==> r is Err && *final(self) == *old(self)
                    && (r matches Err(e) ==> e matches MergeError::Mismatch {
                        expected, expected_def, found, found_def }
                        && expected@ == spec_desc(*old(self))
                        && expected_def == cv_def(*old(self))
                        && found@ == spec_desc(from)
                        && found_def == cv_def(from)),
            fuel == 0 ==> (r matches Err(e) && e is TooDeep)
                && *final(self) == *old(self),
        decreases fuel,
    {
        if fuel == 0 {
            return Err(MergeError::TooDeep);
        }
        let mut taken = ConfigValue::Boolean(false, Definition::Path(String::new()));
        core::mem::swap(self, &mut taken);
        match (taken, from) {
            (ConfigValue::List(mut xs, d), ConfigValue::List(ys, _)) => {
                let ghost xs0 = xs@;
                let ghost ys0 = ys@;
                let mut src = ys;
                loop
                    invariant
                        xs@ + src@ =~= xs0 + ys0,
                    ensures
                        src@.len() == 0,
                        xs@ + src@ =~= xs0 + ys0,
                    decreases src@.len(),
                {
                    if src.len() == 0 {
                        break;
                    }
                    let ghost sx = xs@;
                    let ghost ss = src@;
                    let item = src.remove(0);
                    xs.push(item);
                    proof {
                        assert(xs@ =~= sx.push(ss[0]));
                        assert(src@ =~= ss.drop_first());
                        assert(xs@ + src@ =~= sx + ss);
                    }
                }
                proof {
                    assert(xs@ =~= xs0 + ys0);
                }
                *self = ConfigValue::List(xs, d);
                Ok(())
            }
            (ConfigValue::Table(mut entries, d), ConfigValue::Table(news, _)) => {
                let ghost es0 = entries@;
                let ghost ns0 = news@;
                let mut src = news;
                loop
                    invariant
                        fuel >= 1,
                        (*old(self)) is Table,
                        from is Table,
                        src@.len() <= ns0.len(),
                        src@ =~= ns0.skip(ns0.len() - src@.len()),
                        entries@.len() >= es0.len(),
                        forall|i: int| 0 <= i < es0.len()
                            ==> (#[trigger] entries@[i]).0@ == es0[i].0@,
                        forall|n: int| 0 <= n < ns0.len() - src@.len()
                            ==> table_has_key(entries@, (#[trigger] ns0[n]).0@),
                    ensures
                        entries@.len() >= es0.len(),
                        forall|i: int| 0 <= i < es0.len()
                            ==> (#[trigger] entries@[i]).0@ == es0[i].0@,
                        forall|n: int| 0 <= n < ns0.len()
                            ==> table_has_key(entries@, (#[trigger] ns0[n]).0@),
                        src@.len() == 0,
                    decreases src@.len(),
                {
                    if src.len() == 0 {
                        break;
                    }
                    let (key, val) = src.remove(0);
                    let mut found = false;
                    let mut k: usize = 0;
                    let n = entries.len();
                    while k < n && !found
                        invariant
                            n == entries@.len(),
                            0 <= k <= n,
                            found ==> k < n && entries@[k as int].0@ == key@,
                        decreases n - k + (if found { 0int } else { 1int }),
                    {
                        if str_eq(entries[k].0.as_str(), key.as_str()) {
                            found = true;
                        } else {
                            k += 1;
                        }
                    }
                    let ghost consumed = ns0.len() - src@.len() - 1;
                    if found && k < entries.len() {
                        // Merge into the present entry; its key stays in
                        // its place, and a failure inside is passed up.
                        let ghost pre = entries@;
                        let ghost keyv = key@;
                        let mut slot = entries.remove(k);
                        let inner = slot.1.merge_inner(val, force, fuel - 1);
                        entries.insert(k, slot);
                        proof {
                            assert forall|i: int| 0 <= i < es0.len()
                                implies (#[trigger] entries@[i]).0@ == es0[i].0@ by {
                                if i < k as int {
                                    assert(entries@[i] == pre[i]);
                                } else if i > k as int {
                                    assert(entries@[i] == pre[i]);
                                }
                            }
                            assert(entries@[k as int].0@ == keyv);
                            assert forall|n: int| 0 <= n < consumed + 1
                                implies table_has_key(entries@,
                                    (#[trigger] ns0[n]).0@) by {
                                if n < consumed {
                                    let w = choose|w: int| 0 <= w < pre.len()
                                        && (#[trigger] pre[w]).0@ == ns0[n].0@;
                                    if w < k as int {
                                        assert(entries@[w].0@ == ns0[n].0@);
                                    } else if w > k as int {
                                        assert(entries@[w].0@ == ns0[n].0@);
                                    } else {
                                        assert(entries@[k as int].0@ == ns0[n].0@);
                                    }
                                } else {
                                    assert(entries@[k as int].0@ == ns0[n].0@);
                                }
                            }
                        }
                        match inner {
                            Err(e) => {
                                *self = ConfigValue::Table(entries, d);
                                return Err(e);
                            }
                            Ok(()) => {}
                        }
                    } else {
                        let ghost pre = entries@;
                        let ghost keyv = key@;
                        entries.push((key, val));
                        proof {
                            assert(forall|i: int| 0 <= i < es0.len()
                                ==> (#[trigger] entries@[i]).0@ == es0[i].0@);
                            assert(entries@[pre.len() as int].0@ == keyv);
                            assert forall|n: int| 0 <= n < consumed + 1
                                implies table_has_key(entries@,
                                    (#[trigger] ns0[n]).0@) by {
                                if n < consumed {
                                    let w = choose|w: int| 0 <= w < pre.len()
                                        && (#[trigger] pre[w]).0@ == ns0[n].0@;
                                    assert(entries@[w].0@ == ns0[n].0@);
                                } else {
                                    assert(entries@[pre.len() as int].0@
                                        == ns0[n].0@);
                                }
                            }
                        }
                    }
                }
                *self = ConfigValue::Table(entries, d);
                Ok(())
            }
            (old_v, from_v) => {
                let old_is_container = matches!(old_v, ConfigValue::List(..))
                    || matches!(old_v, ConfigValue::Table(..));
                let from_is_container = matches!(from_v, ConfigValue::List(..))
                    || matches!(from_v, ConfigValue::Table(..));
                if old_is_container || from_is_container {
                    let e = MergeError::Mismatch {
                        expected: old_v.desc().to_owned(),
                        expected_def: old_v.definition().dup_exact(),
                        found: from_v.desc().to_owned(),
                        found_def: from_v.definition().dup_exact(),
                    };
                    *self = old_v;
                    Err(e)
                } else {
                    let replace = force
                        || from_v.definition().is_higher_priority(old_v.definition());
                    if replace {
                        *self = from_v;
                    } else {
                        *self = old_v;
                    }
                    Ok(())
                }
            }
        }
    }
}

/// Why a merge failed: the two sides mixed a container with something
/// else, the tree nested too deep, or an inner entry failed the same
/// way.
#[derive(Debug)]
pub enum MergeError {
    /// The two values\' types cannot merge; both sides\' type words and
    /// origins are named.
    Mismatch { expected: String, expected_def: Definition, found: String,
        found_def: Definition },
    /// The configuration tree nests deeper than merging supports.
    TooDeep,
}

/// The rendering of an origin.
pub open spec fn spec_def_text(d: Definition) -> Seq<char> {
    match d {
        Definition::Path(p) => p@,
        Definition::Environment(e) => "environment variable `"@ + e@ + "`"@,
    }
}

/// The rendering of a merge failure.
pub open spec fn spec_merge_error_text(e: MergeError) -> Seq<char> {
    match e {
        MergeError::Mismatch { expected, expected_def, found, found_def } =>
            "failed to merge config value: expected "@ + expected@ + " (from "@
                + spec_def_text(expected_def) + ") but found "@ + found@
                + " (from "@ + spec_def_text(found_def) + ")"@,
        MergeError::TooDeep =>
            "configuration nests too deeply to merge"@,
    }
}

impl Definition {
    /// Renders the origin for messages.
    pub fn to_text(&self) -> (r: String)
        ensures
            r@ == spec_def_text(*self),
    {
        match self {
            Definition::Path(p) => p.clone(),
            Definition::Environment(e) => {
                proof {
                    reveal_strlit("environment variable `");
                    reveal_strlit("`");
                }
                let mut r: String = "environment variable `".to_owned();
                r.append(e.as_str());
                r.append("`");
                proof {
                    assert(r@ =~= spec_def_text(*self));
                }
                r
            }
        }
    }

    /// A copy with the very same origin.
    pub fn dup_exact(&self) -> (r: Definition)
        ensures
            r == *self,
    {
        match self {
            Definition::Path(p) => {
                let r = Definition::Path(p.clone());
                proof {
                    assert(r == *self) by {
                        assert(r matches Definition::Path(q) && q@ == p@);
                    }
                }
                r
            }
            Definition::Environment(e) => {
                let r = Definition::Environment(e.clone());
                proof {
                    assert(r == *self) by {
                        assert(r matches Definition::Environment(q) && q@ == e@);
                    }
                }
                r
            }
        }
    }
}

impl MergeError {
    /// Renders the failure for display.
    pub fn to_text(&self) -> (r: String)
        ensures
            r@ == spec_merge_error_text(*self),
    {
        match self {
            MergeError::Mismatch { expected, expected_def, found, found_def } => {
                let mut r: String = "failed to merge config value: expected ".to_owned();
                r.append(expected.as_str());
                r.append(" (from ");
                let ed = expected_def.to_text();
                r.append(ed.as_str());
                r.append(") but found ");
                r.append(found.as_str());
                r.append(" (from ");
                let fd = found_def.to_text();
                r.append(fd.as_str());
                r.append(")");
                proof {
                    reveal_strlit("failed to merge config value: expected ");
                    reveal_strlit(" (from ");
                    reveal_strlit(") but found ");
                    reveal_strlit(")");
                    assert(r@ =~= spec_merge_error_text(*self));
                }
                r
            }
            MergeError::TooDeep => {
                proof {
                    reveal_strlit("configuration nests too deeply to merge");
                }
                "configuration nests too deeply to merge".to_owned()
            }
        }
    }
}

/// The entries of a list value, at the specification level.
pub open spec fn cv_list(v: ConfigValue) -> Seq<(String, Definition)> {
    match v {
        ConfigValue::List(xs, _) => xs@,
        _ => Seq::empty(),
    }
}

/// The entries of a table value, at the specification level.
pub open spec fn cv_table(v: ConfigValue) -> Seq<(String, ConfigValue)> {
    match v {
        ConfigValue::Table(es, _) => es@,
        _ => Seq::empty(),
    }
}

/// Some entry of the table carries this key.
pub open spec fn table_has_key(es: Seq<(String, ConfigValue)>, key: Seq<char>) -> bool {
    exists|i: int| 0 <= i < es.len() && (#[trigger] es[i]).0@ == key
}

/// The type word of a value, at the specification level.
pub open spec fn spec_desc(v: ConfigValue) -> Seq<char> {
    match v {
        ConfigValue::Table(..) => "table"@,
        ConfigValue::List(..) => "array"@,
        ConfigValue::String(..) => "string"@,
        ConfigValue::Boolean(..) => "boolean"@,
        ConfigValue::Integer(..) => "integer"@,
    }
}

/// Whether `from` outranks `existing` by origin.
pub open spec fn decide_priority(from: ConfigValue, existing: ConfigValue) -> bool {
    cv_def(from) is Environment && cv_def(existing) is Path
}

/// The origin of a value, at the specification level.
pub open spec fn cv_def(v: ConfigValue) -> Definition {
    match v {
        ConfigValue::Integer(_, d) => d,
        ConfigValue::String(_, d) => d,
        ConfigValue::List(_, d) => d,
        ConfigValue::Table(_, d) => d,
        ConfigValue::Boolean(_, d) => d,
    }
}

/// The value written to the credentials table when a token is saved:
/// under `registry.token` for the default registry, under
/// `registries.<name>.token` otherwise.
pub fn credentials_value(token: String, registry: Option<String>, def: Definition)
    -> (r: (String, ConfigValue))
    ensures
        registry is None ==> r.0@ == "registry"@,
        registry is Some ==> r.0@ == "registries"@,
        registry is None ==> (r.1 matches ConfigValue::Table(t, _)
            && t@.len() == 1 && t@[0].0@ == "token"@
            && (t@[0].1 matches ConfigValue::String(v, _) && v@ == token@)),
        registry matches Some(name) ==> (r.1 matches ConfigValue::Table(outer, _)
            && outer@.len() == 1 && outer@[0].0@ == name@
            && (outer@[0].1 matches ConfigValue::Table(t, _)
                && t@.len() == 1 && t@[0].0@ == "token"@
                && (t@[0].1 matches ConfigValue::String(v, _) && v@ == token@))),
{
    proof {
        reveal_strlit("registry");
        reveal_strlit("registries");
        reveal_strlit("token");
    }
    let mut inner: Vec<(String, ConfigValue)> = Vec::new();
    inner.push(("token".to_owned(), ConfigValue::String(token, def.dup())));
    let table = ConfigValue::Table(inner, def.dup());
    match registry {
        Some(name) => {
            let mut outer: Vec<(String, ConfigValue)> = Vec::new();
            outer.push((name, table));
            ("registries".to_owned(), ConfigValue::Table(outer, def))
        }
        None => ("registry".to_owned(), table),
    }
}

/// Relies on `home::cargo_home_with_cwd`: the configuration home for
/// a working directory; the answer depends on the environment, so
/// nothing more is promised than that a missing home is `None`.
#[verifier::external_body]
pub fn homedir(cwd: &str) -> (r: Option<String>)
{
    home::cargo_home_with_cwd(std::path::Path::new(cwd))
        .ok()
        .and_then(|p| p.to_str().map(|s| s.to_owned()))
}

/// A list of strings read from configuration, either written as a
/// list or as one whitespace-separated string.
#[derive(Clone, Debug)]
pub struct StringList {
    list: Vec<String>,
}

impl StringList {
    /// Wraps an explicit list.
    pub fn new(list: Vec<String>) -> (r: StringList)
        ensures
            r.as_slice_spec() == list@.map_values(|s: String| s@),
    {
        StringList { list }
    }

    /// The strings carried, as a specification-level view.
    pub closed spec fn as_slice_spec(&self) -> Seq<Seq<char>> {
        self.list@.map_values(|s: String| s@)
    }

    /// The strings carried.
    pub fn as_slice(&self) -> (r: &[String])
        ensures
            r@.map_values(|s: String| s@) == self.as_slice_spec(),
    {
        self.list.as_slice()
    }
}

/// The `http.*` section of the configuration.
#[derive(Clone, Debug, Default)]
pub struct CargoHttpConfig {
    pub proxy: Option<String>,
    pub low_speed_limit: Option<u32>,
    pub timeout: Option<u64>,
    pub cainfo: Option<String>,
    pub check_revoke: Option<bool>,
    pub user_agent: Option<String>,
    pub debug: Option<bool>,
    pub multiplexing: Option<bool>,
    pub ssl_version: Option<SslVersionConfig>,
}

/// The `http.ssl-version` key: a single version or a range.
#[derive(Clone, Debug)]
pub enum SslVersionConfig {
    Single(String),
    Range(SslVersionConfigRange),
}

/// An inclusive range of TLS versions.
#[derive(Clone, Debug, Default)]
pub struct SslVersionConfigRange {
    pub min: Option<String>,
    pub max: Option<String>,
}

/// The `net.*` section of the configuration.
#[derive(Clone, Debug, Default)]
pub struct CargoNetConfig {
    pub retry: Option<u32>,
    pub offline: Option<bool>,
    pub git_fetch_with_cli: Option<bool>,
}

/// The `build.*` section of the configuration.
#[derive(Clone, Debug, Default)]
pub struct CargoBuildConfig {
    pub pipelining: Option<bool>,
    pub dep_info_basedir: Option<String>,
    pub target_dir: Option<String>,
    pub incremental: Option<bool>,
    pub target: Option<String>,
    pub jobs: Option<u32>,
    pub rustflags: Option<StringList>,
    pub rustdocflags: Option<StringList>,
    pub rustc_wrapper: Option<String>,
    pub rustc: Option<String>,
    pub rustdoc: Option<String>,
}

} // verus!
