//! Version requirements: comparator lists parsed from requirement strings,
//! and verified matching of versions against them.

use vstd::prelude::*;
use crate::version::Version;

verus! {

/// A comparator operator, as a requirement string spells it.
#[derive(Clone, Copy, PartialEq, Eq, Structural, Debug, Hash)]
pub enum Op {
    Exact,
    Greater,
    GreaterEq,
    Less,
    LessEq,
    Tilde,
    Caret,
    Wildcard,
}

/// One comparator of a requirement: an operator applied to a version
/// pattern whose minor and patch components may be left open.
#[derive(Clone, Debug)]
pub struct Comparator {
    pub op: Op,
    pub major: u64,
    pub minor: Option<u64>,
    pub patch: Option<u64>,
    /// The pre-release tag of the comparator, kept so that requirements
    /// mentioning one can be recognised and rejected.
    pub pre: String,
}

/// The mathematical shape of a comparator.
pub struct ComparatorV {
    pub op: Op,
    pub major: u64,
    pub minor: Option<u64>,
    pub patch: Option<u64>,
    pub pre: Seq<char>,
}

impl View for Comparator {
    type V = ComparatorV;

    open spec fn view(&self) -> ComparatorV {
        ComparatorV {
            op: self.op,
            major: self.major,
            minor: self.minor,
            patch: self.patch,
            pre: self.pre@,
        }
    }
}

/// What a requirement string parses to: `None` when the text is not a
/// valid requirement, else the comparator list in source order.
pub uninterp spec fn parsed_req(s: Seq<char>) -> Option<Seq<ComparatorV>>;

/// Relies on `semver::VersionReq::parse`: the comparator list of a
/// requirement string. The result depends on the characters of `s` alone.
#[verifier::external_body]
fn parse_req_raw(s: &str) -> (r: Option<Vec<Comparator>>)
    ensures
        r is Some <==> parsed_req(s@) is Some,
        r matches Some(v) ==> parsed_req(s@) == Some(v@.map_values(|c: Comparator| c@)),
{
    match semver::VersionReq::parse(s) {
        Ok(req) => Some(req.comparators.iter().map(|c| Comparator {
            op: match c.op {
                semver::Op::Exact => Op::Exact, semver::Op::Greater => Op::Greater,
                semver::Op::GreaterEq => Op::GreaterEq, semver::Op::Less => Op::Less,
                semver::Op::LessEq => Op::LessEq, semver::Op::Tilde => Op::Tilde,
                semver::Op::Caret => Op::Caret, _ => Op::Wildcard,
            },
            major: c.major, minor: c.minor, patch: c.patch,
            pre: c.pre.as_str().to_owned(),
        }).collect()),
        Err(_) => None,
    }
}

/// A version requirement: the conjunction of its comparators.
#[derive(Clone, Debug)]
pub struct VersionReq {
    pub comparators: Vec<Comparator>,
}

impl View for VersionReq {
    type V = Seq<ComparatorV>;

    open spec fn view(&self) -> Seq<ComparatorV> {
        self.comparators@.map_values(|c: Comparator| c@)
    }
}

/// Comparators carrying a pre-release tag are outside this crate's
/// version model; a well-formed requirement has none.
pub open spec fn req_wf(cs: Seq<ComparatorV>) -> bool {
    forall|i: int| 0 <= i < cs.len() ==> (#[trigger] cs[i]).pre.len() == 0
}

/// Does one comparator admit `v`? Defined for versions without
/// pre-release tags, matched against comparators without them.
pub open spec fn comparator_matches(c: ComparatorV, v: Version) -> bool {
    match c.op {
        Op::Exact | Op::Wildcard => m_exact(c, v),
        Op::Greater => m_greater(c, v),
        Op::GreaterEq => m_exact(c, v) || m_greater(c, v),
        Op::Less => m_less(c, v),
        Op::LessEq => m_exact(c, v) || m_less(c, v),
        Op::Tilde => m_tilde(c, v),
        Op::Caret => m_caret(c, v),
    }
}

pub open spec fn m_exact(c: ComparatorV, v: Version) -> bool {
    v.major == c.major
        && (c.minor matches Some(m) ==> v.minor == m)
        && (c.patch matches Some(p) ==> v.patch == p)
}

pub open spec fn m_greater(c: ComparatorV, v: Version) -> bool {
    if v.major != c.major {
        v.major > c.major
    } else if c.minor is None {
        false
    } else if v.minor != c.minor->Some_0 {
        v.minor > c.minor->Some_0
    } else if c.patch is None {
        false
    } else {
        v.patch > c.patch->Some_0
    }
}

pub open spec fn m_less(c: ComparatorV, v: Version) -> bool {
    if v.major != c.major {
        v.major < c.major
    } else if c.minor is None {
        false
    } else if v.minor != c.minor->Some_0 {
        v.minor < c.minor->Some_0
    } else if c.patch is None {
        false
    } else {
        v.patch < c.patch->Some_0
    }
}

pub open spec fn m_tilde(c: ComparatorV, v: Version) -> bool {
    v.major == c.major
        && (c.minor matches Some(m) ==> v.minor == m)
        && (c.patch matches Some(p) ==> v.patch >= p)
}

pub open spec fn m_caret(c: ComparatorV, v: Version) -> bool {
    if v.major != c.major {
        false
    } else if c.minor is None {
        true
    } else if c.patch is None {
        if c.major > 0 {
            v.minor >= c.minor->Some_0
        } else {
            v.minor == c.minor->Some_0
        }
    } else if c.major > 0 {
        if v.minor != c.minor->Some_0 {
            v.minor > c.minor->Some_0
        } else {
            v.patch >= c.patch->Some_0
        }
    } else if c.minor->Some_0 > 0 {
        v.minor == c.minor->Some_0 && v.patch >= c.patch->Some_0
    } else {
        v.minor == c.minor->Some_0 && v.patch == c.patch->Some_0
    }
}

/// Does a requirement admit `v`? Every comparator must.
pub open spec fn req_matches(cs: Seq<ComparatorV>, v: Version) -> bool {
    forall|i: int| 0 <= i < cs.len() ==> comparator_matches(#[trigger] cs[i], v)
}

impl VersionReq {
    /// Parses a requirement string. Returns `Err` exactly when the text
    /// is not a valid requirement or names a pre-release tag.
    pub fn parse(s: &str) -> (r: Result<VersionReq, ()>)
        ensures
            r matches Ok(req) ==> parsed_req(s@) == Some(req@) && req_wf(req@),
            r is Err <==> (parsed_req(s@) is None
                || !req_wf(parsed_req(s@)->Some_0)),
    {
        match parse_req_raw(s) {
            None => Err(()),
            Some(cs) => {
                let mut i: usize = 0;
                while i < cs.len()
                    invariant
                        0 <= i <= cs.len(),
                        parsed_req(s@) == Some(cs@.map_values(|c: Comparator| c@)),
                        forall|j: int| 0 <= j < i ==> (#[trigger] cs@[j])@.pre.len() == 0,
                    decreases cs.len() - i,
                {
                    if !cs[i].pre.as_str().is_empty() {
                        assert(!req_wf(parsed_req(s@)->Some_0)) by {
                            assert(parsed_req(s@)->Some_0[i as int].pre.len() != 0);
                        }
                        return Err(());
                    }
                    i += 1;
                }
                let req = VersionReq { comparators: cs };
                proof {
                    assert(forall|j: int| 0 <= j < req@.len()
                        ==> (#[trigger] req@[j]).pre.len() == 0);
                }
                Ok(req)
            }
        }
    }

    /// True when every comparator of the requirement admits `v`.
    pub fn matches(&self, v: &Version) -> (r: bool)
        requires
            req_wf(self@),
        ensures
            r == req_matches(self@, *v),
    {
        let cs = &self.comparators;
        let mut i: usize = 0;
        while i < cs.len()
            invariant
                0 <= i <= cs.len(),
                cs@.map_values(|c: Comparator| c@) == self@,
                forall|j: int| 0 <= j < i ==> comparator_matches(#[trigger] self@[j], *v),
            decreases cs.len() - i,
        {
            let c = &cs[i];
            let ok = match c.op {
                Op::Exact | Op::Wildcard => exec_exact(c, v),
                Op::Greater => exec_greater(c, v),
                Op::GreaterEq => exec_exact(c, v) || exec_greater(c, v),
                Op::Less => exec_less(c, v),
                Op::LessEq => exec_exact(c, v) || exec_less(c, v),
                Op::Tilde => exec_tilde(c, v),
                Op::Caret => exec_caret(c, v),
            };
            if !ok {
                assert(!comparator_matches(self@[i as int], *v));
                return false;
            }
            assert(comparator_matches(self@[i as int], *v));
            i += 1;
        }
        true
    }
}

fn exec_exact(c: &Comparator, v: &Version) -> (r: bool)
    ensures
        r == m_exact(c@, *v),
{
    v.major == c.major
        && (match c.minor { Some(m) => v.minor == m, None => true })
        && (match c.patch { Some(p) => v.patch == p, None => true })
}

fn exec_greater(c: &Comparator, v: &Version) -> (r: bool)
    ensures
        r == m_greater(c@, *v),
{
    if v.major != c.major {
        v.major > c.major
    } else {
        match c.minor {
            None => false,
            Some(m) => {
                if v.minor != m {
                    v.minor > m
                } else {
                    match c.patch {
                        None => false,
                        Some(p) => v.patch > p,
                    }
                }
            }
        }
    }
}

fn exec_less(c: &Comparator, v: &Version) -> (r: bool)
    ensures
        r == m_less(c@, *v),
{
    if v.major != c.major {
        v.major < c.major
    } else {
        match c.minor {
            None => false,
            Some(m) => {
                if v.minor != m {
                    v.minor < m
                } else {
                    match c.patch {
                        None => false,
                        Some(p) => v.patch < p,
                    }
                }
            }
        }
    }
}

fn exec_tilde(c: &Comparator, v: &Version) -> (r: bool)
    ensures
        r == m_tilde(c@, *v),
{
    v.major == c.major
        && (match c.minor { Some(m) => v.minor == m, None => true })
        && (match c.patch { Some(p) => v.patch >= p, None => true })
}

fn exec_caret(c: &Comparator, v: &Version) -> (r: bool)
    ensures
        r == m_caret(c@, *v),
{
    if v.major != c.major {
        false
    } else {
        match c.minor {
            None => true,
            Some(m) => {
                match c.patch {
                    None => {
                        if c.major > 0 { v.minor >= m } else { v.minor == m }
                    }
                    Some(p) => {
                        if c.major > 0 {
                            if v.minor != m { v.minor > m } else { v.patch >= p }
                        } else if m > 0 {
                            v.minor == m && v.patch >= p
                        } else {
                            v.minor == m && v.patch == p
                        }
                    }
                }
            }
        }
    }
}

} // verus!
