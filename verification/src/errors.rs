//! Error display: rendering an error and its chain of causes the way
//! the command-line front end prints them, as lines for a shell sink.

use vstd::prelude::*;
use vstd::string::StringExecFns;

verus! {

/// How chatty the shell is.
#[derive(Clone, Copy, PartialEq, Eq, Structural, Debug)]
pub enum Verbosity {
    Verbose,
    Normal,
    Quiet,
}

/// One link in an error's cause chain.
#[derive(Clone, Debug)]
pub struct ErrorLink {
    /// The message of this cause.
    pub text: String,
    /// Shown only in verbose mode; printing stops here otherwise.
    pub verbose_only: bool,
    /// Already reported: printing stops before this link.
    pub already_printed: bool,
    /// An unexpected internal error: reporting adds a bug-report note.
    pub internal: bool,
}

/// An error with its chain of causes, outermost first.
#[derive(Clone, Debug)]
pub struct ChainedError {
    pub links: Vec<ErrorLink>,
}

/// A line the display logic hands the shell sink.
#[derive(Clone, Debug)]
pub enum ShellLine {
    /// An error-status line.
    Error(String),
    /// A plain line on the error stream.
    Plain(String),
    /// A `Caused by:` continuation with the cause's text.
    CausedBy(String),
    /// A note line.
    Note(String),
}

/// What displaying the chain from link `i` on emits, and whether it
/// stopped early on a verbose-only link.
pub open spec fn spec_display_from(links: Seq<ErrorLink>, i: int, verbosity: Verbosity,
    as_err: bool) -> (Seq<ShellLine>, bool)
    decreases links.len() - i,
{
    if i < 0 || i >= links.len() {
        (Seq::empty(), false)
    } else if !(verbosity is Verbose) && links[i].verbose_only {
        (Seq::empty(), true)
    } else if links[i].already_printed {
        (Seq::empty(), false)
    } else {
        let line = if i == 0 {
            if as_err {
                ShellLine::Error(links[0].text)
            } else {
                ShellLine::Plain(links[0].text)
            }
        } else {
            ShellLine::CausedBy(links[i].text)
        };
        let (rest, stopped) = spec_display_from(links, i + 1, verbosity, as_err);
        (seq![line] + rest, stopped)
    }
}

/// Emits the chain of causes as shell lines: the first as an error
/// (or plain) line, the rest as `Caused by:` continuations, stopping
/// at an already-printed link, and stopping early on a verbose-only
/// link unless the shell is verbose.
pub fn display_error_chain(err: &ChainedError, verbosity: Verbosity, as_err: bool)
    -> (r: (Vec<ShellLine>, bool))
    ensures
        r.0@ == spec_display_from(err.links@, 0, verbosity, as_err).0,
        r.1 == spec_display_from(err.links@, 0, verbosity, as_err).1,
{
    let mut out: Vec<ShellLine> = Vec::new();
    let mut i: usize = 0;
    loop
        invariant
            0 <= i <= err.links@.len(),
            spec_display_from(err.links@, 0, verbosity, as_err).0
                == out@ + spec_display_from(err.links@, i as int, verbosity, as_err).0,
            spec_display_from(err.links@, 0, verbosity, as_err).1
                == spec_display_from(err.links@, i as int, verbosity, as_err).1,
        decreases err.links@.len() - i,
    {
        if i >= err.links.len() {
            proof {
                assert(out@ + Seq::<ShellLine>::empty() =~= out@);
            }
            return (out, false);
        }
        let link = &err.links[i];
        if !matches!(verbosity, Verbosity::Verbose) && link.verbose_only {
            proof {
                assert(out@ + Seq::<ShellLine>::empty() =~= out@);
            }
            return (out, true);
        }
        if link.already_printed {
            proof {
                assert(out@ + Seq::<ShellLine>::empty() =~= out@);
            }
            return (out, false);
        }
        let line = if i == 0 {
            if as_err {
                ShellLine::Error(link.text.clone())
            } else {
                ShellLine::Plain(link.text.clone())
            }
        } else {
            ShellLine::CausedBy(link.text.clone())
        };
        let ghost before = out@;
        out.push(line);
        proof {
            let (rest, _) = spec_display_from(err.links@, i as int, verbosity, as_err);
            assert(out@ + spec_display_from(err.links@, i + 1, verbosity, as_err).0
                =~= before + rest);
        }
        i += 1;
    }
}

/// True when some link of the chain is an internal error.
pub fn has_internal(err: &ChainedError) -> (r: bool)
    ensures
        r == exists|i: int| 0 <= i < err.links@.len()
            && (#[trigger] err.links@[i]).internal,
{
    let mut i: usize = 0;
    while i < err.links.len()
        invariant
            0 <= i <= err.links@.len(),
            forall|j: int| 0 <= j < i ==> !(#[trigger] err.links@[j]).internal,
        decreases err.links.len() - i,
    {
        if err.links[i].internal {
            assert(err.links@[i as int].internal);
            return true;
        }
        i += 1;
    }
    false
}

/// Displays an error and all its causes. A chain holding an internal
/// error gets three notes appended: the unexpected-internal-error
/// notice, the bug-report request, and the build identification the
/// caller supplies, so bug reports can name the build.
pub fn display_error(err: &ChainedError, verbosity: Verbosity, build_id: &str)
    -> (r: Vec<ShellLine>)
    ensures
        ({
            let base = spec_display_from(err.links@, 0, verbosity, true).0;
            if exists|i: int| 0 <= i < err.links@.len()
                && (#[trigger] err.links@[i]).internal {
                r@.len() == base.len() + 3
                    && r@.subrange(0, base.len() as int) == base
                    && (r@[base.len() as int] matches ShellLine::Note(a)
                        && a@ == "this is an unexpected internal error"@)
                    && (r@[base.len() as int + 1] matches ShellLine::Note(b)
                        && b@ == "we would appreciate a bug report"@)
                    && (r@[base.len() as int + 2] matches ShellLine::Note(c)
                        && c@ == build_id@)
            } else {
                r@ == base
            }
        }),
{
    let (mut out, _) = display_error_chain(err, verbosity, true);
    if has_internal(err) {
        proof {
            reveal_strlit("this is an unexpected internal error");
            reveal_strlit("we would appreciate a bug report");
        }
        let ghost base = out@;
        out.push(ShellLine::Note("this is an unexpected internal error".to_owned()));
        out.push(ShellLine::Note("we would appreciate a bug report".to_owned()));
        out.push(ShellLine::Note(build_id.to_owned()));
        proof {
            assert(out@.subrange(0, base.len() as int) =~= base);
        }
    }
    out
}

/// Displays a warning with the error that explains it: the warning
/// first, a blank separator, then the chain without error status.
pub fn display_warning_with_error(warning: &str, err: &ChainedError,
    verbosity: Verbosity) -> (r: Vec<ShellLine>)
    ensures
        r@.len() >= 2,
        r@[0] matches ShellLine::Plain(w) && w@ == ("warning: "@ + warning@),
        r@[1] matches ShellLine::Plain(b) && b@ == ""@,
        r@.skip(2) == spec_display_from(err.links@, 0, verbosity, false).0,
{
    proof {
        reveal_strlit("warning: ");
        reveal_strlit("");
    }
    let mut head: String = "warning: ".to_owned();
    head.append(warning);
    let mut out: Vec<ShellLine> = Vec::new();
    out.push(ShellLine::Plain(head));
    out.push(ShellLine::Plain(String::new()));
    let (chain, _) = display_error_chain(err, verbosity, false);
    let ghost base = out@;
    let ghost chain0 = chain@;
    let mut rest = chain;
    loop
        invariant
            out@.len() >= 2,
            out@.len() - 2 <= chain0.len(),
            rest@ =~= chain0.skip(out@.len() - 2),
            out@ =~= base + chain0.subrange(0, out@.len() - 2),
            base.len() == 2,
        ensures
            rest@.len() == 0,
            out@.len() >= 2,
            out@.len() - 2 <= chain0.len(),
            rest@ =~= chain0.skip(out@.len() - 2),
            out@ =~= base + chain0.subrange(0, out@.len() - 2),
        decreases rest@.len(),
    {
        if rest.len() == 0 {
            break;
        }
        let item = rest.remove(0);
        out.push(item);
        proof {
            assert(rest@ =~= chain0.skip(out@.len() - 2));
            assert(out@ =~= base + chain0.subrange(0, out@.len() - 2));
        }
    }
    proof {
        assert(chain0.skip(out@.len() - 2).len() == 0);
        assert(out@.len() - 2 == chain0.len());
        assert(chain0.subrange(0, chain0.len() as int) =~= chain0);
        assert(out@ =~= base + chain0);
        assert(out@.skip(2) =~= chain0);
    }
    out
}

} // verus!
