//! What the start-up probes decide: a git work tree, with `git` and `difft`
//! on PATH.

use crate::event::StartupError;
use crate::files::whitespace;
use crate::text::{chars_of, lossy_string, utf8_lossy};
use vstd::prelude::*;

verus! {

/// How `git rev-parse --is-inside-work-tree` went.
#[derive(Clone, Copy, Debug, PartialEq, Eq, Structural)]
pub enum WorkTreeProbe {
    /// `git` could not be started: it is not on PATH.
    GitNotFound,
    /// `git` could not be started for another reason.
    Failed,
    /// `git` ran; whether it said it is inside a work tree.
    Answered { inside: bool },
}

/// `s` without leading and trailing white space (`str::trim`).
pub open spec fn trimmed(s: Seq<char>) -> Seq<char>
    decreases s.len(),
{
    if s.len() > 0 && whitespace(s[0]) {
        trimmed(s.drop_first())
    } else if s.len() > 0 && whitespace(s.last()) {
        trimmed(s.drop_last())
    } else {
        s
    }
}

/// git answered "inside": it succeeded and its output trims to `true`.
pub open spec fn says_inside(success: bool, stdout: Seq<u8>) -> bool {
    success && trimmed(utf8_lossy(stdout)) == "true"@
}

/// Reads the answer of `git rev-parse --is-inside-work-tree`.
pub fn inside_work_tree(success: bool, stdout: &[u8]) -> (b: bool)
    ensures
        b == says_inside(success, stdout@),
{
    if !success {
        return false;
    }
    let text = lossy_string(stdout);
    answers_true(text.as_str())
}

/// Whether git's answer, trimmed, is `true`.
pub fn answers_true(text: &str) -> (b: bool)
    ensures
        b == (trimmed(text@) == "true"@),
{
    let v = chars_of(text);
    let mut lo: usize = 0;
    let mut hi: usize = v.len();
    assert(v@.subrange(0, v.len() as int) == v@);
    while lo < hi && (crate::files::is_whitespace(v[lo]) || crate::files::is_whitespace(v[hi - 1]))
        invariant
            lo <= hi <= v.len(),
            v@ == text@,
            trimmed(v@.subrange(lo as int, hi as int)) == trimmed(v@),
        decreases hi - lo,
    {
        let ghost s = v@.subrange(lo as int, hi as int);
        if crate::files::is_whitespace(v[lo]) {
            assert(s.drop_first() == v@.subrange(lo + 1, hi as int));
            lo = lo + 1;
        } else {
            assert(s.drop_last() == v@.subrange(lo as int, hi - 1));
            hi = hi - 1;
        }
    }
    assert(v@.subrange(0, v.len() as int) == v@);
    let t = "true";
    proof {
        reveal_strlit("true");
    }
    if hi - lo != 4 {
        assert(v@.subrange(lo as int, hi as int).len() != "true"@.len());
        return false;
    }
    let r = v[lo] == 't' && v[lo + 1] == 'r' && v[lo + 2] == 'u' && v[lo + 3] == 'e';
    if r {
        assert(v@.subrange(lo as int, hi as int) =~= "true"@);
    } else {
        assert(v@.subrange(lo as int, hi as int) != "true"@) by {
            if v@.subrange(lo as int, hi as int) == "true"@ {
                assert(v@.subrange(lo as int, hi as int)[0] == 't');
                assert(v@.subrange(lo as int, hi as int)[1] == 'r');
                assert(v@.subrange(lo as int, hi as int)[2] == 'u');
                assert(v@.subrange(lo as int, hi as int)[3] == 'e');
            }
        }
    }
    r
}

/// Whether the program may start: `git` answers that the directory is in
/// a work tree and runs by itself, and `difft` runs.
pub open spec fn verdict_spec(probe: WorkTreeProbe, git_runs: bool, difft_runs: bool) -> Result<
    (),
    StartupError,
> {
    match probe {
        WorkTreeProbe::GitNotFound => Err(StartupError::GitMissing),
        WorkTreeProbe::Failed => Err(StartupError::NotAWorkTree),
        WorkTreeProbe::Answered { inside: false } => Err(StartupError::NotAWorkTree),
        WorkTreeProbe::Answered { inside: true } => if !git_runs {
            Err(StartupError::GitMissing)
        } else if !difft_runs {
            Err(StartupError::DifftMissing)
        } else {
            Ok(())
        },
    }
}

pub fn startup_verdict(probe: WorkTreeProbe, git_runs: bool, difft_runs: bool) -> (r: Result<
    (),
    StartupError,
>)
    ensures
        r == verdict_spec(probe, git_runs, difft_runs),
{
    match probe {
        WorkTreeProbe::GitNotFound => Err(StartupError::GitMissing),
        WorkTreeProbe::Failed => Err(StartupError::NotAWorkTree),
        WorkTreeProbe::Answered { inside } => {
            if !inside {
                Err(StartupError::NotAWorkTree)
            } else if !git_runs {
                Err(StartupError::GitMissing)
            } else if !difft_runs {
                Err(StartupError::DifftMissing)
            } else {
                Ok(())
            }
        },
    }
}

/// The line printed when start-up is refused.
pub open spec fn startup_text(err: StartupError) -> Seq<char> {
    match err {
        StartupError::GitMissing => "difforge: git not found on PATH"@,
        StartupError::DifftMissing => "difforge: difft not found on PATH"@,
        StartupError::NotAWorkTree => "difforge: not a git work tree"@,
    }
}

pub fn startup_message(err: StartupError) -> (s: &'static str)
    ensures
        s@ == startup_text(err),
{
    match err {
        StartupError::GitMissing => "difforge: git not found on PATH",
        StartupError::DifftMissing => "difforge: difft not found on PATH",
        StartupError::NotAWorkTree => "difforge: not a git work tree",
    }
}

} // verus!
