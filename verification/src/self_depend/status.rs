//! What the self-dependency status report concludes, from what the
//! command layer read.

use vstd::prelude::*;

use crate::self_depend::manager::{manager_word, Manager};
use crate::self_depend::{ENVRC, SYNC_LINE};
use crate::text::{append, owned};
use crate::version::{version_lt, CanonVersion};

verus! {

/// The machine schema `sdd self-depend status --json` declares.
pub const SCHEMA: &'static str = "sdd.self-depend-status/1";

/// Whether a file is on disk.
#[derive(Debug, Clone, Copy, PartialEq, Eq, Structural)]
pub enum Presence {
    /// The file exists.
    Present,
    /// The file does not exist.
    Absent,
}

impl Presence {
    /// The presence a lookup found.
    pub fn of(present: bool) -> (p: Presence)
        ensures
            p is Present <==> present,
    {
        if present {
            Presence::Present
        } else {
            Presence::Absent
        }
    }
}

/// How a recorded pin compares with the release this binary is.
#[derive(Debug, Clone, Copy, PartialEq, Eq, Structural)]
pub enum Freshness {
    /// The pin names this binary's release.
    Current,
    /// The pin names an older release.
    Behind,
    /// The pin names a newer release than this binary.
    Ahead,
}

/// How a pin compares with this binary's release.
pub fn freshness(pinned: &CanonVersion, this: &CanonVersion) -> (f: Freshness)
    ensures
        f is Behind <==> version_lt(*pinned, *this),
        f is Ahead <==> version_lt(*this, *pinned),
        f is Current <==> *pinned == *this,
{
    if pinned.precedes(this) {
        Freshness::Behind
    } else if this.precedes(pinned) {
        Freshness::Ahead
    } else {
        Freshness::Current
    }
}

/// What the report concludes about the wiring.
#[derive(Debug, Clone, Copy, PartialEq, Eq, Structural)]
pub enum State {
    /// One manager pins this tool, the sync line is landed, nothing is left over.
    Ready,
    /// No manager file names this tool.
    Unwired,
    /// A manager pins this tool and the shell loader carries no sync line.
    LineAbsent,
    /// More than one manager names this tool.
    Ambiguous,
    /// A predecessor mechanism left a file behind.
    Leftovers,
}

/// Whether the loop is switched off: in continuous integration, or by the
/// operator's variable. The caller reads the environment and hands in
/// whether each variable is set.
pub fn switched_off(ci: bool, opted_out: bool) -> (r: bool)
    ensures
        r == (ci || opted_out),
{
    ci || opted_out
}

/// The conclusion the wiring calls for.
pub open spec fn state_of(wired: nat, envrc_sync: bool, no_leftovers: bool) -> State {
    if wired == 0 {
        State::Unwired
    } else if wired == 1 {
        if !envrc_sync {
            State::LineAbsent
        } else if no_leftovers {
            State::Ready
        } else {
            State::Leftovers
        }
    } else {
        State::Ambiguous
    }
}

/// What the report concludes from how many managers pin this tool,
/// whether the shell loader carries the sync line, and whether anything
/// was left over.
pub fn conclude(wired: usize, envrc_sync: bool, no_leftovers: bool) -> (s: State)
    ensures
        s == state_of(wired as nat, envrc_sync, no_leftovers),
{
    if wired == 0 {
        State::Unwired
    } else if wired == 1 {
        if !envrc_sync {
            State::LineAbsent
        } else if no_leftovers {
            State::Ready
        } else {
            State::Leftovers
        }
    } else {
        State::Ambiguous
    }
}

/// Words joined by a separator.
pub open spec fn joined_words(words: Seq<Seq<char>>, sep: Seq<char>) -> Seq<char>
    decreases words.len(),
{
    if words.len() == 0 {
        Seq::empty()
    } else if words.len() == 1 {
        words[0]
    } else {
        joined_words(words.drop_last(), sep) + sep + words.last()
    }
}

/// The line an operator reads next, for a conclusion.
pub open spec fn next_line_of(state: State, wired: Seq<Manager>, target: Seq<char>) -> Seq<char> {
    match state {
        State::Ready => "sdd self-depend sync --caller operator --target "@ + target
            + " moves the pin by hand"@,
        State::Unwired => "sdd self-depend add --target "@ + target
            + " serves the fragments for the manager this project runs"@,
        State::LineAbsent => "add `"@ + SYNC_LINE@ + "` to "@ + ENVRC@
            + "; sdd self-depend add --target "@ + target + " prints it with its placement"@,
        State::Ambiguous => "one target runs one mechanism; keep one of "@ + joined_words(
            wired.map_values(|m: Manager| manager_word(m)),
            ", "@,
        ) + " and remove the others' pins"@,
        State::Leftovers => "sdd self-depend clean --target "@ + target
            + " --apply removes what the predecessor left"@,
    }
}

/// What an operator does next, one line for the conclusion.
pub fn next_lines(state: State, wired: &[Manager], target: &str) -> (r: Vec<String>)
    ensures
        r@.len() == 1,
        r@[0]@ == next_line_of(state, wired@, target@),
{
    let mut line = String::new();
    match state {
        State::Ready => {
            append(&mut line, "sdd self-depend sync --caller operator --target ");
            append(&mut line, target);
            append(&mut line, " moves the pin by hand");
        },
        State::Unwired => {
            append(&mut line, "sdd self-depend add --target ");
            append(&mut line, target);
            append(&mut line, " serves the fragments for the manager this project runs");
        },
        State::LineAbsent => {
            append(&mut line, "add `");
            append(&mut line, SYNC_LINE);
            append(&mut line, "` to ");
            append(&mut line, ENVRC);
            append(&mut line, "; sdd self-depend add --target ");
            append(&mut line, target);
            append(&mut line, " prints it with its placement");
        },
        State::Ambiguous => {
            append(&mut line, "one target runs one mechanism; keep one of ");
            let ghost start = line@;
            let ghost words = wired@.map_values(|m: Manager| manager_word(m));
            let mut i: usize = 0;
            while i < wired.len()
                invariant
                    i <= wired.len(),
                    words == wired@.map_values(|m: Manager| manager_word(m)),
                    line@ == start + joined_words(words.take(i as int), ", "@),
                decreases wired.len() - i,
            {
                if i > 0 {
                    append(&mut line, ", ");
                }
                append(&mut line, wired[i].as_str());
                proof {
                    let t = words.take(i + 1);
                    assert(t.drop_last() =~= words.take(i as int));
                    assert(t.last() == manager_word(wired@[i as int]));
                    if i == 0 {
                        assert(words.take(0).len() == 0);
                    }
                    assert(line@ =~= start + joined_words(t, ", "@));
                }
                i += 1;
            }
            assert(words.take(i as int) =~= words);
            append(&mut line, " and remove the others' pins");
        },
        State::Leftovers => {
            append(&mut line, "sdd self-depend clean --target ");
            append(&mut line, target);
            append(&mut line, " --apply removes what the predecessor left");
        },
    }
    let mut r = Vec::new();
    r.push(line);
    r
}

} // verus!
