//! What the corpus says about itself, as far as a program can prove it.
//!
//! Brownfield was one word for three kinds of debt, and only one of them
//! is the reason the sweep exists. A structural finding is what makes two
//! conventions coexist, so it forces the sweep. A budget finding is a
//! measurement over a cap, so it becomes debt. Style is neither: no
//! delivered gate judges prose, and the engine does not get to claim a
//! document's prose is wrong because it was written first.

use vstd::prelude::*;

use crate::landing::path::TargetPath;
use crate::plan::operation::{components_of, path_components, PartModel, PathPart};
use crate::text::{chars_of, find_char_from, first_index_from, has_prefix, starts_with};

pub mod detector;

verus! {

/// Which kind of debt a finding is.
#[derive(Debug, Clone, Copy, PartialEq, Eq, Structural)]
pub enum FindingKind {
    /// Two conventions would coexist. Only a sweep resolves it.
    StructuralDebt,
    /// A measurement is over a cap. Debt records it.
    Budget,
}

/// One thing the corpus shows.
#[derive(Debug, Clone, PartialEq, Eq)]
pub struct Finding {
    /// Which kind of debt it is.
    pub kind: FindingKind,
    /// Where.
    pub path: TargetPath,
    /// The detector that found it, as a stable slug.
    pub rule: String,
    /// One sentence a person reads.
    pub statement: String,
    /// What was measured, where the finding is a measurement.
    pub measurement: Option<Measurement>,
}

/// A number over a cap.
#[derive(Debug, Clone, PartialEq, Eq)]
pub struct Measurement {
    /// What was counted.
    pub dimension: String,
    /// How much of it there is.
    pub found: u64,
    /// How much the convention allows.
    pub cap: u64,
}

/// A document written before the instance, which nothing here judges:
/// named rather than measured, because no delivered gate judges prose.
#[derive(Debug, Clone, PartialEq, Eq)]
pub struct StyleCandidate {
    /// Where.
    pub path: TargetPath,
    /// Why it is a candidate, never why it is wrong.
    pub reason: String,
}

/// A name without a trailing `.md`, where it has one.
pub open spec fn stem_of(name: Seq<char>) -> Seq<char> {
    if name.len() >= 3 && name.subrange(name.len() - 3, name.len() as int) == ".md"@ {
        name.subrange(0, name.len() - 3)
    } else {
        name
    }
}

/// Whether a filename is named by its position: a stem whose part before
/// its first `-` is a non-empty run of ASCII digits, with something after
/// that `-`.
pub open spec fn ordinal_spec(name: Seq<char>) -> bool {
    let stem = stem_of(name);
    match first_index_from(stem, '-', 0) {
        None => false,
        Some(i) => i > 0 && (forall|j: int| 0 <= j < i ==> '0' <= #[trigger] stem[j] <= '9') && i
            + 1 < stem.len(),
    }
}

/// Whether a filename is named by its position rather than its subject.
///
/// A number is an identity two branches can both claim, and a slug is not.
/// A subject that starts with a number keeps it: `roadmap-2026` is a
/// subject, and `01-intro` is a position.
pub fn is_ordinal_name(name: &str) -> (r: bool)
    ensures
        r == ordinal_spec(name@),
{
    let v = chars_of(name);
    let n = v.len();
    let mut end = n;
    if n >= 3 && v[n - 3] == '.' && v[n - 2] == 'm' && v[n - 1] == 'd' {
        end = n - 3;
    }
    proof {
        reveal_strlit(".md");
        if n >= 3 {
            let tail = v@.subrange(n - 3, n as int);
            if v@[n - 3] == '.' && v@[n - 2] == 'm' && v@[n - 1] == 'd' {
                assert(tail =~= ".md"@);
            } else {
                assert(tail[0] == v@[n - 3] && tail[1] == v@[n - 2] && tail[2] == v@[n - 1]);
                assert(tail != ".md"@);
            }
        }
    }
    let ghost stem = v@.subrange(0, end as int);
    assert(stem == stem_of(name@)) by {
        if end == n {
            assert(v@.subrange(0, n as int) =~= v@);
        }
    }
    let mut i: usize = 0;
    while i < end && v[i] != '-'
        invariant
            i <= end <= n == v@.len(),
            stem == v@.subrange(0, end as int),
            forall|j: int| 0 <= j < i ==> v@[j] != '-',
        decreases end - i,
    {
        i += 1;
    }
    proof {
        crate::text::lemma_first_index_from(stem, '-', 0);
        assert forall|j: int| 0 <= j < i implies stem[j] != '-' by {
            assert(stem[j] == v@[j]);
        }
    }
    if i == end {
        proof {
            if first_index_from(stem, '-', 0) is Some {
                let k = first_index_from(stem, '-', 0)->0;
                assert(stem[k] == v@[k]);
            }
        }
        return false;
    }
    assert(stem[i as int] == '-');
    assert(first_index_from(stem, '-', 0) == Some(i as int)) by {
        if first_index_from(stem, '-', 0) != Some(i as int) {
            let k = first_index_from(stem, '-', 0)->0;
            assert(stem[k] == v@[k]);
        }
    }
    if i == 0 || i + 1 >= end {
        return false;
    }
    let mut j: usize = 0;
    while j < i
        invariant
            j <= i < end <= n == v@.len(),
            stem == v@.subrange(0, end as int),
            stem == stem_of(name@),
            first_index_from(stem, '-', 0) == Some(i as int),
            forall|k: int| 0 <= k < j ==> '0' <= #[trigger] stem[k] <= '9',
        decreases i - j,
    {
        if !('0' <= v[j] && v[j] <= '9') {
            assert(stem[j as int] == v@[j as int]);
            return false;
        }
        assert(stem[j as int] == v@[j as int]);
        j += 1;
    }
    true
}

/// The last component of a path, where it is an ordinary one.
pub open spec fn file_name_of(name: Seq<char>) -> Option<Seq<char>> {
    let parts = path_components(name);
    if parts.len() > 0 && parts.last() is Normal {
        Some(parts.last()->Normal_0)
    } else {
        None
    }
}

/// The last position of `c` in `s`, if any.
pub open spec fn last_index_of(s: Seq<char>, c: char) -> Option<int>
    decreases s.len(),
{
    if s.len() == 0 {
        None
    } else if s.last() == c {
        Some(s.len() - 1)
    } else {
        last_index_of(s.drop_last(), c)
    }
}

/// The extension of a file name, as `Path::extension` reads it: what
/// follows the last `.`, unless that `.` begins the name.
pub open spec fn extension_of(file: Seq<char>) -> Option<Seq<char>> {
    match last_index_of(file, '.') {
        Some(i) => if i > 0 {
            Some(file.subrange(i + 1, file.len() as int))
        } else {
            None
        },
        None => None,
    }
}

/// Whether a name is a markdown document: its file name's extension is
/// exactly `md`.
pub open spec fn markdown_spec(name: Seq<char>) -> bool {
    match file_name_of(name) {
        Some(f) => extension_of(f) == Some("md"@),
        None => false,
    }
}

proof fn lemma_last_index_of(s: Seq<char>, c: char)
    ensures
        match last_index_of(s, c) {
            Some(i) => 0 <= i < s.len() && s[i] == c && forall|j: int| i < j < s.len() ==> s[j] != c,
            None => forall|j: int| 0 <= j < s.len() ==> s[j] != c,
        },
    decreases s.len(),
{
    if s.len() > 0 {
        lemma_last_index_of(s.drop_last(), c);
        assert forall|j: int| 0 <= j < s.len() - 1 implies s[j] == s.drop_last()[j] by {}
    }
}

/// Whether a filename is a markdown document.
///
/// Case-sensitive on purpose: the convention's own filenames are, and a
/// document named with a shouted extension is not one of them.
pub fn is_markdown(name: &str) -> (r: bool)
    ensures
        r == markdown_spec(name@),
{
    let parts = components_of(name);
    assert(parts@.map_values(|p: PathPart| p@).len() == parts@.len());
    if parts.len() == 0 {
        return false;
    }
    let last = &parts[parts.len() - 1];
    assert(parts@.map_values(|p: PathPart| p@).last() == last@);
    match last {
        PathPart::Normal(file) => {
            let v = chars_of(file.as_str());
            let mut i = v.len();
            while i > 0 && v[i - 1] != '.'
                invariant
                    i <= v.len(),
                    v@ == file@,
                    forall|j: int| i <= j < v.len() ==> v@[j] != '.',
                decreases i,
            {
                i -= 1;
            }
            proof {
                lemma_last_index_of(v@, '.');
                reveal_strlit("md");
                if i > 0 {
                    assert(last_index_of(v@, '.') == Some(i - 1)) by {
                        match last_index_of(v@, '.') {
                            Some(k) => {
                                if k != i - 1 {
                                    assert(v@[i - 1] == '.');
                                }
                            },
                            None => {
                                assert(v@[i - 1] == '.');
                            },
                        }
                    }
                } else {
                    assert(last_index_of(v@, '.') is None);
                }
            }
            if i <= 1 {
                return false;
            }
            let n = v.len();
            let r = n - i == 2 && v[i] == 'm' && v[i + 1] == 'd';
            proof {
                let ext = v@.subrange(i as int, n as int);
                if n - i == 2 {
                    if v@[i as int] == 'm' && v@[i + 1] == 'd' {
                        assert(ext =~= "md"@);
                    } else {
                        assert(ext[0] == v@[i as int] && ext[1] == v@[i + 1]);
                        assert(ext != "md"@);
                    }
                } else {
                    assert(ext.len() != 2);
                }
            }
            r
        },
        _ => false,
    }
}

/// Whether a document is shaped like a specification of this convention.
///
/// The shape is the filename, because a generic document under `specs/` is
/// the project's own and is not this convention's specification missing a
/// rule. Calling that structural would sweep files nobody adopted.
pub fn is_spec_shaped(name: &str) -> (r: bool)
    ensures
        r == (has_prefix(name@, "SPEC-"@) && markdown_spec(name@)),
{
    starts_with(name, "SPEC-") && is_markdown(name)
}

/// Whether a document is shaped like a decision record.
pub fn is_record_shaped(name: &str) -> (r: bool)
    ensures
        r == (has_prefix(name@, "ADR-"@) && markdown_spec(name@)),
{
    starts_with(name, "ADR-") && is_markdown(name)
}

} // verus!
