//! Where a stage goes, what it is called, and what its receipt says of
//! the declaration it renders. Rendering the candidate into the stage
//! and writing it are the command layer's.

use vstd::prelude::*;

use crate::digest::Sha256;
use crate::error::{AppError, Fault};
use crate::instance_config::{WritingSource, WritingStyle};
use crate::paths::{is_relative_piece, joined_path, path_join};
use crate::plan::operation::{components_of, path_components, PartModel, PathPart};
use crate::text::{append, owned, string_of};

pub mod contents;

verus! {

/// Which rule chose the stage root, for the report that names it.
#[derive(Debug, Clone, Copy, PartialEq, Eq, Structural)]
pub enum RootSource {
    /// The `--output` flag.
    Flag,
    /// The automation's base directory of stages.
    Environment,
    /// This tool's own state root.
    Default,
}

/// The last component of a path, where it is an ordinary one.
pub open spec fn leaf_of(path: Seq<char>) -> Option<Seq<char>> {
    let parts = path_components(path);
    if parts.len() > 0 {
        match parts.last() {
            PartModel::Normal(n) => Some(n),
            _ => None,
        }
    } else {
        None
    }
}

/// A stage's name: the target's leaf, or `target` where it has none, and
/// the first twelve characters of the digest of the target's path.
pub open spec fn stage_name_of(target: Seq<char>) -> Seq<char> {
    (match leaf_of(target) {
        Some(n) => n,
        None => "target"@,
    }) + "-"@ + crate::digest::digest_text(vstd::utf8::encode_utf8(target)).take(12)
}

/// A stage's name, from the target it stages.
pub fn stage_name(target: &str) -> (r: String)
    ensures
        r@ == stage_name_of(target@),
{
    let parts = components_of(target);
    let ghost pm = parts@.map_values(|p: PathPart| p@);
    let n = parts.len();
    let mut name = if n == 0 {
        owned("target")
    } else {
        assert(pm.last() == parts@[n - 1]@);
        match &parts[n - 1] {
            PathPart::Normal(leaf) => owned(leaf.as_str()),
            _ => owned("target"),
        }
    };
    append(&mut name, "-");
    let digest = Sha256::of(target.as_bytes());
    let hex = crate::text::chars_of(digest.as_str());
    assert(crate::digest::is_digest_text(digest@));
    append(&mut name, string_of(&hex, 0, 12).as_str());
    assert(hex@.subrange(0, 12) =~= hex@.take(12));
    name
}

/// A path with a relative piece adjoined, as `Utf8Path::join` adjoins it;
/// on an empty base the piece alone.
pub open spec fn adjoined(base: Seq<char>, rel: Seq<char>) -> Seq<char> {
    if base.len() == 0 {
        rel
    } else {
        joined_path(base, rel)
    }
}

fn adjoin(base: &str, rel: &str) -> (r: String)
    requires
        is_relative_piece(rel@),
    ensures
        r@ == adjoined(base@, rel@),
{
    if base.unicode_len() == 0 {
        owned(rel)
    } else {
        path_join(base, rel)
    }
}

/// Where a stage goes, and which rule decided: the flag wins, then the
/// automation's base where it is set and not empty, then the state root.
pub open spec fn stage_root_of(
    target: Seq<char>,
    output: Option<Seq<char>>,
    env: Option<Seq<char>>,
    state_root: Seq<char>,
) -> (Seq<char>, RootSource) {
    match output {
        Some(named) => (named, RootSource::Flag),
        None => match env {
            Some(base) => if base.len() > 0 {
                (joined_path(base, stage_name_of(target)), RootSource::Environment)
            } else {
                (adjoined(adjoined(state_root, "stages"@), stage_name_of(target)), RootSource::Default)
            },
            None => (adjoined(adjoined(state_root, "stages"@), stage_name_of(target)), RootSource::Default),
        },
    }
}

/// Where a stage goes, and which rule decided; a root that is not
/// absolute is a usage error, naming it.
pub fn resolve_root(target: &str, output: Option<&str>, env: Option<&str>, state_root: &str) -> (r: Result<
    (String, RootSource),
    AppError,
>)
    ensures
        ({
            let (root, source) = stage_root_of(
                target@,
                match output {
                    Some(o) => Some(o@),
                    None => None,
                },
                match env {
                    Some(e) => Some(e@),
                    None => None,
                },
                state_root@,
            );
            if root.len() > 0 && root[0] == '/' {
                r matches Ok((s, src)) && s@ == root && src == source
            } else {
                r matches Err(e) && e@ == Fault::Usage("the stage root must be absolute: "@ + root)
            }
        }),
{
    proof {
        reveal_strlit("stages");
    }
    let name = stage_name(target);
    assert(name@.len() > 0) by {
        reveal_strlit("target");
        reveal_strlit("-");
    }
    assert(is_relative_piece(name@)) by {
        reveal_strlit("target");
        reveal_strlit("-");
        let leaf = match leaf_of(target@) {
            Some(n) => n,
            None => "target"@,
        };
        if leaf.len() > 0 {
            lemma_normal_part_unrooted(target@);
        }
    }
    let (root, source) = match output {
        Some(named) => (owned(named), RootSource::Flag),
        None => {
            let base_set = match env {
                Some(base) => base.unicode_len() > 0,
                None => false,
            };
            if base_set {
                let base = match env {
                    Some(b) => b,
                    None => "",
                };
                (path_join(base, name.as_str()), RootSource::Environment)
            } else {
                let stages = adjoin(state_root, "stages");
                (adjoin(stages.as_str(), name.as_str()), RootSource::Default)
            }
        },
    };
    let v = crate::text::chars_of(root.as_str());
    if v.len() > 0 && v[0] == '/' {
        Ok((root, source))
    } else {
        let mut m = owned("the stage root must be absolute: ");
        append(&mut m, root.as_str());
        Err(AppError::Usage(m))
    }
}

/// No piece between separators holds a separator.
proof fn lemma_pieces_hold_no_slash(s: Seq<char>)
    ensures
        forall|k: int| 0 <= k < crate::plan::operation::split_slash(s).len() ==> !(#[trigger] crate::plan::operation::split_slash(s)[k]).contains('/'),
    decreases s.len(),
{
    let pieces = crate::plan::operation::split_slash(s);
    crate::text::lemma_first_index_from(s, '/', 0);
    match crate::text::first_index_from(s, '/', 0) {
        None => {
            assert(pieces == seq![s]);
            assert(!s.contains('/')) by {
                if s.contains('/') {
                    let j = choose|j: int| 0 <= j < s.len() && s[j] == '/';
                }
            }
        },
        Some(i) => {
            if 0 <= i < s.len() {
                lemma_pieces_hold_no_slash(s.skip(i + 1));
                let rest = crate::plan::operation::split_slash(s.skip(i + 1));
                assert(pieces == seq![s.take(i)] + rest);
                assert(!s.take(i).contains('/')) by {
                    if s.take(i).contains('/') {
                        let j = choose|j: int| 0 <= j < s.take(i).len() && s.take(i)[j] == '/';
                        assert(s[j] == '/');
                    }
                }
                assert forall|k: int| 0 <= k < pieces.len() implies !(#[trigger] pieces[k]).contains('/') by {
                    if k > 0 {
                        assert(pieces[k] == rest[k - 1]);
                    }
                }
            }
        },
    }
}

/// An ordinary component never starts with a separator.
proof fn lemma_normal_part_unrooted(path: Seq<char>)
    ensures
        leaf_of(path) matches Some(n) ==> n.len() == 0 || n[0] != '/',
{
    let pieces = crate::plan::operation::split_slash(path);
    let named = pieces.filter(|p: Seq<char>| crate::plan::operation::names_component(p));
    let mapped = named.map_values(|p: Seq<char>| crate::plan::operation::part_of(p));
    let root: Seq<PartModel> = if path.len() > 0 && path[0] == '/' {
        seq![PartModel::Root]
    } else {
        Seq::empty()
    };
    let current: Seq<PartModel> = if path == seq!['.'] || (path.len() >= 2 && path[0] == '.' && path[1] == '/') {
        seq![PartModel::Current]
    } else {
        Seq::empty()
    };
    let parts = path_components(path);
    assert(parts == root + current + mapped);
    if leaf_of(path) is Some && mapped.len() > 0 {
        let n = leaf_of(path)->0;
        assert(parts.last() == mapped.last());
        let last = named.last();
        assert(mapped.last() == crate::plan::operation::part_of(last));
        assert(named.contains(last)) by {
            assert(named[named.len() - 1] == last);
        }
        pieces.lemma_filter_contains_rev(|p: Seq<char>| crate::plan::operation::names_component(p), last);
        lemma_pieces_hold_no_slash(path);
        let k = choose|k: int| 0 <= k < pieces.len() && pieces[k] == last;
        assert(!pieces[k].contains('/'));
        if n.len() > 0 && n[0] == '/' {
            assert(n == last);
            assert(last.contains('/')) by {
                assert(last[0] == '/');
            }
        }
    }
}

/// The writing source a declaration selects, as one word a reader keeps.
pub open spec fn writing_style_word(w: WritingStyle) -> Seq<char> {
    match w.source {
        WritingSource::Builtin => "builtin"@,
        WritingSource::NoStyle => "none"@,
        WritingSource::Project => match w.path {
            Some(p) => "project:"@ + p@,
            None => "project"@,
        },
    }
}

/// The writing source a declaration selects, as one word a reader keeps.
pub fn writing_style_of(w: &WritingStyle) -> (r: String)
    ensures
        r@ == writing_style_word(*w),
{
    match w.source {
        WritingSource::Builtin => owned("builtin"),
        WritingSource::NoStyle => owned("none"),
        WritingSource::Project => match &w.path {
            Some(p) => {
                let mut r = owned("project:");
                append(&mut r, p.as_str());
                r
            },
            None => owned("project"),
        },
    }
}

} // verus!
