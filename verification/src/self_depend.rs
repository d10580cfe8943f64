//! How a consumer obtains this tool, and how its pin stays fresh.
//!
//! A project pins this tool through the manager it already runs, at a
//! version its manager file records. This module reads that pin, serves the
//! fragment a manager needs to take one, and moves the pin to a newer
//! release in one transaction.
//!
//! Two independent axes decide every verdict. A manager is what the project
//! declares its development tools in. A venue is where a release of this
//! tool is published. Their cross is the matrix in [`venue`], and every pair
//! carries a verdict there and nowhere else.
//!
//! The canon's home is handed in by the caller wherever the forge
//! coordinates are needed.

use vstd::prelude::*;

use crate::text::{append, chars_of, has_prefix, has_suffix, string_of};

pub mod fragments;
pub mod leftovers;
pub mod manager;
pub mod pin;
pub mod registry;
pub mod status;
pub mod tag;
pub mod venue;

verus! {

/// The binary this crate installs, as an archive names it.
pub const BINARY_NAME: &'static str = "sdd";

/// The line a project's shell loader runs on every directory entry.
pub const SYNC_LINE: &'static str = "sdd self-depend sync --apply || true";

/// The shell loader file a project keeps at its root.
pub const ENVRC: &'static str = ".envrc";

/// A text with every leading copy of `p` removed, as `trim_start_matches`
/// removes them.
pub open spec fn strip_leading(s: Seq<char>, p: Seq<char>) -> Seq<char>
    decreases s.len(),
{
    if p.len() > 0 && has_prefix(s, p) {
        strip_leading(s.skip(p.len() as int), p)
    } else {
        s
    }
}

/// A text with every trailing copy of `p` removed, as `trim_end_matches`
/// removes them.
pub open spec fn strip_trailing(s: Seq<char>, p: Seq<char>) -> Seq<char>
    decreases s.len(),
{
    if p.len() > 0 && has_suffix(s, p) {
        strip_trailing(s.take(s.len() - p.len()), p)
    } else {
        s
    }
}

/// The owner and repository a canon source names: the path after the
/// forge's address and before `.git`, split at its first `/`, or the
/// whole path and nothing where it has none.
pub open spec fn coordinates_of(source: Seq<char>) -> (Seq<char>, Seq<char>) {
    let path = strip_trailing(strip_leading(source, "https://github.com/"@), ".git"@);
    match crate::text::first_index_from(path, '/', 0) {
        Some(i) => (path.take(i), path.skip(i + 1)),
        None => (path, Seq::empty()),
    }
}

pub(crate) fn strip_all_leading(v: &Vec<char>, from: usize, p: &Vec<char>) -> (r: usize)
    requires
        from <= v.len(),
    ensures
        from <= r <= v.len(),
        v@.skip(r as int) == strip_leading(v@.skip(from as int), p@),
    decreases v.len() - from,
{
    if p.len() > 0 && v.len() - from >= p.len() && crate::text::prefix_at(v, from, p) {
        proof {
            assert(v@.skip(from as int).subrange(0, p@.len() as int) =~= v@.subrange(from as int, from + p@.len()));
            assert(v@.skip(from as int).skip(p@.len() as int) =~= v@.skip(from + p@.len()));
        }
        strip_all_leading(v, from + p.len(), p)
    } else {
        proof {
            if p@.len() > 0 && has_prefix(v@.skip(from as int), p@) {
                assert(v@.skip(from as int).subrange(0, p@.len() as int) =~= v@.subrange(from as int, from + p@.len()));
            }
        }
        from
    }
}

pub(crate) fn strip_all_trailing(v: &Vec<char>, from: usize, to: usize, p: &Vec<char>) -> (r: usize)
    requires
        from <= to <= v.len(),
    ensures
        from <= r <= to,
        v@.subrange(from as int, r as int) == strip_trailing(v@.subrange(from as int, to as int), p@),
    decreases to - from,
{
    if p.len() > 0 && to - from >= p.len() && crate::text::prefix_at(v, to - p.len(), p) {
        proof {
            let s = v@.subrange(from as int, to as int);
            assert(s.subrange(s.len() - p@.len(), s.len() as int) =~= v@.subrange(to - p@.len(), to as int));
            assert(v@.subrange(to - p@.len(), v@.len() as int).subrange(0, p@.len() as int) =~= v@.subrange(to - p@.len(), to as int));
            assert(s.take(s.len() - p@.len()) =~= v@.subrange(from as int, to - p@.len()));
        }
        strip_all_trailing(v, from, to - p.len(), p)
    } else {
        proof {
            let s = v@.subrange(from as int, to as int);
            if p@.len() > 0 && has_suffix(s, p@) {
                assert(s.subrange(s.len() - p@.len(), s.len() as int) =~= v@.subrange(to - p@.len(), to as int));
                assert(v@.subrange(to - p@.len(), v@.len() as int).subrange(0, p@.len() as int) =~= v@.subrange(to - p@.len(), to as int));
            }
        }
        to
    }
}

/// The forge owner and repository a canon source names.
pub fn coordinates(source: &str) -> (r: (String, String))
    ensures
        (r.0@, r.1@) == coordinates_of(source@),
{
    let v = chars_of(source);
    let lead = chars_of("https://github.com/");
    let tail = chars_of(".git");
    let start = strip_all_leading(&v, 0, &lead);
    assert(v@.skip(0) =~= v@);
    let end = strip_all_trailing(&v, start, v.len(), &tail);
    assert(v@.subrange(start as int, v.len() as int) =~= v@.skip(start as int));
    let ghost path = v@.subrange(start as int, end as int);
    let mut i = start;
    while i < end && v[i] != '/'
        invariant
            start <= i <= end <= v.len(),
            path == v@.subrange(start as int, end as int),
            forall|j: int| start <= j < i ==> v@[j] != '/',
        decreases end - i,
    {
        i += 1;
    }
    proof {
        crate::text::lemma_first_index_from(path, '/', 0);
        assert forall|j: int| 0 <= j < i - start implies path[j] != '/' by {
            assert(path[j] == v@[start + j]);
        }
    }
    if i == end {
        proof {
            if first_index_from_some(path) {
                let k = crate::text::first_index_from(path, '/', 0)->0;
                assert(path[k] == v@[start + k]);
            }
        }
        (string_of(&v, start, end), String::new())
    } else {
        proof {
            assert(path[i - start] == '/');
            if crate::text::first_index_from(path, '/', 0) != Some(i - start) {
                let k = crate::text::first_index_from(path, '/', 0)->0;
                assert(path[k] == v@[start + k]);
            }
            assert(path.take(i - start) =~= v@.subrange(start as int, i as int));
            assert(path.skip(i - start + 1) =~= v@.subrange(i + 1, end as int));
        }
        (string_of(&v, start, i), string_of(&v, i + 1, end))
    }
}

spec fn first_index_from_some(path: Seq<char>) -> bool {
    crate::text::first_index_from(path, '/', 0) is Some
}

/// The `owner/repo` slug the forge and the flake reference use.
pub fn slug(source: &str) -> (r: String)
    ensures
        r@ == coordinates_of(source@).0 + "/"@ + coordinates_of(source@).1,
{
    let (owner, repo) = coordinates(source);
    let mut r = owner;
    append(&mut r, "/");
    append(&mut r, repo.as_str());
    r
}

} // verus!
