//! Paths spelled as text: one relative path adjoined to another.

use vstd::prelude::*;

verus! {

/// `base` with the relative path `rel` adjoined: one separator between
/// them unless `base` already ends in one.
pub open spec fn joined_path(base: Seq<char>, rel: Seq<char>) -> Seq<char> {
    if base.last() == '/' {
        base + rel
    } else {
        base + seq!['/'] + rel
    }
}

/// Whether a path is one `joined_path` adjoins: not empty, and not rooted.
pub open spec fn is_relative_piece(rel: Seq<char>) -> bool {
    rel.len() > 0 && rel[0] != '/'
}

/// `camino::Utf8Path::join` with a relative path on a non-empty base.
///
/// Trusted: camino adjoins as `std::path::PathBuf::push` does, which for a
/// relative path on a non-empty base adds one `/` unless the base already
/// ends in one and then appends the path. Nothing is claimed for an empty
/// base or a rooted path, which the `requires` leaves out.
#[verifier::external_body]
pub(crate) fn path_join(base: &str, rel: &str) -> (out: String)
    requires
        base@.len() > 0,
        is_relative_piece(rel@),
    ensures
        out@ == joined_path(base@, rel@),
{
    camino::Utf8Path::new(base).join(rel).into_string()
}

} // verus!
