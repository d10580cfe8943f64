//! What a project declares about itself that the rendered blocks read.

use vstd::prelude::*;

use crate::text::{append, owned};

verus! {

/// Which writing source a project selects.
#[derive(Debug, Clone, Copy, PartialEq, Eq, Structural)]
pub enum WritingSource {
    /// The method's own writing style.
    Builtin,
    /// A document the project keeps.
    Project,
    /// No writing style at all.
    NoStyle,
}

/// A project's writing-style selection.
#[derive(Debug, Clone, PartialEq, Eq)]
pub struct WritingStyle {
    /// Which source.
    pub source: WritingSource,
    /// The project's document, where the source is the project's.
    pub path: Option<String>,
}

impl Default for WritingStyle {
    fn default() -> (w: WritingStyle)
        ensures
            w.source is Builtin,
            w.path is None,
    {
        WritingStyle { source: WritingSource::Builtin, path: None }
    }
}

/// Where a selection routes a reader: the method's command for the
/// built-in style, the project's document where it names one, and nowhere
/// otherwise.
pub open spec fn route_of(w: WritingStyle) -> Option<Seq<char>> {
    match w.source {
        WritingSource::Builtin => Some("`sdd method writing-style`"@),
        WritingSource::Project => match w.path {
            Some(p) => Some("`"@ + p@ + "`"@),
            None => None,
        },
        WritingSource::NoStyle => None,
    }
}

impl WritingStyle {
    /// Where this selection routes a reader, as the block writes it.
    pub fn route(&self) -> (r: Option<String>)
        ensures
            match r {
                Some(x) => route_of(*self) == Some(x@),
                None => route_of(*self) is None,
            },
    {
        match self.source {
            WritingSource::Builtin => Some(owned("`sdd method writing-style`")),
            WritingSource::Project => match &self.path {
                Some(p) => {
                    let mut r = owned("`");
                    append(&mut r, p.as_str());
                    append(&mut r, "`");
                    Some(r)
                },
                None => None,
            },
            WritingSource::NoStyle => None,
        }
    }
}

} // verus!
