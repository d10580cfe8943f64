//! Which shape of documentation an instance lands.

use vstd::prelude::*;

verus! {

/// A profile an instance lands.
#[derive(Debug, Clone, Copy, PartialEq, Eq, PartialOrd, Ord, Hash, Structural)]
pub enum ProfileId {
    /// Documentation that lives beside the code it describes.
    Codebase,
    /// A corpus that is documentation through and through.
    KnowledgeBase,
}

/// The word a profile is written as.
pub open spec fn profile_word(p: ProfileId) -> Seq<char> {
    match p {
        ProfileId::Codebase => "codebase"@,
        ProfileId::KnowledgeBase => "knowledge-base"@,
    }
}

/// The profile a word names, where it names one.
pub open spec fn profile_named(w: Seq<char>) -> Option<ProfileId> {
    if w == profile_word(ProfileId::Codebase) {
        Some(ProfileId::Codebase)
    } else if w == profile_word(ProfileId::KnowledgeBase) {
        Some(ProfileId::KnowledgeBase)
    } else {
        None
    }
}

impl ProfileId {
    /// The profile a word names, where it names one.
    pub fn from_word(word: &str) -> (r: Option<ProfileId>)
        ensures
            r == profile_named(word@),
    {
        if crate::text::same_text(word, "codebase") {
            Some(ProfileId::Codebase)
        } else if crate::text::same_text(word, "knowledge-base") {
            Some(ProfileId::KnowledgeBase)
        } else {
            None
        }
    }

    /// The word this profile is written as.
    pub fn as_str(self) -> (r: &'static str)
        ensures
            r@ == profile_word(self),
    {
        match self {
            ProfileId::Codebase => "codebase",
            ProfileId::KnowledgeBase => "knowledge-base",
        }
    }
}

} // verus!
