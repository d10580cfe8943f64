//! Which release a caller asked for.

use vstd::prelude::*;

use crate::self_depend::tag::{semver_model, semver_reading, semver_text, SemVer};
use crate::text::{append, owned, same_text};
use crate::version::CanonVersion;

verus! {

/// Which release a caller asked for.
#[derive(Debug)]
pub enum Selector {
    /// The release this binary carries.
    Embedded,
    /// The highest stable release the registry serves.
    Latest,
    /// Exactly this version.
    Exact(SemVer),
}

/// How a selector is written.
pub open spec fn selector_text(s: Selector) -> Seq<char> {
    match s {
        Selector::Embedded => "embedded"@,
        Selector::Latest => "latest"@,
        Selector::Exact(v) => semver_text(semver_model(v)),
    }
}

/// What a `--to` value selects: the two words, or a version the `semver`
/// crate reads; anything else is refused, naming the value.
pub open spec fn selector_read(value: Seq<char>) -> Result<Option<(u64, u64, u64, Seq<char>, Seq<char>)>, Seq<char>> {
    if value == "embedded"@ || value == "latest"@ {
        Ok(None)
    } else {
        match semver_reading(value) {
            Some(m) => Ok(Some(m)),
            None => Err("--to takes embedded, latest, or a semantic version; "@ + value + " is none of those"@),
        }
    }
}

impl Selector {
    /// How this selector is written, as `Display` prints it.
    pub fn text(&self) -> (s: String)
        ensures
            s@ == selector_text(*self),
    {
        match self {
            Selector::Embedded => owned("embedded"),
            Selector::Latest => owned("latest"),
            Selector::Exact(v) => v.to_text(),
        }
    }

    /// Read what a `--to` value selects.
    pub fn parse(value: &str) -> (r: Result<Selector, String>)
        ensures
            match r {
                Ok(Selector::Embedded) => value@ == "embedded"@,
                Ok(Selector::Latest) => value@ == "latest"@,
                Ok(Selector::Exact(v)) => selector_read(value@) == Ok::<
                    Option<(u64, u64, u64, Seq<char>, Seq<char>)>,
                    Seq<char>,
                >(Some(semver_model(v))),
                Err(m) => selector_read(value@) == Err::<
                    Option<(u64, u64, u64, Seq<char>, Seq<char>)>,
                    Seq<char>,
                >(m@),
            },
    {
        if same_text(value, "embedded") {
            return Ok(Selector::Embedded);
        }
        if same_text(value, "latest") {
            return Ok(Selector::Latest);
        }
        match SemVer::parse(value) {
            Some(v) => Ok(Selector::Exact(v)),
            None => {
                let mut m = owned("--to takes embedded, latest, or a semantic version; ");
                append(&mut m, value);
                append(&mut m, " is none of those");
                Err(m)
            },
        }
    }
}

/// The resolved version as an instance record spells it: a released
/// triple, since a record holds nothing else.
pub fn canon_version(version: &SemVer) -> (r: Result<CanonVersion, String>)
    ensures
        match r {
            Ok(v) => semver_model(*version).3.len() == 0 && semver_model(*version).4.len() == 0 && v.major
                == semver_model(*version).0 && v.minor == semver_model(*version).1 && v.patch == semver_model(
                *version,
            ).2,
            Err(m) => (semver_model(*version).3.len() > 0 || semver_model(*version).4.len() > 0) && m@
                == semver_text(semver_model(*version))
                + " is not a released triple, so no instance record can name it"@,
        },
{
    match version.released_triple() {
        Some(v) => Ok(v),
        None => {
            let mut m = version.to_text();
            append(&mut m, " is not a released triple, so no instance record can name it");
            Err(m)
        },
    }
}

} // verus!
