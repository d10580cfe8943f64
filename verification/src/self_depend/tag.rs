//! Release versions as this tool's releases spell them.
//!
//! A manager file may pin any version the `semver` crate reads, a
//! prerelease among them; a release tag must name a released triple.

use vstd::prelude::*;

use crate::text::{append, chars_of, decimal, owned, push_char, push_decimal, string_of, trim_spec};
use crate::version::CanonVersion;

verus! {

/// A version of the `semver` crate.
#[verifier::external_type_specification]
#[verifier::external_body]
pub struct SemverCrateVersion(semver::Version);

/// A version as `semver::Version` holds it, its prerelease and build
/// metadata as text, empty where absent, beside the crate's own value it
/// was read as. Only a reading makes one, so the parts are always those
/// of the value beside them; they are read through the methods below.
#[derive(Debug)]
pub struct SemVer {
    /// The major part.
    major: u64,
    /// The minor part.
    minor: u64,
    /// The patch part.
    patch: u64,
    /// The prerelease identifiers, dot-separated.
    pre: String,
    /// The build metadata, dot-separated.
    build: String,
    /// The value the crate read, which orders versions.
    raw: semver::Version,
}

/// A version as plain values.
pub closed spec fn semver_model(v: SemVer) -> (u64, u64, u64, Seq<char>, Seq<char>) {
    (v.major, v.minor, v.patch, v.pre@, v.build@)
}

/// How a version is spelled: the triple, then `-` and the prerelease and
/// `+` and the build metadata, each where present.
pub open spec fn semver_text(v: (u64, u64, u64, Seq<char>, Seq<char>)) -> Seq<char> {
    decimal(v.0 as nat) + "."@ + decimal(v.1 as nat) + "."@ + decimal(v.2 as nat) + (if v.3.len() > 0 {
        "-"@ + v.3
    } else {
        Seq::empty()
    }) + (if v.4.len() > 0 {
        "+"@ + v.4
    } else {
        Seq::empty()
    })
}

/// What `semver::Version` reads from a text: the parts of the version it
/// spells, or nothing where it spells none.
pub uninterp spec fn semver_reading(text: Seq<char>) -> Option<(u64, u64, u64, Seq<char>, Seq<char>)>;

/// Read a version with `semver::Version`'s `FromStr`.
///
/// Trusted: what comes back is named by `semver_reading`, a function of
/// the text alone, the prerelease and build metadata taken as the crate
/// spells them back.
#[verifier::external_body]
pub(crate) fn parse_semver(text: &str) -> (r: Option<SemVer>)
    ensures
        match r {
            Some(v) => semver_reading(text@) == Some(semver_model(v)),
            None => semver_reading(text@) is None,
        },
{
    match text.parse::<semver::Version>() {
        Ok(v) => Some(SemVer {
            major: v.major,
            minor: v.minor,
            patch: v.patch,
            pre: v.pre.as_str().to_string(),
            build: v.build.as_str().to_string(),
            raw: v,
        }),
        Err(_) => None,
    }
}

/// Whether `semver::Version` orders the first version before the second:
/// by major, minor and patch, then a prerelease before its release, then
/// by prerelease and build identifiers.
pub uninterp spec fn semver_lt(a: (u64, u64, u64, Seq<char>, Seq<char>), b: (u64, u64, u64, Seq<char>, Seq<char>)) -> bool;

/// Whether the triple of one version comes before another's.
pub open spec fn triple_lt(a: (u64, u64, u64, Seq<char>, Seq<char>), b: (u64, u64, u64, Seq<char>, Seq<char>)) -> bool {
    a.0 < b.0 || (a.0 == b.0 && (a.1 < b.1 || (a.1 == b.1 && a.2 < b.2)))
}

/// Whether two versions share major, minor and patch.
pub open spec fn same_triple(a: (u64, u64, u64, Seq<char>, Seq<char>), b: (u64, u64, u64, Seq<char>, Seq<char>)) -> bool {
    a.0 == b.0 && a.1 == b.1 && a.2 == b.2
}

impl SemVer {
    /// Read a version as the `semver` crate reads one.
    pub fn parse(text: &str) -> (r: Option<SemVer>)
        ensures
            match r {
                Some(v) => semver_reading(text@) == Some(semver_model(v)),
                None => semver_reading(text@) is None,
            },
    {
        parse_semver(text)
    }

    /// The major part.
    pub fn major(&self) -> (r: u64)
        ensures
            r == semver_model(*self).0,
    {
        self.major
    }

    /// The minor part.
    pub fn minor(&self) -> (r: u64)
        ensures
            r == semver_model(*self).1,
    {
        self.minor
    }

    /// The patch part.
    pub fn patch(&self) -> (r: u64)
        ensures
            r == semver_model(*self).2,
    {
        self.patch
    }

    /// The prerelease identifiers, dot-separated, empty where absent.
    pub fn pre(&self) -> (r: &str)
        ensures
            r@ == semver_model(*self).3,
    {
        self.pre.as_str()
    }

    /// The build metadata, dot-separated, empty where absent.
    pub fn build(&self) -> (r: &str)
        ensures
            r@ == semver_model(*self).4,
    {
        self.build.as_str()
    }

    /// Whether this version comes before `other` in `semver::Version`'s
    /// order.
    ///
    /// Trusted: the crate compares with `<`, named by `semver_lt`; its
    /// documented precedence compares major, minor and patch first, so
    /// two versions whose triples differ are ordered by them.
    #[verifier::external_body]
    pub fn precedes(&self, other: &SemVer) -> (r: bool)
        ensures
            r == semver_lt(semver_model(*self), semver_model(*other)),
            !same_triple(semver_model(*self), semver_model(*other)) ==> r == triple_lt(
                semver_model(*self),
                semver_model(*other),
            ),
    {
        self.raw < other.raw
    }

    /// The released triple this version is, where it carries neither a
    /// prerelease nor build metadata.
    pub fn released_triple(&self) -> (r: Option<CanonVersion>)
        ensures
            match r {
                Some(v) => semver_model(*self).3.len() == 0 && semver_model(*self).4.len() == 0 && v.major
                    == semver_model(*self).0 && v.minor == semver_model(*self).1 && v.patch == semver_model(
                    *self,
                ).2,
                None => semver_model(*self).3.len() > 0 || semver_model(*self).4.len() > 0,
            },
    {
        if self.pre.unicode_len() == 0 && self.build.unicode_len() == 0 {
            Some(CanonVersion { major: self.major, minor: self.minor, patch: self.patch })
        } else {
            None
        }
    }

    /// Whether this version is a release rather than a prerelease.
    pub fn is_release(&self) -> (r: bool)
        ensures
            r == (semver_model(*self).3.len() == 0),
    {
        self.pre.unicode_len() == 0
    }

    /// The spelling, as `Display` prints it.
    pub fn to_text(&self) -> (s: String)
        ensures
            s@ == semver_text(semver_model(*self)),
    {
        let mut s = String::new();
        push_decimal(&mut s, self.major);
        push_char(&mut s, '.');
        push_decimal(&mut s, self.minor);
        push_char(&mut s, '.');
        push_decimal(&mut s, self.patch);
        proof {
            reveal_strlit(".");
            reveal_strlit("-");
            reveal_strlit("+");
        }
        let ghost head = s@;
        assert(head =~= decimal(self.major as nat) + "."@ + decimal(self.minor as nat) + "."@ + decimal(
            self.patch as nat,
        ));
        if self.pre.unicode_len() > 0 {
            push_char(&mut s, '-');
            append(&mut s, self.pre.as_str());
        }
        let ghost mid = s@;
        assert(mid =~= head + (if self.pre@.len() > 0 {
            "-"@ + self.pre@
        } else {
            Seq::empty()
        }));
        if self.build.unicode_len() > 0 {
            push_char(&mut s, '+');
            append(&mut s, self.build.as_str());
        }
        assert(s@ =~= mid + (if self.build@.len() > 0 {
            "+"@ + self.build@
        } else {
            Seq::empty()
        }));
        s
    }
}

/// What follows the last `/` of a text, or the whole of it where it has
/// none.
pub open spec fn after_last_slash(s: Seq<char>) -> Seq<char>
    decreases s.len(),
{
    if s.len() == 0 {
        s
    } else if s.last() == '/' {
        Seq::empty()
    } else {
        after_last_slash(s.drop_last()).push(s.last())
    }
}

/// A text without one leading `v`, where it has one.
pub open spec fn without_v(s: Seq<char>) -> Seq<char> {
    if s.len() > 0 && s[0] == 'v' {
        s.drop_first()
    } else {
        s
    }
}

/// The version a tag spells: the last path piece of the trimmed value,
/// trimmed, without a leading `v`.
pub open spec fn tag_version_text(value: Seq<char>) -> Seq<char> {
    without_v(trim_spec(after_last_slash(trim_spec(value))))
}

/// What a tag reads as: a released triple, or the refusal naming it.
pub open spec fn tag_read(value: Seq<char>) -> Result<(u64, u64, u64), Seq<char>> {
    match semver_reading(tag_version_text(value)) {
        None => Err(value + " is not a release tag: expected v<major>.<minor>.<patch>"@),
        Some(v) => if v.3.len() > 0 || v.4.len() > 0 {
            Err(value + " is not a released triple"@)
        } else {
            Ok((v.0, v.1, v.2))
        },
    }
}

/// Read a release tag in any spelling an operator uses: `v0.2.16`,
/// `0.2.16`, or the release page URL ending in the tag.
pub fn parse_tag(value: &str) -> (r: Result<CanonVersion, String>)
    ensures
        match r {
            Ok(v) => tag_read(value@) == Ok::<(u64, u64, u64), Seq<char>>((v.major, v.minor, v.patch)),
            Err(m) => tag_read(value@) == Err::<(u64, u64, u64), Seq<char>>(m@),
        },
{
    let trimmed = crate::text::trim(value);
    let v = chars_of(trimmed.as_str());
    let mut start = v.len();
    assert(v@.take(v.len() as int) =~= v@);
    assert(v@ + v@.skip(v.len() as int) =~= v@);
    while start > 0 && v[start - 1] != '/'
        invariant
            start <= v.len(),
            after_last_slash(v@) == after_last_slash(v@.take(start as int)) + v@.skip(start as int),
        decreases start,
    {
        assert(v@.take(start as int).drop_last() =~= v@.take(start - 1));
        assert(v@.take(start as int).last() == v@[start - 1]);
        assert(v@.skip(start - 1) =~= seq![v@[start - 1]] + v@.skip(start as int));
        assert(after_last_slash(v@.take(start - 1)).push(v@[start - 1]) + v@.skip(start as int) =~= after_last_slash(v@.take(start - 1)) + v@.skip(start - 1));
        start -= 1;
    }
    proof {
        if start > 0 {
            assert(v@.take(start as int).last() == v@[start - 1]);
        }
        assert(after_last_slash(v@.take(start as int)) =~= Seq::<char>::empty());
        assert(v@.take(v.len() as int) =~= v@);
    }
    let tail = string_of(&v, start, v.len());
    assert(tail@ =~= v@.skip(start as int));
    let tail = crate::text::trim(tail.as_str());
    let tv = chars_of(tail.as_str());
    let bare = if tv.len() > 0 && tv[0] == 'v' {
        string_of(&tv, 1, tv.len())
    } else {
        string_of(&tv, 0, tv.len())
    };
    assert(bare@ =~= without_v(tv@));
    match parse_semver(bare.as_str()) {
        None => {
            let mut m = owned(value);
            append(&mut m, " is not a release tag: expected v<major>.<minor>.<patch>");
            Err(m)
        },
        Some(sv) => {
            if sv.pre.unicode_len() > 0 || sv.build.unicode_len() > 0 {
                let mut m = owned(value);
                append(&mut m, " is not a released triple");
                Err(m)
            } else {
                Ok(CanonVersion { major: sv.major, minor: sv.minor, patch: sv.patch })
            }
        },
    }
}

} // verus!
