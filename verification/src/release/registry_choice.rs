//! Which release the registry answers a selector with.
//!
//! Fetching the index and the archive, and the cache of identities, are
//! the command layer's. What the index lists, and which of its entries a
//! selector names, are decided here.

use vstd::prelude::*;

use crate::error::{AppError, Fault};
use crate::json_doc::{get, json_read, member, read_json, Json, JsonModel};
use crate::release::selector::Selector;
use crate::self_depend::pin::{lines, lines_of};
use crate::self_depend::registry::CRATE_NAME;
use crate::self_depend::tag::{semver_lt, semver_model, semver_reading, SemVer};
use crate::text::{append, owned, same_text, string_of_all, trim, trim_spec};
use crate::toml_doc::{read_utf8, utf8_refusal};

verus! {

/// One version the registry lists: its spelling, the checksum of its
/// archive, and whether it was withdrawn.
#[derive(Debug)]
pub struct RegistryEntry {
    /// The version as the index spells it.
    pub vers: String,
    /// The archive's checksum.
    pub cksum: String,
    /// Whether the version was yanked.
    pub yanked: bool,
}

/// An entry as plain values.
pub open spec fn entry_view(e: RegistryEntry) -> (Seq<char>, Seq<char>, bool) {
    (e.vers@, e.cksum@, e.yanked)
}

/// What one index line reads as, or why it cannot be read: a version and
/// a checksum are owed, and an absent yanked mark means not yanked.
pub open spec fn registry_line(line: Seq<char>) -> Result<(Seq<char>, Seq<char>, bool), Seq<char>> {
    match json_read(line) {
        Err(m) => Err(m),
        Ok(v) => match (member(v, "vers"@), member(v, "cksum"@)) {
            (Some(JsonModel::Text(vers)), Some(JsonModel::Text(cksum))) => match member(v, "yanked"@) {
                None => Ok((vers, cksum, false)),
                Some(JsonModel::Boolean(b)) => Ok((vers, cksum, b)),
                Some(_) => Err("the yanked mark is not a boolean"@),
            },
            (Some(JsonModel::Text(_)), _) => Err("the line names no checksum"@),
            _ => Err("the line names no version"@),
        },
    }
}

/// The entries of an index's lines, blank lines skipped; or why the first
/// line that cannot be read cannot be.
pub open spec fn registry_lines(ls: Seq<Seq<char>>) -> Result<Seq<(Seq<char>, Seq<char>, bool)>, Seq<char>>
    decreases ls.len(),
{
    if ls.len() == 0 {
        Ok(Seq::empty())
    } else {
        match registry_lines(ls.drop_last()) {
            Err(m) => Err(m),
            Ok(before) => if trim_spec(ls.last()).len() == 0 {
                Ok(before)
            } else {
                match registry_line(ls.last()) {
                    Err(why) => Err(why),
                    Ok(e) => Ok(before.push(e)),
                }
            },
        }
    }
}

/// What the index served at `source` lists, or why it lists nothing a
/// resolution can use.
pub open spec fn registry_listing(source: Seq<char>, bytes: Seq<u8>) -> Result<Seq<(Seq<char>, Seq<char>, bool)>, Seq<char>> {
    if !vstd::utf8::valid_utf8(bytes) {
        Err(source + " is not text: "@ + utf8_refusal(bytes))
    } else {
        match registry_lines(lines_of(vstd::utf8::decode_utf8(bytes))) {
            Err(why) => Err(source + " carries a line this engine cannot read: "@ + why),
            Ok(es) => if es.len() == 0 {
                Err(source + " lists no version"@)
            } else {
                Ok(es)
            },
        }
    }
}

proof fn lemma_lines_refusal_stays(ls: Seq<Seq<char>>, k: int)
    requires
        0 <= k <= ls.len(),
        registry_lines(ls.take(k)) is Err,
    ensures
        registry_lines(ls) == registry_lines(ls.take(k)),
    decreases ls.len(),
{
    if k == ls.len() {
        assert(ls.take(k) =~= ls);
    } else {
        assert(ls.drop_last().take(k) =~= ls.take(k));
        lemma_lines_refusal_stays(ls.drop_last(), k);
    }
}

fn read_registry_line(line: &str) -> (r: Result<RegistryEntry, String>)
    ensures
        match r {
            Ok(e) => registry_line(line@) == Ok::<(Seq<char>, Seq<char>, bool), Seq<char>>(entry_view(e)),
            Err(m) => registry_line(line@) == Err::<(Seq<char>, Seq<char>, bool), Seq<char>>(m@),
        },
{
    let v = match read_json(line) {
        Ok(v) => v,
        Err(m) => {
            return Err(m);
        },
    };
    let vers = match get(&v, "vers") {
        Some(Json::Text(vers)) => vers,
        _ => {
            return Err(owned("the line names no version"));
        },
    };
    let cksum = match get(&v, "cksum") {
        Some(Json::Text(cksum)) => cksum,
        _ => {
            return Err(owned("the line names no checksum"));
        },
    };
    let yanked = match get(&v, "yanked") {
        None => false,
        Some(Json::Boolean(b)) => *b,
        Some(_) => {
            return Err(owned("the yanked mark is not a boolean"));
        },
    };
    Ok(RegistryEntry { vers: owned(vers.as_str()), cksum: owned(cksum.as_str()), yanked })
}

/// What the index served at `source` lists: each non-blank line a JSON
/// object naming a version, its checksum and, where it was withdrawn, a
/// yanked mark. Refused where the bytes are not text, where a line cannot
/// be read, and where the index lists no version.
pub fn registry_entries(source: &str, bytes: &[u8]) -> (r: Result<Vec<RegistryEntry>, String>)
    ensures
        match r {
            Ok(es) => registry_listing(source@, bytes@) == Ok::<Seq<(Seq<char>, Seq<char>, bool)>, Seq<char>>(
                es@.map_values(|e: RegistryEntry| entry_view(e)),
            ),
            Err(m) => registry_listing(source@, bytes@) == Err::<Seq<(Seq<char>, Seq<char>, bool)>, Seq<char>>(m@),
        },
{
    let text = match read_utf8(bytes) {
        Ok(t) => t,
        Err(m) => {
            let mut e = owned(source);
            append(&mut e, " is not text: ");
            append(&mut e, m.as_str());
            return Err(e);
        },
    };
    let ls = lines(text.as_str());
    let ghost lv = lines_of(text@);
    let mut entries: Vec<RegistryEntry> = Vec::new();
    let mut i: usize = 0;
    assert(lv.take(0) =~= Seq::<Seq<char>>::empty());
    assert(entries@.map_values(|e: RegistryEntry| entry_view(e)) =~= Seq::<(Seq<char>, Seq<char>, bool)>::empty());
    while i < ls.len()
        invariant
            i <= ls.len(),
            ls@.map_values(|l: Vec<char>| l@) == lv,
            lv == lines_of(text@),
            text@ == vstd::utf8::decode_utf8(bytes@),
            vstd::utf8::valid_utf8(bytes@),
            registry_lines(lv.take(i as int)) == Ok::<Seq<(Seq<char>, Seq<char>, bool)>, Seq<char>>(
                entries@.map_values(|e: RegistryEntry| entry_view(e)),
            ),
        decreases ls.len() - i,
    {
        let ghost t = lv.take(i + 1);
        assert(t.drop_last() =~= lv.take(i as int));
        assert(t.last() == ls@[i as int]@);
        let line = string_of_all(&ls[i]);
        let bare = trim(line.as_str());
        let ghost before = entries@;
        if bare.unicode_len() > 0 {
            match read_registry_line(line.as_str()) {
                Ok(e) => {
                    let ghost ev = entry_view(e);
                    entries.push(e);
                    assert(entries@.map_values(|e: RegistryEntry| entry_view(e)) =~= before.map_values(
                        |e: RegistryEntry| entry_view(e),
                    ).push(ev));
                },
                Err(why) => {
                    proof {
                        lemma_lines_refusal_stays(lv, i + 1);
                    }
                    let mut m = owned(source);
                    append(&mut m, " carries a line this engine cannot read: ");
                    append(&mut m, why.as_str());
                    return Err(m);
                },
            }
        }
        i += 1;
    }
    assert(lv.take(ls.len() as int) =~= lv);
    if entries.len() == 0 {
        let mut m = owned(source);
        append(&mut m, " lists no version");
        return Err(m);
    }
    Ok(entries)
}

/// Where the first entry spelling `wanted` stands, from `from` on.
pub open spec fn first_spelling(es: Seq<(Seq<char>, Seq<char>, bool)>, wanted: Seq<char>, from: int) -> Option<int>
    decreases es.len() - from,
{
    if from < 0 || from >= es.len() {
        None
    } else if es[from].0 == wanted {
        Some(from)
    } else {
        first_spelling(es, wanted, from + 1)
    }
}

/// Whether an entry is a stable release: not yanked, read as a version,
/// and no prerelease.
pub open spec fn stable_entry(e: (Seq<char>, Seq<char>, bool)) -> bool {
    !e.2 && (semver_reading(e.0) matches Some(m) && m.3.len() == 0)
}

/// Where the newest stable entry among the first `n` stands: the later of
/// two that order equal, as a stable sort's last keeps it.
pub open spec fn newest_at(es: Seq<(Seq<char>, Seq<char>, bool)>, n: int) -> Option<int>
    decreases n,
{
    if n <= 0 {
        None
    } else {
        let best = newest_at(es, n - 1);
        let e = es[n - 1];
        if !stable_entry(e) {
            best
        } else {
            match best {
                None => Some(n - 1),
                Some(b) => if semver_lt(semver_reading(e.0).unwrap(), semver_reading(es[b].0).unwrap()) {
                    Some(b)
                } else {
                    Some(n - 1)
                },
            }
        }
    }
}

/// Where the entry a selector names stands, or the refusal: the embedded
/// release is no registry's business, so asking for it is a usage error.
pub open spec fn choice_of(selector: Selector, offline: bool, es: Seq<(Seq<char>, Seq<char>, bool)>) -> Result<int, Fault> {
    match selector {
        Selector::Embedded => Err(Fault::Usage("the embedded release is not resolved through the registry"@)),
        Selector::Exact(v) => match first_spelling(es, crate::self_depend::tag::semver_text(semver_model(v)), 0) {
            Some(i) => Ok(i),
            None => Err(
                Fault::Refused(
                    "the registry serves no "@ + CRATE_NAME@ + " "@ + crate::self_depend::tag::semver_text(
                        semver_model(v),
                    ),
                ),
            ),
        },
        Selector::Latest => if offline {
            Err(Fault::Refused(offline_latest()@))
        } else {
            match newest_at(es, es.len() as int) {
                Some(i) => Ok(i),
                None => Err(Fault::Refused("the registry serves no stable "@ + CRATE_NAME@)),
            }
        },
    }
}

/// The refusal for `latest` without the network.
pub open spec fn offline_latest() -> &'static str {
    "--offline cannot resolve latest, because only the index says which release is newest; name an exact version instead"
}

/// The refusal a read of `url` meets without the network, where it meets
/// one: an offline resolver reads nothing.
pub fn forbidden_read(offline: bool, url: &str) -> (r: Option<String>)
    ensures
        match r {
            Some(m) => offline && m@ == "--offline forbids the read of "@ + url@
                + "; drop --offline or resolve a version already cached"@,
            None => !offline,
        },
{
    if offline {
        let mut m = owned("--offline forbids the read of ");
        append(&mut m, url);
        append(&mut m, "; drop --offline or resolve a version already cached");
        Some(m)
    } else {
        None
    }
}

fn copy_entry(e: &RegistryEntry) -> (r: RegistryEntry)
    ensures
        entry_view(r) == entry_view(*e),
{
    RegistryEntry { vers: owned(e.vers.as_str()), cksum: owned(e.cksum.as_str()), yanked: e.yanked }
}

/// The entry the registry answers a selector with: the first spelling an
/// exact version, or the newest stable release for `latest`, which the
/// network alone can answer. The embedded release is no registry's.
pub fn choose_entry(selector: &Selector, offline: bool, entries: &Vec<RegistryEntry>) -> (r: Result<
    RegistryEntry,
    AppError,
>)
    ensures
        match choice_of(*selector, offline, entries@.map_values(|e: RegistryEntry| entry_view(e))) {
            Ok(i) => r matches Ok(e) && 0 <= i < entries@.len() && entry_view(e) == entry_view(entries@[i]),
            Err(f) => r matches Err(t) && t@ == f,
        },
{
    let ghost es = entries@.map_values(|e: RegistryEntry| entry_view(e));
    match selector {
        Selector::Embedded => Err(AppError::Usage(owned("the embedded release is not resolved through the registry"))),
        Selector::Exact(v) => {
            let wanted = v.to_text();
            let mut i: usize = 0;
            while i < entries.len()
                invariant
                    i <= entries.len(),
                    es == entries@.map_values(|e: RegistryEntry| entry_view(e)),
                    wanted@ == crate::self_depend::tag::semver_text(semver_model(*v)),
                    *selector == Selector::Exact(*v),
                    first_spelling(es, wanted@, 0) == first_spelling(es, wanted@, i as int),
                decreases entries.len() - i,
            {
                assert(es[i as int] == entry_view(entries@[i as int]));
                if same_text(entries[i].vers.as_str(), wanted.as_str()) {
                    assert(first_spelling(es, wanted@, i as int) == Some(i as int));
                    assert(choice_of(*selector, offline, es) == Ok::<int, Fault>(i as int));
                    let found = copy_entry(&entries[i]);
                    assert(entry_view(found) == entry_view(entries@[i as int]));
                    return Ok(found);
                }
                i += 1;
            }
            let mut m = owned("the registry serves no ");
            append(&mut m, CRATE_NAME);
            append(&mut m, " ");
            append(&mut m, wanted.as_str());
            Err(AppError::Refused(m))
        },
        Selector::Latest => {
            if offline {
                return Err(AppError::Refused(owned(
                    "--offline cannot resolve latest, because only the index says which release is newest; name an exact version instead",
                )));
            }
            let mut best: Option<usize> = None;
            let mut best_version: Option<SemVer> = None;
            let mut i: usize = 0;
            while i < entries.len()
                invariant
                    i <= entries.len(),
                    es == entries@.map_values(|e: RegistryEntry| entry_view(e)),
                    best == match newest_at(es, i as int) {
                        Some(b) => Some(b as usize),
                        None => None::<usize>,
                    },
                    best_version is Some ==> newest_at(es, i as int) is Some,
                    newest_at(es, i as int) matches Some(b) ==> 0 <= b < i && (best_version matches Some(bv)
                        && Some(semver_model(bv)) == semver_reading(es[b].0)),
                decreases entries.len() - i,
            {
                assert(es[i as int] == entry_view(entries@[i as int]));
                let ghost prev = newest_at(es, i as int);
                if !entries[i].yanked {
                    match SemVer::parse(entries[i].vers.as_str()) {
                        Some(v) => {
                            if v.is_release() {
                                assert(stable_entry(es[i as int]));
                                let keep = match &best_version {
                                    Some(b) => v.precedes(b),
                                    None => false,
                                };
                                if !keep {
                                    assert(newest_at(es, i + 1) == Some(i as int));
                                    best = Some(i);
                                    best_version = Some(v);
                                } else {
                                    assert(newest_at(es, i + 1) == prev);
                                }
                            } else {
                                assert(!stable_entry(es[i as int]));
                                assert(newest_at(es, i + 1) == prev);
                            }
                        },
                        None => {
                            assert(!stable_entry(es[i as int]));
                            assert(newest_at(es, i + 1) == prev);
                        },
                    }
                } else {
                    assert(!stable_entry(es[i as int]));
                    assert(newest_at(es, i + 1) == prev);
                }
                i += 1;
            }
            match best {
                Some(b) => {
                    assert(es[b as int] == entry_view(entries@[b as int]));
                    Ok(copy_entry(&entries[b]))
                },
                None => {
                    let mut m = owned("the registry serves no stable ");
                    append(&mut m, CRATE_NAME);
                    Err(AppError::Refused(m))
                },
            }
        },
    }
}

} // verus!
