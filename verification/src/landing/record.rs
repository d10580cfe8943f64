//! The instance record, read as the installation it vouches for.
//!
//! Reading the record's bytes and hashing the files it names are the
//! command layer's work; what they found arrives here as text and
//! digests. Which schema wrote the record, which entries it can vouch
//! for, and whether every path it names is one an operation may name are
//! decided here.

use vstd::prelude::*;

use crate::digest::{digest_text, is_digest_text, Sha256};
use crate::json_doc::{get, json_models, json_read, lemma_json_models, member, read_json, Json, JsonModel};
use crate::landing::observe::{digest_view, Installation, RecordedBlock, RecordedFile};
use crate::plan::operation::{joined_parts, path_components, target_path_refusal, TargetPath};
use crate::profile::{profile_named, ProfileId};
use crate::sorted_map::TextMap;
use crate::text::{append, owned};
use crate::version::CanonVersion;

verus! {

/// What a record says, as plain values, whichever schema wrote it.
pub struct RecordFacts {
    /// The release, as spelled.
    pub canon_version: Seq<char>,
    /// The profile.
    pub profile: ProfileId,
    /// The documentation root.
    pub docs_root: Seq<char>,
    /// Each readable managed entry: its destination and digest.
    pub managed: Seq<(Seq<char>, Seq<char>)>,
    /// Each readable adopted entry: its destination, digest and baseline.
    pub adopted: Seq<(Seq<char>, Seq<char>, Seq<char>)>,
    /// Each marked region: its host and digest.
    pub blocks: Seq<(Seq<char>, Seq<char>)>,
}

/// The text a value holds, where it is a string.
pub open spec fn text_of(v: Option<JsonModel>) -> Option<Seq<char>> {
    match v {
        Some(JsonModel::Text(s)) => Some(s),
        _ => None,
    }
}

/// The digest an entry holds under a key, where it is one.
pub open spec fn digest_under(entry: JsonModel, key: Seq<char>) -> Option<Seq<char>> {
    match text_of(member(entry, key)) {
        Some(s) => if is_digest_text(s) {
            Some(s)
        } else {
            None
        },
        None => None,
    }
}

/// The items listed under a key, none where it holds no array.
pub open spec fn listed_under(v: JsonModel, key: Seq<char>) -> Seq<JsonModel> {
    match member(v, key) {
        Some(JsonModel::Array(items)) => items,
        _ => Seq::empty(),
    }
}

/// The managed entries that carry a destination and a digest, in order;
/// the others are passed over.
pub open spec fn managed_read(items: Seq<JsonModel>) -> Seq<(Seq<char>, Seq<char>)>
    decreases items.len(),
{
    if items.len() == 0 {
        Seq::empty()
    } else {
        let before = managed_read(items.drop_last());
        let e = items.last();
        match (text_of(member(e, "destination"@)), digest_under(e, "sha256"@)) {
            (Some(d), Some(h)) => before.push((d, h)),
            _ => before,
        }
    }
}

/// The adopted entries that carry a destination, a digest and a baseline,
/// in order; the others are passed over.
pub open spec fn adopted_read(items: Seq<JsonModel>) -> Seq<(Seq<char>, Seq<char>, Seq<char>)>
    decreases items.len(),
{
    if items.len() == 0 {
        Seq::empty()
    } else {
        let before = adopted_read(items.drop_last());
        let e = items.last();
        match (
            text_of(member(e, "destination"@)),
            digest_under(e, "sha256"@),
            digest_under(e, "baseline_sha256"@),
        ) {
            (Some(d), Some(h), Some(b)) => before.push((d, h, b)),
            _ => before,
        }
    }
}

/// The marked regions, all or nothing: one entry without a host or a
/// digest makes the whole list unreadable.
pub open spec fn blocks_read(items: Seq<JsonModel>) -> Option<Seq<(Seq<char>, Seq<char>)>>
    decreases items.len(),
{
    if items.len() == 0 {
        Some(Seq::empty())
    } else {
        match blocks_read(items.drop_last()) {
            None => None,
            Some(before) => {
                let e = items.last();
                match (text_of(member(e, "path"@)), digest_under(e, "marker_hash"@)) {
                    (Some(p), Some(h)) => Some(before.push((p, h))),
                    _ => None,
                }
            },
        }
    }
}

/// Whether a text spells a release.
pub open spec fn canon_spelled(s: Seq<char>) -> bool {
    exists|v: CanonVersion| #[trigger] v.text() == s
}

/// What a record reads as: its facts, or nothing where it is not JSON or
/// lacks the release, the profile, the root, or a readable region list.
pub open spec fn record_facts(read: Result<JsonModel, Seq<char>>) -> Option<RecordFacts> {
    match read {
        Err(_) => None,
        Ok(v) => match (
            text_of(member(v, "canon_version"@)),
            text_of(member(v, "profile"@)),
            text_of(member(v, "docs_root"@)),
            blocks_read(listed_under(v, "integration_blocks"@)),
        ) {
            (Some(c), Some(p), Some(d), Some(bs)) => match profile_named(p) {
                Some(profile) => if canon_spelled(c) {
                    Some(
                        RecordFacts {
                            canon_version: c,
                            profile,
                            docs_root: d,
                            managed: managed_read(listed_under(v, "managed_files"@)),
                            adopted: adopted_read(listed_under(v, "adopted_files"@)),
                            blocks: bs,
                        },
                    )
                } else {
                    None
                },
                None => None,
            },
            _ => None,
        },
    }
}

/// The first of some paths that no operation may name.
pub open spec fn first_unnamable(ds: Seq<Seq<char>>) -> Option<Seq<char>>
    decreases ds.len(),
{
    if ds.len() == 0 {
        None
    } else {
        match first_unnamable(ds.drop_last()) {
            Some(d) => Some(d),
            None => if target_path_refusal(ds.last()) is Some {
                Some(ds.last())
            } else {
                None
            },
        }
    }
}

/// The destinations of the managed entries.
pub open spec fn managed_destinations(f: RecordFacts) -> Seq<Seq<char>> {
    f.managed.map_values(|e: (Seq<char>, Seq<char>)| e.0)
}

/// The destinations of the adopted entries.
pub open spec fn adopted_destinations(f: RecordFacts) -> Seq<Seq<char>> {
    f.adopted.map_values(|e: (Seq<char>, Seq<char>, Seq<char>)| e.0)
}

/// The hosts of the marked regions.
pub open spec fn block_hosts(f: RecordFacts) -> Seq<Seq<char>> {
    f.blocks.map_values(|e: (Seq<char>, Seq<char>)| e.0)
}

/// Why a record read at `record_path` vouches for no installation: it
/// cannot be read, or it names a destination or a region host no
/// operation may name, the managed files checked first, then the adopted
/// ones, then the regions.
pub open spec fn record_refusal(record_path: Seq<char>, facts: Option<RecordFacts>) -> Option<Seq<char>> {
    match facts {
        None => Some(record_path + " is not a record this engine can read"@),
        Some(f) => match first_unnamable(managed_destinations(f)) {
            Some(d) => Some(record_path + " records the destination "@ + d + ", which no operation may name"@),
            None => match first_unnamable(adopted_destinations(f)) {
                Some(d) => Some(
                    record_path + " records the destination "@ + d + ", which no operation may name"@,
                ),
                None => match first_unnamable(block_hosts(f)) {
                    Some(h) => Some(
                        record_path + " records the block host "@ + h + ", which no operation may name"@,
                    ),
                    None => None,
                },
            },
        },
    }
}

/// What a map of found digests holds for a path.
pub open spec fn found_at(m: Map<Seq<char>, Seq<char>>, k: Seq<char>) -> Option<Seq<char>> {
    if m.dom().contains(k) {
        Some(m[k])
    } else {
        None
    }
}

/// The path a valid destination names.
pub open spec fn named(d: Seq<char>) -> Seq<char> {
    joined_parts(path_components(d))
}

/// A recorded file as plain values: path, recorded digest, baseline, and
/// what the target holds.
pub open spec fn file_model(f: RecordedFile) -> (Seq<char>, Seq<char>, Option<Seq<char>>, Option<Seq<char>>) {
    (f.path@, f.recorded@, digest_view(f.baseline), digest_view(f.held))
}

/// A marked region as plain values: host, recorded digest, and what the
/// host holds between the markers.
pub open spec fn block_model(b: RecordedBlock) -> (Seq<char>, Seq<char>, Option<Seq<char>>) {
    (b.path@, b.recorded@, digest_view(b.held))
}

/// The managed files a record's facts describe, as found in `held`.
pub open spec fn managed_expected(f: RecordFacts, held: Map<Seq<char>, Seq<char>>) -> Seq<
    (Seq<char>, Seq<char>, Option<Seq<char>>, Option<Seq<char>>),
> {
    f.managed.map_values(
        |e: (Seq<char>, Seq<char>)| (named(e.0), e.1, None::<Seq<char>>, found_at(held, named(e.0))),
    )
}

/// The adopted files a record's facts describe, as found in `held`.
pub open spec fn adopted_expected(f: RecordFacts, held: Map<Seq<char>, Seq<char>>) -> Seq<
    (Seq<char>, Seq<char>, Option<Seq<char>>, Option<Seq<char>>),
> {
    f.adopted.map_values(
        |e: (Seq<char>, Seq<char>, Seq<char>)| (named(e.0), e.1, Some(e.2), found_at(held, named(e.0))),
    )
}

/// The marked regions a record's facts describe, as found in `held`.
pub open spec fn blocks_expected(f: RecordFacts, held: Map<Seq<char>, Seq<char>>) -> Seq<
    (Seq<char>, Seq<char>, Option<Seq<char>>),
> {
    f.blocks.map_values(|e: (Seq<char>, Seq<char>)| (named(e.0), e.1, found_at(held, named(e.0))))
}

/// Whether an installation is the one a record's facts describe.
pub open spec fn installation_described(
    i: Installation,
    f: RecordFacts,
    record: Seq<char>,
    held: Map<Seq<char>, Seq<char>>,
    blocks_held: Map<Seq<char>, Seq<char>>,
    declaration: Option<Seq<char>>,
) -> bool {
    &&& i.canon_version.text() == f.canon_version
    &&& i.profile == f.profile
    &&& i.docs_root@ == f.docs_root
    &&& i.record_sha256@ == digest_text(vstd::utf8::encode_utf8(record))
    &&& digest_view(i.declaration_sha256) == declaration
    &&& i.managed@.map_values(|r: RecordedFile| file_model(r)) == managed_expected(f, held)
    &&& i.adopted@.map_values(|r: RecordedFile| file_model(r)) == adopted_expected(f, held)
    &&& i.blocks@.map_values(|b: RecordedBlock| block_model(b)) == blocks_expected(f, blocks_held)
}

/// A record's facts, as values.
struct Facts {
    canon_version: CanonVersion,
    profile: ProfileId,
    docs_root: String,
    managed: Vec<(String, Sha256)>,
    adopted: Vec<(String, Sha256, Sha256)>,
    blocks: Vec<(String, Sha256)>,
}

spec fn managed_view(s: Seq<(String, Sha256)>) -> Seq<(Seq<char>, Seq<char>)> {
    s.map_values(|e: (String, Sha256)| (e.0@, e.1@))
}

spec fn adopted_view(s: Seq<(String, Sha256, Sha256)>) -> Seq<(Seq<char>, Seq<char>, Seq<char>)> {
    s.map_values(|e: (String, Sha256, Sha256)| (e.0@, e.1@, e.2@))
}

spec fn facts_view(f: Facts) -> RecordFacts {
    RecordFacts {
        canon_version: f.canon_version.text(),
        profile: f.profile,
        docs_root: f.docs_root@,
        managed: managed_view(f.managed@),
        adopted: adopted_view(f.adopted@),
        blocks: managed_view(f.blocks@),
    }
}

fn text_under<'a>(v: &'a Json, key: &str) -> (r: Option<&'a String>)
    ensures
        match r {
            Some(s) => text_of(member(v@, key@)) == Some(s@),
            None => text_of(member(v@, key@)) is None,
        },
{
    match get(v, key) {
        Some(Json::Text(s)) => Some(s),
        _ => None,
    }
}

fn digest_at(entry: &Json, key: &str) -> (r: Option<Sha256>)
    ensures
        digest_view(r) == digest_under(entry@, key@),
{
    match text_under(entry, key) {
        Some(s) => Sha256::parse(s.as_str()),
        None => None,
    }
}

fn items_under<'a>(v: &'a Json, key: &str) -> (r: &'a [Json])
    ensures
        json_models(r@) == listed_under(v@, key@),
{
    match get(v, key) {
        Some(Json::Array(items)) => items.as_slice(),
        _ => {
            let none: &[Json] = &[];
            assert(json_models(none@) =~= Seq::<JsonModel>::empty());
            none
        },
    }
}

fn managed_of(items: &[Json]) -> (r: Vec<(String, Sha256)>)
    ensures
        managed_view(r@) == managed_read(json_models(items@)),
{
    proof {
        lemma_json_models(items@);
    }
    let ghost ms = json_models(items@);
    let mut out: Vec<(String, Sha256)> = Vec::new();
    let mut i: usize = 0;
    assert(managed_view(out@) =~= Seq::<(Seq<char>, Seq<char>)>::empty());
    assert(ms.take(0) =~= Seq::<JsonModel>::empty());
    while i < items.len()
        invariant
            i <= items.len(),
            ms == json_models(items@),
            ms.len() == items@.len(),
            forall|k: int| 0 <= k < items@.len() ==> #[trigger] ms[k] == items@[k]@,
            managed_view(out@) == managed_read(ms.take(i as int)),
        decreases items.len() - i,
    {
        assert(ms.take(i + 1).drop_last() =~= ms.take(i as int));
        assert(ms.take(i + 1).last() == items@[i as int]@);
        let ghost before = out@;
        let d = text_under(&items[i], "destination");
        let h = digest_at(&items[i], "sha256");
        match (d, h) {
            (Some(d), Some(h)) => {
                let ghost pair = (d@, h@);
                out.push((owned(d.as_str()), h));
                assert(managed_view(out@) =~= managed_view(before).push(pair));
            },
            _ => {},
        }
        i += 1;
    }
    assert(ms.take(items.len() as int) =~= ms);
    out
}

fn adopted_of(items: &[Json]) -> (r: Vec<(String, Sha256, Sha256)>)
    ensures
        adopted_view(r@) == adopted_read(json_models(items@)),
{
    proof {
        lemma_json_models(items@);
    }
    let ghost ms = json_models(items@);
    let mut out: Vec<(String, Sha256, Sha256)> = Vec::new();
    let mut i: usize = 0;
    assert(adopted_view(out@) =~= Seq::<(Seq<char>, Seq<char>, Seq<char>)>::empty());
    assert(ms.take(0) =~= Seq::<JsonModel>::empty());
    while i < items.len()
        invariant
            i <= items.len(),
            ms == json_models(items@),
            ms.len() == items@.len(),
            forall|k: int| 0 <= k < items@.len() ==> #[trigger] ms[k] == items@[k]@,
            adopted_view(out@) == adopted_read(ms.take(i as int)),
        decreases items.len() - i,
    {
        assert(ms.take(i + 1).drop_last() =~= ms.take(i as int));
        assert(ms.take(i + 1).last() == items@[i as int]@);
        let ghost before = out@;
        let d = text_under(&items[i], "destination");
        let h = digest_at(&items[i], "sha256");
        let b = digest_at(&items[i], "baseline_sha256");
        match (d, h, b) {
            (Some(d), Some(h), Some(b)) => {
                let ghost triple = (d@, h@, b@);
                out.push((owned(d.as_str()), h, b));
                assert(adopted_view(out@) =~= adopted_view(before).push(triple));
            },
            _ => {},
        }
        i += 1;
    }
    assert(ms.take(items.len() as int) =~= ms);
    out
}

proof fn lemma_blocks_unreadable_stays(ms: Seq<JsonModel>, k: int)
    requires
        0 <= k <= ms.len(),
        blocks_read(ms.take(k)) is None,
    ensures
        blocks_read(ms) is None,
    decreases ms.len(),
{
    if k == ms.len() {
        assert(ms.take(k) =~= ms);
    } else {
        assert(ms.drop_last().take(k) =~= ms.take(k));
        lemma_blocks_unreadable_stays(ms.drop_last(), k);
    }
}

fn blocks_of(items: &[Json]) -> (r: Option<Vec<(String, Sha256)>>)
    ensures
        match r {
            Some(bs) => blocks_read(json_models(items@)) == Some(managed_view(bs@)),
            None => blocks_read(json_models(items@)) is None,
        },
{
    proof {
        lemma_json_models(items@);
    }
    let ghost ms = json_models(items@);
    let mut out: Vec<(String, Sha256)> = Vec::new();
    let mut i: usize = 0;
    assert(managed_view(out@) =~= Seq::<(Seq<char>, Seq<char>)>::empty());
    assert(ms.take(0) =~= Seq::<JsonModel>::empty());
    while i < items.len()
        invariant
            i <= items.len(),
            ms == json_models(items@),
            ms.len() == items@.len(),
            forall|k: int| 0 <= k < items@.len() ==> #[trigger] ms[k] == items@[k]@,
            blocks_read(ms.take(i as int)) == Some(managed_view(out@)),
        decreases items.len() - i,
    {
        assert(ms.take(i + 1).drop_last() =~= ms.take(i as int));
        assert(ms.take(i + 1).last() == items@[i as int]@);
        let ghost before = out@;
        let p = text_under(&items[i], "path");
        let h = digest_at(&items[i], "marker_hash");
        match (p, h) {
            (Some(p), Some(h)) => {
                let ghost pair = (p@, h@);
                out.push((owned(p.as_str()), h));
                assert(managed_view(out@) =~= managed_view(before).push(pair));
            },
            _ => {
                proof {
                    lemma_blocks_unreadable_stays(ms, i + 1);
                }
                return None;
            },
        }
        i += 1;
    }
    assert(ms.take(items.len() as int) =~= ms);
    Some(out)
}

fn facts_of(record: &str) -> (r: Option<Facts>)
    ensures
        match r {
            Some(f) => record_facts(json_read(record@)) == Some(facts_view(f)),
            None => record_facts(json_read(record@)) is None,
        },
{
    let v = match read_json(record) {
        Ok(v) => v,
        Err(_) => {
            return None;
        },
    };
    let c = match text_under(&v, "canon_version") {
        Some(c) => c,
        None => {
            return None;
        },
    };
    let p = match text_under(&v, "profile") {
        Some(p) => p,
        None => {
            return None;
        },
    };
    let d = match text_under(&v, "docs_root") {
        Some(d) => d,
        None => {
            return None;
        },
    };
    let blocks = match blocks_of(items_under(&v, "integration_blocks")) {
        Some(bs) => bs,
        None => {
            return None;
        },
    };
    let profile = match ProfileId::from_word(p.as_str()) {
        Some(profile) => profile,
        None => {
            return None;
        },
    };
    let canon_version = match CanonVersion::parse(c.as_str()) {
        Some(cv) => cv,
        None => {
            return None;
        },
    };
    let managed = managed_of(items_under(&v, "managed_files"));
    let adopted = adopted_of(items_under(&v, "adopted_files"));
    Some(Facts { canon_version, profile, docs_root: owned(d.as_str()), managed, adopted, blocks })
}

fn refused_destination(record_path: &str, middle: &str, d: &str) -> (m: String)
    ensures
        m@ == record_path@ + middle@ + d@ + ", which no operation may name"@,
{
    let mut m = owned(record_path);
    append(&mut m, middle);
    append(&mut m, d);
    append(&mut m, ", which no operation may name");
    m
}

fn found(held: &TextMap<Sha256>, key: &str) -> (r: Option<Sha256>)
    ensures
        digest_view(r) == found_at(held@, key@),
{
    match held.get(key) {
        Some(d) => Some(d.copied()),
        None => None,
    }
}

/// Read the instance record found at `record_path` as the installation it
/// vouches for, or say why it vouches for none.
///
/// `held` maps each path the record names, as an operation names it, to
/// the digest of what the target holds there, and `blocks_held` each
/// region host to the digest of what its markers enclose; a path the
/// target does not hold is absent from them. `declaration` is the digest of the project's declaration,
/// where it has one. A record that is not JSON, or lacks the release, the
/// profile, the root or a readable region list, is refused; managed and
/// adopted entries that lack a field are passed over; a record naming a
/// destination or a host no operation may name is refused.
pub fn installation_of(
    record_path: &str,
    record: &str,
    held: &TextMap<Sha256>,
    blocks_held: &TextMap<Sha256>,
    declaration: Option<Sha256>,
) -> (r: (Option<Installation>, Option<String>))
    ensures
        match r {
            (Some(i), None) => record_refusal(record_path@, record_facts(json_read(record@))) is None
                && (record_facts(json_read(record@)) matches Some(f) && installation_described(
                i,
                f,
                record@,
                held@,
                blocks_held@,
                digest_view(declaration),
            )),
            (None, Some(m)) => record_refusal(record_path@, record_facts(json_read(record@))) == Some(m@),
            _ => false,
        },
{
    let facts = match facts_of(record) {
        Some(f) => f,
        None => {
            let mut m = owned(record_path);
            append(&mut m, " is not a record this engine can read");
            return (None, Some(m));
        },
    };
    let ghost fv = facts_view(facts);
    let mut managed: Vec<RecordedFile> = Vec::new();
    let mut i: usize = 0;
    assert(managed_destinations(fv).take(0) =~= Seq::<Seq<char>>::empty());
    assert(managed@.map_values(|r: RecordedFile| file_model(r)) =~= managed_expected(fv, held@).take(0));
    while i < facts.managed.len()
        invariant
            i <= facts.managed.len(),
            fv == facts_view(facts),
            record_facts(json_read(record@)) == Some(fv),
            managed_destinations(fv).len() == facts.managed@.len(),
            first_unnamable(managed_destinations(fv).take(i as int)) is None,
            managed@.map_values(|r: RecordedFile| file_model(r)) == managed_expected(fv, held@).take(
                i as int,
            ),
        decreases facts.managed.len() - i,
    {
        let ghost ds = managed_destinations(fv);
        assert(ds.take(i + 1).drop_last() =~= ds.take(i as int));
        assert(ds.take(i + 1).last() == facts.managed@[i as int].0@);
        let (d, h) = (&facts.managed[i].0, &facts.managed[i].1);
        let path = match TargetPath::new(d.as_str()) {
            Ok(p) => p,
            Err(_) => {
                proof {
                    assert(ds[i as int] == d@);
                    assert(ds.take(i + 1 - 1) =~= ds.take(i as int));
                    lemma_first_stays(ds, i + 1);
                }
                let m = refused_destination(record_path, " records the destination ", d.as_str());
                assert(first_unnamable(ds) == Some(d@));
                assert(record_refusal(record_path@, Some(fv)) == Some(m@));
                return (None, Some(m));
            },
        };
        let ghost before = managed@;
        let now = found(held, path.as_str());
        let f = RecordedFile { path, recorded: h.copied(), baseline: None, held: now };
        managed.push(f);
        proof {
            let e = managed_expected(fv, held@);
            assert(e.take(i + 1) =~= e.take(i as int).push(e[i as int]));
            assert(managed@.map_values(|r: RecordedFile| file_model(r)) =~= before.map_values(
                |r: RecordedFile| file_model(r),
            ).push(file_model(f)));
        }
        i += 1;
    }
    assert(managed_destinations(fv).take(facts.managed.len() as int) =~= managed_destinations(fv));
    assert(managed_expected(fv, held@).take(facts.managed.len() as int) =~= managed_expected(fv, held@));
    let mut adopted: Vec<RecordedFile> = Vec::new();
    let mut j: usize = 0;
    assert(adopted_destinations(fv).take(0) =~= Seq::<Seq<char>>::empty());
    assert(adopted@.map_values(|r: RecordedFile| file_model(r)) =~= adopted_expected(fv, held@).take(0));
    while j < facts.adopted.len()
        invariant
            j <= facts.adopted.len(),
            fv == facts_view(facts),
            record_facts(json_read(record@)) == Some(fv),
            first_unnamable(managed_destinations(fv)) is None,
            adopted_destinations(fv).len() == facts.adopted@.len(),
            first_unnamable(adopted_destinations(fv).take(j as int)) is None,
            adopted@.map_values(|r: RecordedFile| file_model(r)) == adopted_expected(fv, held@).take(
                j as int,
            ),
        decreases facts.adopted.len() - j,
    {
        let ghost ds = adopted_destinations(fv);
        assert(ds.take(j + 1).drop_last() =~= ds.take(j as int));
        assert(ds.take(j + 1).last() == facts.adopted@[j as int].0@);
        let (d, h, b) = (&facts.adopted[j].0, &facts.adopted[j].1, &facts.adopted[j].2);
        let path = match TargetPath::new(d.as_str()) {
            Ok(p) => p,
            Err(_) => {
                proof {
                    assert(ds[j as int] == d@);
                    assert(ds.take(j + 1 - 1) =~= ds.take(j as int));
                    lemma_first_stays(ds, j + 1);
                }
                let m = refused_destination(record_path, " records the destination ", d.as_str());
                assert(first_unnamable(ds) == Some(d@));
                assert(record_refusal(record_path@, Some(fv)) == Some(m@));
                return (None, Some(m));
            },
        };
        let ghost before = adopted@;
        let now = found(held, path.as_str());
        let f = RecordedFile { path, recorded: h.copied(), baseline: Some(b.copied()), held: now };
        adopted.push(f);
        proof {
            let e = adopted_expected(fv, held@);
            assert(e.take(j + 1) =~= e.take(j as int).push(e[j as int]));
            assert(adopted@.map_values(|r: RecordedFile| file_model(r)) =~= before.map_values(
                |r: RecordedFile| file_model(r),
            ).push(file_model(f)));
        }
        j += 1;
    }
    assert(adopted_destinations(fv).take(facts.adopted.len() as int) =~= adopted_destinations(fv));
    assert(adopted_expected(fv, held@).take(facts.adopted.len() as int) =~= adopted_expected(fv, held@));
    let mut blocks: Vec<RecordedBlock> = Vec::new();
    let mut k: usize = 0;
    assert(block_hosts(fv).take(0) =~= Seq::<Seq<char>>::empty());
    assert(blocks@.map_values(|b: RecordedBlock| block_model(b)) =~= blocks_expected(fv, blocks_held@).take(0));
    while k < facts.blocks.len()
        invariant
            k <= facts.blocks.len(),
            fv == facts_view(facts),
            record_facts(json_read(record@)) == Some(fv),
            first_unnamable(managed_destinations(fv)) is None,
            first_unnamable(adopted_destinations(fv)) is None,
            block_hosts(fv).len() == facts.blocks@.len(),
            first_unnamable(block_hosts(fv).take(k as int)) is None,
            blocks@.map_values(|b: RecordedBlock| block_model(b)) == blocks_expected(fv, blocks_held@).take(
                k as int,
            ),
        decreases facts.blocks.len() - k,
    {
        let ghost ds = block_hosts(fv);
        assert(ds.take(k + 1).drop_last() =~= ds.take(k as int));
        assert(ds.take(k + 1).last() == facts.blocks@[k as int].0@);
        let (host, h) = (&facts.blocks[k].0, &facts.blocks[k].1);
        let path = match TargetPath::new(host.as_str()) {
            Ok(p) => p,
            Err(_) => {
                proof {
                    assert(ds[k as int] == host@);
                    assert(ds.take(k + 1 - 1) =~= ds.take(k as int));
                    lemma_first_stays(ds, k + 1);
                }
                let m = refused_destination(record_path, " records the block host ", host.as_str());
                assert(first_unnamable(ds) == Some(host@));
                assert(record_refusal(record_path@, Some(fv)) == Some(m@));
                return (None, Some(m));
            },
        };
        let ghost before = blocks@;
        let now = found(blocks_held, path.as_str());
        let b = RecordedBlock { path, recorded: h.copied(), held: now };
        blocks.push(b);
        proof {
            let e = blocks_expected(fv, blocks_held@);
            assert(e.take(k + 1) =~= e.take(k as int).push(e[k as int]));
            assert(blocks@.map_values(|b: RecordedBlock| block_model(b)) =~= before.map_values(
                |b: RecordedBlock| block_model(b),
            ).push(block_model(b)));
        }
        k += 1;
    }
    assert(block_hosts(fv).take(facts.blocks.len() as int) =~= block_hosts(fv));
    assert(blocks_expected(fv, blocks_held@).take(facts.blocks.len() as int) =~= blocks_expected(
        fv,
        blocks_held@,
    ));
    let record_sha256 = Sha256::of(record.as_bytes());
    let installation = Installation {
        canon_version: facts.canon_version,
        profile: facts.profile,
        docs_root: facts.docs_root,
        record_sha256,
        declaration_sha256: declaration,
        managed,
        adopted,
        blocks,
    };
    (Some(installation), None)
}

proof fn lemma_first_stays(ds: Seq<Seq<char>>, k: int)
    requires
        0 < k <= ds.len(),
        first_unnamable(ds.take(k - 1)) is None,
        target_path_refusal(ds[k - 1]) is Some,
    ensures
        first_unnamable(ds) == Some(ds[k - 1]),
    decreases ds.len(),
{
    if k == ds.len() {
        assert(ds.take(k - 1) =~= ds.drop_last());
    } else {
        assert(ds.drop_last().take(k - 1) =~= ds.take(k - 1));
        lemma_first_stays(ds.drop_last(), k);
    }
}

} // verus!
