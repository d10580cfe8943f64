//! Whether a descriptor agrees with the pre-schema archive it describes.
//!
//! A descriptor names the payload roots the archive carries and the
//! sources its projection lands. An archive that lacks either is not the
//! release the descriptor speaks for, and nothing is overlaid onto it.

use vstd::prelude::*;

use crate::digest::Sha256;
use crate::release::legacy::{descriptor_answer, Descriptor, LegacyCatalog, PRE_SCHEMA};
use crate::release::{FileMap, ReleaseError};
use crate::sorted_map::{entries_map, holds_key, lemma_map_at, sorted_keys};
use crate::text::{append, has_prefix, owned, starts_with};
use crate::toml_doc::{field, lemma_toml_models, lookup, toml_models, Toml, TomlModel};

verus! {

/// The sources listed in an array of projection entries: each entry that
/// is a table naming a text `source`.
pub open spec fn sources_of(items: Seq<TomlModel>) -> Seq<Seq<char>>
    decreases items.len(),
{
    if items.len() == 0 {
        Seq::empty()
    } else {
        let before = sources_of(items.drop_last());
        match items.last() {
            TomlModel::Table(t) => match lookup(t, "source"@) {
                Some(TomlModel::Text(s)) => before.push(s),
                _ => before,
            },
            _ => before,
        }
    }
}

/// The sources a projection lists under a key.
pub open spec fn projected_sources(projection: TomlModel, key: Seq<char>) -> Seq<Seq<char>> {
    match projection {
        TomlModel::Table(e) => match lookup(e, key) {
            Some(TomlModel::Array(items)) => sources_of(items),
            _ => Seq::empty(),
        },
        _ => Seq::empty(),
    }
}

/// Whether some file lies under a root.
pub open spec fn carries_root(files: Map<Seq<char>, Seq<u8>>, root: Seq<char>) -> bool {
    exists|p: Seq<char>| #[trigger] files.dom().contains(p) && has_prefix(p, root + "/"@)
}

/// The first root no file lies under.
pub open spec fn first_bare_root(roots: Seq<Seq<char>>, files: Map<Seq<char>, Seq<u8>>) -> Option<Seq<char>>
    decreases roots.len(),
{
    if roots.len() == 0 {
        None
    } else {
        match first_bare_root(roots.drop_last(), files) {
            Some(r) => Some(r),
            None => if carries_root(files, roots.last()) {
                None
            } else {
                Some(roots.last())
            },
        }
    }
}

/// The first source the archive does not carry.
pub open spec fn first_missing(sources: Seq<Seq<char>>, files: Map<Seq<char>, Seq<u8>>) -> Option<Seq<char>>
    decreases sources.len(),
{
    if sources.len() == 0 {
        None
    } else {
        match first_missing(sources.drop_last(), files) {
            Some(s) => Some(s),
            None => if files.dom().contains(sources.last()) {
                None
            } else {
                Some(sources.last())
            },
        }
    }
}

/// Why an archive is not the release its descriptor describes: a payload
/// root with no file under it, checked first, or a projected source the
/// archive does not carry, the managed ones before the adopted.
pub open spec fn archive_refusal(
    version: Seq<char>,
    roots: Seq<Seq<char>>,
    projection: TomlModel,
    files: Map<Seq<char>, Seq<u8>>,
) -> Option<Seq<char>> {
    match first_bare_root(roots, files) {
        Some(r) => Some(
            "the descriptor for "@ + version + " names the root "@ + r
                + ", and the published archive carries no file under it"@,
        ),
        None => match first_missing(
            projected_sources(projection, "managed"@) + projected_sources(projection, "adopted"@),
            files,
        ) {
            Some(s) => Some(
                "the descriptor for "@ + version + " projects "@ + s + ", and the published archive does not carry it"@,
            ),
            None => None,
        },
    }
}

/// What the catalog overlays onto one pre-schema archive: the protocol
/// version no release declared, the descriptor's digest, and the
/// declaration table the descriptor carries.
#[derive(Debug)]
pub struct Adapted {
    /// Always the pre-schema version.
    pub payload_schema: u32,
    /// The digest of the descriptor the overlay comes from.
    pub descriptor_sha256: Sha256,
    /// What the release landed, as the descriptor declares it.
    pub projection: Toml,
}

proof fn lemma_first_step<A>(s: Seq<A>, i: int)
    requires
        0 <= i < s.len(),
    ensures
        s.take(i + 1).drop_last() == s.take(i),
        s.take(i + 1).last() == s[i],
{
    assert(s.take(i + 1).drop_last() =~= s.take(i));
}

proof fn lemma_bare_root_stays(roots: Seq<Seq<char>>, files: Map<Seq<char>, Seq<u8>>, k: int)
    requires
        0 <= k <= roots.len(),
        first_bare_root(roots.take(k), files) is Some,
    ensures
        first_bare_root(roots, files) == first_bare_root(roots.take(k), files),
    decreases roots.len(),
{
    if k == roots.len() {
        assert(roots.take(k) =~= roots);
    } else {
        assert(roots.drop_last().take(k) =~= roots.take(k));
        lemma_bare_root_stays(roots.drop_last(), files, k);
    }
}

proof fn lemma_missing_stays(sources: Seq<Seq<char>>, files: Map<Seq<char>, Seq<u8>>, k: int)
    requires
        0 <= k <= sources.len(),
        first_missing(sources.take(k), files) is Some,
    ensures
        first_missing(sources, files) == first_missing(sources.take(k), files),
    decreases sources.len(),
{
    if k == sources.len() {
        assert(sources.take(k) =~= sources);
    } else {
        assert(sources.drop_last().take(k) =~= sources.take(k));
        lemma_missing_stays(sources.drop_last(), files, k);
    }
}

/// Whether some file of the archive lies under `root`.
pub fn carries(files: &FileMap, root: &str) -> (r: bool)
    ensures
        r == carries_root(files@, root@),
{
    let mut prefix = owned(root);
    append(&mut prefix, "/");
    let entries = files.entries();
    let mut i: usize = 0;
    while i < entries.len()
        invariant
            i <= entries.len(),
            sorted_keys(entries@),
            entries_map(entries@) == files@,
            prefix@ == root@ + "/"@,
            forall|j: int| 0 <= j < i ==> !has_prefix(#[trigger] entries@[j].0@, prefix@),
        decreases entries.len() - i,
    {
        if starts_with(entries[i].0.as_str(), prefix.as_str()) {
            proof {
                lemma_map_at(entries@, i as int);
            }
            return true;
        }
        i += 1;
    }
    proof {
        assert forall|p: Seq<char>| #[trigger] files@.dom().contains(p) implies !has_prefix(p, root@ + "/"@) by {
            assert(holds_key(entries@, p));
            let j = choose|j: int| 0 <= j < entries@.len() && #[trigger] entries@[j].0@ == p;
            assert(!has_prefix(entries@[j].0@, prefix@));
        }
    }
    false
}

/// The sources a projection lists under a key.
pub fn sources(projection: &Toml, key: &str) -> (r: Vec<String>)
    ensures
        r@.map_values(|s: String| s@) == projected_sources(projection@, key@),
{
    let mut out: Vec<String> = Vec::new();
    let entries = match projection {
        Toml::Table(entries) => entries,
        _ => {
            assert(out@.map_values(|s: String| s@) =~= Seq::<Seq<char>>::empty());
            return out;
        },
    };
    let items = match field(entries, key) {
        Some(Toml::Array(items)) => items,
        _ => {
            assert(out@.map_values(|s: String| s@) =~= Seq::<Seq<char>>::empty());
            return out;
        },
    };
    proof {
        lemma_toml_models(items@);
    }
    let ghost ms = toml_models(items@);
    let mut i: usize = 0;
    assert(ms.take(0) =~= Seq::<TomlModel>::empty());
    assert(out@.map_values(|s: String| s@) =~= Seq::<Seq<char>>::empty());
    while i < items.len()
        invariant
            i <= items.len(),
            ms == toml_models(items@),
            ms.len() == items@.len(),
            forall|k: int| 0 <= k < items@.len() ==> #[trigger] ms[k] == items@[k]@,
            out@.map_values(|s: String| s@) == sources_of(ms.take(i as int)),
        decreases items.len() - i,
    {
        proof {
            lemma_first_step(ms, i as int);
        }
        assert(ms[i as int] == items@[i as int]@);
        let ghost before = out@;
        match &items[i] {
            Toml::Table(t) => match field(t, "source") {
                Some(Toml::Text(s)) => {
                    out.push(owned(s.as_str()));
                    assert(out@.map_values(|s: String| s@) =~= before.map_values(|s: String| s@).push(s@));
                },
                _ => {},
            },
            _ => {},
        }
        i += 1;
    }
    assert(ms.take(items.len() as int) =~= ms);
    out
}

/// Whether an archive is the release its descriptor describes: every
/// payload root the descriptor names has a file under it, and every
/// source its projection lands, managed then adopted, is carried.
pub fn archive_agrees(version: &str, descriptor: &Descriptor, files: &FileMap) -> (r: Result<(), String>)
    ensures
        match archive_refusal(
            version@,
            descriptor.payload_roots@.map_values(|s: String| s@),
            descriptor.projection@,
            files@,
        ) {
            Some(m) => r matches Err(t) && t@ == m,
            None => r is Ok,
        },
{
    let ghost roots = descriptor.payload_roots@.map_values(|s: String| s@);
    let mut i: usize = 0;
    assert(roots.take(0) =~= Seq::<Seq<char>>::empty());
    while i < descriptor.payload_roots.len()
        invariant
            i <= descriptor.payload_roots.len(),
            roots == descriptor.payload_roots@.map_values(|s: String| s@),
            first_bare_root(roots.take(i as int), files@) is None,
        decreases descriptor.payload_roots.len() - i,
    {
        proof {
            lemma_first_step(roots, i as int);
        }
        let root = descriptor.payload_roots[i].as_str();
        if !carries(files, root) {
            proof {
                lemma_bare_root_stays(roots, files@, i + 1);
            }
            let mut m = owned("the descriptor for ");
            append(&mut m, version);
            append(&mut m, " names the root ");
            append(&mut m, root);
            append(&mut m, ", and the published archive carries no file under it");
            return Err(m);
        }
        i += 1;
    }
    assert(roots.take(roots.len() as int) =~= roots);
    let mut projected = sources(&descriptor.projection, "managed");
    let adopted = sources(&descriptor.projection, "adopted");
    let ghost managed_view = projected@.map_values(|s: String| s@);
    let mut a: usize = 0;
    while a < adopted.len()
        invariant
            a <= adopted.len(),
            projected@.map_values(|s: String| s@) == managed_view + adopted@.map_values(|s: String| s@).take(
                a as int,
            ),
        decreases adopted.len() - a,
    {
        let ghost before = projected@;
        projected.push(owned(adopted[a].as_str()));
        proof {
            let av = adopted@.map_values(|s: String| s@);
            assert(av.take(a + 1) =~= av.take(a as int).push(av[a as int]));
            assert(projected@.map_values(|s: String| s@) =~= before.map_values(|s: String| s@).push(
                adopted@[a as int]@,
            ));
        }
        a += 1;
    }
    let ghost all = projected@.map_values(|s: String| s@);
    assert(all =~= projected_sources(descriptor.projection@, "managed"@) + projected_sources(
        descriptor.projection@,
        "adopted"@,
    )) by {
        assert(adopted@.map_values(|s: String| s@).take(adopted.len() as int) =~= adopted@.map_values(
            |s: String| s@,
        ));
    }
    let mut k: usize = 0;
    assert(all.take(0) =~= Seq::<Seq<char>>::empty());
    while k < projected.len()
        invariant
            k <= projected.len(),
            all == projected@.map_values(|s: String| s@),
            all == projected_sources(descriptor.projection@, "managed"@) + projected_sources(
                descriptor.projection@,
                "adopted"@,
            ),
            first_bare_root(descriptor.payload_roots@.map_values(|s: String| s@), files@) is None,
            first_missing(all.take(k as int), files@) is None,
        decreases projected.len() - k,
    {
        proof {
            lemma_first_step(all, k as int);
        }
        let source = projected[k].as_str();
        assert(source@ == all[k as int]);
        if files.get(source).is_none() {
            proof {
                lemma_missing_stays(all, files@, k + 1);
            }
            let mut m = owned("the descriptor for ");
            append(&mut m, version);
            append(&mut m, " projects ");
            append(&mut m, source);
            append(&mut m, ", and the published archive does not carry it");
            return Err(m);
        }
        k += 1;
    }
    assert(all.take(all.len() as int) =~= all);
    Ok(())
}

impl LegacyCatalog {
    /// Overlay a descriptor's facts onto one pre-schema archive: the
    /// catalog's descriptor for the version, refused as `descriptor`
    /// refuses it, and refused again where it disagrees with the archive.
    pub fn adapt(&self, version: &str, files: &FileMap) -> (r: Result<Adapted, ReleaseError>)
        ensures
            match descriptor_answer(
                self.index_view().releases@,
                self.index_view().capability_floor@,
                self.carried(),
                version@,
            ) {
                Err(m) => r matches Err(ReleaseError::Refused(t)) && t@ == m,
                Ok((d, digest)) => match archive_refusal(version@, d.1, d.2, files@) {
                    Some(m) => r matches Err(ReleaseError::Refused(t)) && t@ == m,
                    None => r matches Ok(a) && a.payload_schema == PRE_SCHEMA && a.descriptor_sha256@ == digest
                        && a.projection@ == d.2,
                },
            },
    {
        let (descriptor, digest) = match self.descriptor(version) {
            Ok(found) => found,
            Err(e) => {
                return Err(e);
            },
        };
        match archive_agrees(version, &descriptor, files) {
            Err(m) => Err(ReleaseError::Refused(m)),
            Ok(()) => Ok(
                Adapted { payload_schema: PRE_SCHEMA, descriptor_sha256: digest, projection: descriptor.projection },
            ),
        }
    }
}

} // verus!
