//! Releases that predate the projection declaration.
//!
//! A published crate is immutable, so a release that shipped before the
//! declaration existed can never acquire one. This module is the engine's
//! description of those releases from outside: a finite catalog, audited
//! against the registry index and the published archives, and a
//! descriptor per eligible release stating what it landed.
//!
//! Nothing here infers. A release the catalog marks ineligible, or one it
//! does not name, is unavailable as a destination and says so; a
//! descriptor whose bytes no longer hash to what the catalog records is
//! refused rather than read.

use vstd::prelude::*;
use vstd::utf8::encode_utf8;

use crate::digest::{digest_text, Sha256};
use crate::release::ReleaseError;
use crate::sorted_map::TextMap;
use crate::text::{append, owned, same_text};
use crate::toml_doc::{
    bool_field, bool_field_of, count_field, count_field_of, lookup, optional_text_field,
    optional_text_field_of, read_toml, stray, stray_key, stray_message, stray_refusal, text_field,
    text_field_of, text_list_field, text_list_field_of, toml_entries, toml_models, toml_read, Toml,
    TomlModel,
};

pub mod adapt;

verus! {

/// One release, as the audit classified it.
#[derive(Debug)]
pub struct CatalogEntry {
    /// The published version.
    pub version: String,
    /// The registry's checksum for its archive.
    pub checksum: String,
    /// Whether this engine can read it as a destination.
    pub eligible: bool,
    /// Why it cannot, where it cannot.
    pub reason: Option<String>,
    /// The descriptor file that supplies its facts.
    pub descriptor: Option<String>,
    /// That file's digest, so a correction invalidates an outstanding plan.
    pub descriptor_sha256: Option<String>,
}

/// The whole catalog.
#[derive(Debug)]
pub struct CatalogIndex {
    /// The catalog's own schema.
    pub schema: u32,
    /// The date the registry and the archives were read.
    pub audited_on: String,
    /// The lowest release this engine can read.
    pub capability_floor: String,
    /// Every published release, in registry order.
    pub releases: Vec<CatalogEntry>,
}

/// What a descriptor states about one pre-schema release.
#[derive(Debug)]
pub struct Descriptor {
    /// The release the descriptor describes.
    pub version: String,
    /// The payload roots that release's archive carries.
    pub payload_roots: Vec<String>,
    /// What it landed, as the declaration table the descriptor carries.
    pub projection: Toml,
}

/// The pre-schema protocol version, which no release declared.
pub const PRE_SCHEMA: u32 = 0;

/// A text that may be absent, as plain text.
pub open spec fn maybe_text(o: Option<String>) -> Option<Seq<char>> {
    match o {
        Some(s) => Some(s@),
        None => None,
    }
}

/// One catalog entry as plain values.
pub struct EntryModel {
    /// The version.
    pub version: Seq<char>,
    /// The archive checksum.
    pub checksum: Seq<char>,
    /// Whether it is eligible.
    pub eligible: bool,
    /// Why not, where not.
    pub reason: Option<Seq<char>>,
    /// The descriptor's name.
    pub descriptor: Option<Seq<char>>,
    /// The descriptor's digest.
    pub descriptor_sha256: Option<Seq<char>>,
}

/// A catalog entry read as plain values.
pub open spec fn entry_model(e: CatalogEntry) -> EntryModel {
    EntryModel {
        version: e.version@,
        checksum: e.checksum@,
        eligible: e.eligible,
        reason: maybe_text(e.reason),
        descriptor: maybe_text(e.descriptor),
        descriptor_sha256: maybe_text(e.descriptor_sha256),
    }
}

/// The keys a catalog entry takes.
pub open spec fn entry_keys() -> Seq<Seq<char>> {
    seq!["version"@, "checksum"@, "eligible"@, "reason"@, "descriptor"@, "descriptor_sha256"@]
}

/// The keys the catalog takes.
pub open spec fn index_keys() -> Seq<Seq<char>> {
    seq!["schema"@, "audited_on"@, "capability_floor"@, "releases"@]
}

/// The keys a descriptor takes.
pub open spec fn descriptor_keys() -> Seq<Seq<char>> {
    seq!["version"@, "payload_roots"@, "projection"@]
}

/// What a catalog entry reads as: no key it does not take, then each
/// field in order, the first refusal winning.
pub open spec fn entry_read(t: TomlModel) -> Result<EntryModel, Seq<char>> {
    match t {
        TomlModel::Table(e) => match stray_key(e, entry_keys()) {
            Some(k) => Err(stray_message(k)),
            None => match text_field_of(lookup(e, "version"@), "version"@) {
                Err(m) => Err(m),
                Ok(version) => match text_field_of(lookup(e, "checksum"@), "checksum"@) {
                    Err(m) => Err(m),
                    Ok(checksum) => match bool_field_of(lookup(e, "eligible"@), "eligible"@) {
                        Err(m) => Err(m),
                        Ok(eligible) => match optional_text_field_of(lookup(e, "reason"@), "reason"@) {
                            Err(m) => Err(m),
                            Ok(reason) => match optional_text_field_of(
                                lookup(e, "descriptor"@),
                                "descriptor"@,
                            ) {
                                Err(m) => Err(m),
                                Ok(descriptor) => match optional_text_field_of(
                                    lookup(e, "descriptor_sha256"@),
                                    "descriptor_sha256"@,
                                ) {
                                    Err(m) => Err(m),
                                    Ok(descriptor_sha256) => Ok(
                                        EntryModel {
                                            version,
                                            checksum,
                                            eligible,
                                            reason,
                                            descriptor,
                                            descriptor_sha256,
                                        },
                                    ),
                                },
                            },
                        },
                    },
                },
            },
        },
        _ => Err("a release entry is not a table"@),
    }
}

/// What a list of catalog entries reads as: the first refusal in order,
/// or every entry.
pub open spec fn entries_read(items: Seq<TomlModel>) -> Result<Seq<EntryModel>, Seq<char>>
    decreases items.len(),
{
    if items.len() == 0 {
        Ok(Seq::empty())
    } else {
        match entries_read(items.drop_last()) {
            Err(m) => Err(m),
            Ok(before) => match entry_read(items.last()) {
                Err(m) => Err(m),
                Ok(e) => Ok(before.push(e)),
            },
        }
    }
}

/// The catalog as plain values: schema, audit date, floor, entries.
pub type IndexModel = (u32, Seq<char>, Seq<char>, Seq<EntryModel>);

/// What a catalog document reads as.
pub open spec fn index_read(text: Seq<char>) -> Result<IndexModel, Seq<char>> {
    match toml_read(text) {
        Err(m) => Err(m),
        Ok(TomlModel::Table(e)) => match stray_key(e, index_keys()) {
            Some(k) => Err(stray_message(k)),
            None => match count_field_of(lookup(e, "schema"@), "schema"@) {
                Err(m) => Err(m),
                Ok(schema) => match text_field_of(lookup(e, "audited_on"@), "audited_on"@) {
                    Err(m) => Err(m),
                    Ok(audited_on) => match text_field_of(
                        lookup(e, "capability_floor"@),
                        "capability_floor"@,
                    ) {
                        Err(m) => Err(m),
                        Ok(floor) => match lookup(e, "releases"@) {
                            None => Err("missing field `releases`"@),
                            Some(TomlModel::Array(items)) => match entries_read(items) {
                                Err(m) => Err(m),
                                Ok(entries) => Ok((schema, audited_on, floor, entries)),
                            },
                            Some(_) => Err("field `releases` is not a list of tables"@),
                        },
                    },
                },
            },
        },
        Ok(_) => Err("the document is not a table"@),
    }
}

/// A catalog read as plain values.
pub open spec fn index_model(i: CatalogIndex) -> IndexModel {
    (i.schema, i.audited_on@, i.capability_floor@, i.releases@.map_values(|e: CatalogEntry| entry_model(e)))
}

/// What a descriptor document reads as: its version, its payload roots,
/// and the declaration table it carries.
pub open spec fn descriptor_read(text: Seq<char>) -> Result<(Seq<char>, Seq<Seq<char>>, TomlModel), Seq<char>> {
    match toml_read(text) {
        Err(m) => Err(m),
        Ok(TomlModel::Table(e)) => match stray_key(e, descriptor_keys()) {
            Some(k) => Err(stray_message(k)),
            None => match text_field_of(lookup(e, "version"@), "version"@) {
                Err(m) => Err(m),
                Ok(version) => match text_list_field_of(lookup(e, "payload_roots"@), "payload_roots"@) {
                    Err(m) => Err(m),
                    Ok(roots) => match lookup(e, "projection"@) {
                        None => Err("missing field `projection`"@),
                        Some(TomlModel::Table(p)) => Ok((version, roots, TomlModel::Table(p))),
                        Some(_) => Err("field `projection` is not a table"@),
                    },
                },
            },
        },
        Ok(_) => Err("the document is not a table"@),
    }
}

/// A descriptor read as plain values.
pub open spec fn descriptor_model(d: Descriptor) -> (Seq<char>, Seq<Seq<char>>, TomlModel) {
    (d.version@, d.payload_roots@.map_values(|s: String| s@), d.projection@)
}

/// Read one catalog entry.
fn read_entry(t: &Toml) -> (r: Result<CatalogEntry, String>)
    ensures
        match r {
            Ok(e) => entry_read(t@) == Ok::<EntryModel, Seq<char>>(entry_model(e)),
            Err(m) => entry_read(t@) == Err::<EntryModel, Seq<char>>(m@),
        },
{
    let entries = match t {
        Toml::Table(entries) => entries,
        _ => {
            return Err(owned("a release entry is not a table"));
        },
    };
    let allowed: Vec<&str> = vec!["version", "checksum", "eligible", "reason", "descriptor", "descriptor_sha256"];
    assert(allowed@.map_values(|a: &str| a@) =~= entry_keys());
    if let Some(k) = stray(entries, &allowed) {
        return Err(stray_refusal(k));
    }
    let version = match text_field(entries, "version") {
        Ok(v) => v,
        Err(m) => {
            return Err(m);
        },
    };
    let checksum = match text_field(entries, "checksum") {
        Ok(v) => v,
        Err(m) => {
            return Err(m);
        },
    };
    let eligible = match bool_field(entries, "eligible") {
        Ok(v) => v,
        Err(m) => {
            return Err(m);
        },
    };
    let reason = match optional_text_field(entries, "reason") {
        Ok(v) => v,
        Err(m) => {
            return Err(m);
        },
    };
    let descriptor = match optional_text_field(entries, "descriptor") {
        Ok(v) => v,
        Err(m) => {
            return Err(m);
        },
    };
    let descriptor_sha256 = match optional_text_field(entries, "descriptor_sha256") {
        Ok(v) => v,
        Err(m) => {
            return Err(m);
        },
    };
    Ok(CatalogEntry { version, checksum, eligible, reason, descriptor, descriptor_sha256 })
}

/// Read every catalog entry, in order.
fn read_entries(items: &Vec<Toml>) -> (r: Result<Vec<CatalogEntry>, String>)
    ensures
        match r {
            Ok(es) => entries_read(toml_models(items@)) == Ok::<Seq<EntryModel>, Seq<char>>(
                es@.map_values(|e: CatalogEntry| entry_model(e)),
            ),
            Err(m) => entries_read(toml_models(items@)) == Err::<Seq<EntryModel>, Seq<char>>(m@),
        },
{
    proof {
        crate::toml_doc::lemma_toml_models(items@);
    }
    let ghost models = toml_models(items@);
    let mut releases: Vec<CatalogEntry> = Vec::new();
    assert(models.take(0) =~= Seq::<TomlModel>::empty());
    assert(releases@.map_values(|e: CatalogEntry| entry_model(e)) =~= Seq::<EntryModel>::empty());
    let mut i: usize = 0;
    while i < items.len()
        invariant
            i <= items.len(),
            models == toml_models(items@),
            models.len() == items@.len(),
            forall|j: int| 0 <= j < items@.len() ==> #[trigger] models[j] == items@[j]@,
            entries_read(models.take(i as int)) == Ok::<Seq<EntryModel>, Seq<char>>(
                releases@.map_values(|e: CatalogEntry| entry_model(e)),
            ),
        decreases items.len() - i,
    {
        assert(models.take(i + 1).drop_last() =~= models.take(i as int));
        assert(models.take(i + 1).last() == models[i as int]);
        let e = match read_entry(&items[i]) {
            Ok(e) => e,
            Err(m) => {
                proof {
                    lemma_entries_prefix(models, i + 1);
                }
                return Err(m);
            },
        };
        let ghost before = releases@.map_values(|e: CatalogEntry| entry_model(e));
        releases.push(e);
        assert(releases@.map_values(|e: CatalogEntry| entry_model(e)) =~= before.push(entry_model(e)));
        i += 1;
    }
    assert(models.take(items.len() as int) =~= models);
    Ok(releases)
}

/// Read a catalog document.
pub fn parse_index(text: &str) -> (r: Result<CatalogIndex, String>)
    ensures
        match r {
            Ok(i) => index_read(text@) == Ok::<IndexModel, Seq<char>>(index_model(i)),
            Err(m) => index_read(text@) == Err::<IndexModel, Seq<char>>(m@),
        },
{
    let doc = match read_toml(text) {
        Ok(v) => v,
        Err(m) => {
            return Err(m);
        },
    };
    let entries = match &doc {
        Toml::Table(entries) => entries,
        _ => {
            return Err(owned("the document is not a table"));
        },
    };
    let allowed: Vec<&str> = vec!["schema", "audited_on", "capability_floor", "releases"];
    assert(allowed@.map_values(|a: &str| a@) =~= index_keys());
    if let Some(k) = stray(entries, &allowed) {
        return Err(stray_refusal(k));
    }
    let schema = match count_field(entries, "schema") {
        Ok(v) => v,
        Err(m) => {
            return Err(m);
        },
    };
    let audited_on = match text_field(entries, "audited_on") {
        Ok(v) => v,
        Err(m) => {
            return Err(m);
        },
    };
    let capability_floor = match text_field(entries, "capability_floor") {
        Ok(v) => v,
        Err(m) => {
            return Err(m);
        },
    };
    let items = match crate::toml_doc::field(entries, "releases") {
        None => {
            return Err(owned("missing field `releases`"));
        },
        Some(Toml::Array(items)) => items,
        Some(_) => {
            return Err(owned("field `releases` is not a list of tables"));
        },
    };
    let releases = match read_entries(items) {
        Ok(r) => r,
        Err(m) => {
            return Err(m);
        },
    };
    Ok(CatalogIndex { schema, audited_on, capability_floor, releases })
}

/// A refusal among the first `n` entries is the refusal of the list.
proof fn lemma_entries_prefix(items: Seq<TomlModel>, n: int)
    requires
        0 <= n <= items.len(),
        entries_read(items.take(n)) is Err,
    ensures
        entries_read(items) == entries_read(items.take(n)),
    decreases items.len(),
{
    if n == items.len() {
        assert(items.take(n) =~= items);
    } else {
        assert(items.drop_last().take(n) =~= items.take(n));
        lemma_entries_prefix(items.drop_last(), n);
    }
}

/// Read a descriptor document.
pub fn parse_descriptor(text: &str) -> (r: Result<Descriptor, String>)
    ensures
        match r {
            Ok(d) => descriptor_read(text@) == Ok::<(Seq<char>, Seq<Seq<char>>, TomlModel), Seq<char>>(
                descriptor_model(d),
            ),
            Err(m) => descriptor_read(text@) == Err::<(Seq<char>, Seq<Seq<char>>, TomlModel), Seq<char>>(m@),
        },
{
    let doc = match read_toml(text) {
        Ok(v) => v,
        Err(m) => {
            return Err(m);
        },
    };
    let mut entries = match doc {
        Toml::Table(entries) => entries,
        _ => {
            return Err(owned("the document is not a table"));
        },
    };
    let allowed: Vec<&str> = vec!["version", "payload_roots", "projection"];
    assert(allowed@.map_values(|a: &str| a@) =~= descriptor_keys());
    if let Some(k) = stray(&entries, &allowed) {
        return Err(stray_refusal(k));
    }
    let version = match text_field(&entries, "version") {
        Ok(v) => v,
        Err(m) => {
            return Err(m);
        },
    };
    let payload_roots = match text_list_field(&entries, "payload_roots") {
        Ok(v) => v,
        Err(m) => {
            return Err(m);
        },
    };
    let projection = match take_field(entries, "projection") {
        None => {
            return Err(owned("missing field `projection`"));
        },
        Some(t) => t,
    };
    match &projection {
        Toml::Table(_) => {},
        _ => {
            return Err(owned("field `projection` is not a table"));
        },
    }
    Ok(Descriptor { version, payload_roots, projection })
}

/// Where a key first stands among a table's entries.
fn key_index(entries: &Vec<(String, Toml)>, key: &str) -> (r: Option<usize>)
    ensures
        match r {
            Some(p) => crate::toml_doc::key_at(toml_entries(entries@), key@, 0) == Some(p as int) && p < entries@.len(),
            None => crate::toml_doc::key_at(toml_entries(entries@), key@, 0) is None,
        },
{
    proof {
        crate::toml_doc::lemma_toml_entries(entries@);
    }
    let ghost e = toml_entries(entries@);
    let mut i: usize = 0;
    while i < entries.len()
        invariant
            i <= entries.len(),
            e == toml_entries(entries@),
            e.len() == entries@.len(),
            forall|j: int| 0 <= j < entries@.len() ==> #[trigger] e[j] == (entries@[j].0@, entries@[j].1@),
            crate::toml_doc::key_at(e, key@, 0) == crate::toml_doc::key_at(e, key@, i as int),
        decreases entries.len() - i,
    {
        assert(e[i as int] == (entries@[i as int].0@, entries@[i as int].1@));
        if same_text(entries[i].0.as_str(), key) {
            return Some(i);
        }
        i += 1;
    }
    None
}

/// The value under a key, moved out of the table, where it holds one.
fn take_field(entries: Vec<(String, Toml)>, key: &str) -> (r: Option<Toml>)
    ensures
        match r {
            Some(t) => lookup(toml_entries(entries@), key@) == Some(t@),
            None => lookup(toml_entries(entries@), key@) is None,
        },
{
    proof {
        crate::toml_doc::lemma_toml_entries(entries@);
    }
    let ghost all = entries@;
    match key_index(&entries, key) {
        None => None,
        Some(p) => {
            let mut rest = entries;
            let (_, v) = rest.swap_remove(p);
            assert(v == all[p as int].1);
            assert(toml_entries(all)[p as int] == (all[p as int].0@, all[p as int].1@));
            Some(v)
        },
    }
}

/// The audited catalog of pre-schema releases: the index, and the text of
/// each descriptor this engine carries, by version.
#[derive(Debug)]
pub struct LegacyCatalog {
    index: CatalogIndex,
    descriptors: TextMap<String>,
}

/// The first catalog entry naming a version, where one does.
pub open spec fn entry_for(es: Seq<CatalogEntry>, version: Seq<char>) -> Option<int>
    decreases es.len(),
{
    if es.len() == 0 {
        None
    } else {
        match entry_for(es.drop_last(), version) {
            Some(i) => Some(i),
            None => if es.last().version@ == version {
                Some(es.len() - 1)
            } else {
                None
            },
        }
    }
}

/// What the catalog answers for one version: the descriptor and its
/// digest, or the refusal. Unknown, ineligible, nameless, uncarried,
/// digest-drifted, unreadable, and misfiled descriptors refuse, in that
/// order.
pub open spec fn descriptor_answer(
    es: Seq<CatalogEntry>,
    floor: Seq<char>,
    carried: Map<Seq<char>, Seq<char>>,
    version: Seq<char>,
) -> Result<((Seq<char>, Seq<Seq<char>>, TomlModel), Seq<char>), Seq<char>> {
    match entry_for(es, version) {
        None => Err(
            version + " is not in the release catalog, and it declares no projection of its own, so this engine cannot say what it lands"@,
        ),
        Some(i) => {
            let e = es[i];
            if !e.eligible {
                Err(version + " is unavailable as a destination: "@ + match e.reason {
                    Some(r) => r@,
                    None => "it was not audited"@,
                } + ". The lowest release this engine reads is "@ + floor)
            } else {
                match e.descriptor {
                    None => Err(version + " is eligible and names no descriptor"@),
                    Some(name) => if !carried.dom().contains(version) {
                        Err("this engine does not carry "@ + name@)
                    } else {
                        let text = carried[version];
                        let digest = digest_text(encode_utf8(text));
                        let recorded = match e.descriptor_sha256 {
                            Some(d) => d@,
                            None => Seq::empty(),
                        };
                        if digest != recorded {
                            Err("the descriptor for "@ + version + " hashes to "@ + digest
                                + " and the catalog records "@ + recorded)
                        } else {
                            match descriptor_read(text) {
                                Err(m) => Err(name@ + " does not parse: "@ + m),
                                Ok(d) => if d.0 != version {
                                    Err(name@ + " describes "@ + d.0 + " and the catalog files it under "@
                                        + version)
                                } else {
                                    Ok((d, digest))
                                },
                            }
                        }
                    },
                }
            }
        },
    }
}

impl LegacyCatalog {
    /// A catalog from its index and the descriptors it carries, by version.
    pub fn new(index: CatalogIndex, descriptors: TextMap<String>) -> (c: LegacyCatalog)
        ensures
            index_model(c.index_view()) == index_model(index),
            c.carried() == descriptors@,
    {
        LegacyCatalog { index, descriptors }
    }

    /// The index, as a value.
    pub closed spec fn index_view(&self) -> CatalogIndex {
        self.index
    }

    /// The descriptors carried, by version.
    pub closed spec fn carried(&self) -> Map<Seq<char>, Seq<char>> {
        self.descriptors@
    }

    /// What the catalog says about one version: the first entry naming it.
    pub fn entry(&self, version: &str) -> (r: Option<&CatalogEntry>)
        ensures
            match entry_for(self.index_view().releases@, version@) {
                Some(i) => r matches Some(e) && *e == self.index_view().releases@[i],
                None => r is None,
            },
    {
        let es = &self.index.releases;
        let mut i: usize = 0;
        while i < es.len()
            invariant
                i <= es.len(),
                *es == self.index.releases,
                entry_for(es@.take(i as int), version@) is None,
            decreases es.len() - i,
        {
            assert(es@.take(i + 1).drop_last() =~= es@.take(i as int));
            assert(es@.take(i + 1).last() == es@[i as int]);
            if same_text(es[i].version.as_str(), version) {
                proof {
                    assert(entry_for(es@.take(i + 1), version@) == Some(i as int));
                    lemma_entry_prefix(es@, i + 1, version@);
                    assert(self.index_view().releases@ == es@);
                    assert(entry_for(es@, version@) == Some(i as int));
                }
                let found = &es[i];
                assert(*found == es@[i as int]);
                return Some(found);
            }
            i += 1;
        }
        assert(es@.take(es.len() as int) =~= es@);
        None
    }

    /// The index itself.
    pub fn index(&self) -> (r: &CatalogIndex)
        ensures
            index_model(*r) == index_model(self.index_view()),
    {
        &self.index
    }

    /// Every descriptor carried, by version.
    pub fn descriptors(&self) -> (r: &TextMap<String>)
        ensures
            r@ == self.carried(),
    {
        &self.descriptors
    }

    /// The descriptor one version resolves to, checked against the index,
    /// and its digest.
    pub fn descriptor(&self, version: &str) -> (r: Result<(Descriptor, Sha256), ReleaseError>)
        ensures
            match descriptor_answer(
                self.index_view().releases@,
                self.index_view().capability_floor@,
                self.carried(),
                version@,
            ) {
                Ok((d, digest)) => r matches Ok((held, h)) && descriptor_model(held) == d && h@ == digest,
                Err(m) => r matches Err(ReleaseError::Refused(text)) && text@ == m,
            },
    {
        let entry = match self.entry(version) {
            Some(e) => e,
            None => {
                let mut m = owned(version);
                append(
                    &mut m,
                    " is not in the release catalog, and it declares no projection of its own, so this engine cannot say what it lands",
                );
                return Err(ReleaseError::Refused(m));
            },
        };
        if !entry.eligible {
            let mut m = owned(version);
            append(&mut m, " is unavailable as a destination: ");
            match &entry.reason {
                Some(reason) => append(&mut m, reason.as_str()),
                None => append(&mut m, "it was not audited"),
            }
            append(&mut m, ". The lowest release this engine reads is ");
            append(&mut m, self.index.capability_floor.as_str());
            return Err(ReleaseError::Refused(m));
        }
        let name = match &entry.descriptor {
            Some(n) => n,
            None => {
                let mut m = owned(version);
                append(&mut m, " is eligible and names no descriptor");
                return Err(ReleaseError::Refused(m));
            },
        };
        let text = match self.descriptors.get(version) {
            Some(t) => t,
            None => {
                assert(self.carried() == self.descriptors@);
                let mut m = owned("this engine does not carry ");
                append(&mut m, name.as_str());
                return Err(ReleaseError::Refused(m));
            },
        };
        proof {
            reveal_strlit("");
            assert(self.carried() == self.descriptors@);
        }
        let digest = Sha256::of(text.as_str().as_bytes());
        let recorded: &str = match &entry.descriptor_sha256 {
            Some(d) => d.as_str(),
            None => "",
        };
        if !same_text(digest.as_str(), recorded) {
            let mut m = owned("the descriptor for ");
            append(&mut m, version);
            append(&mut m, " hashes to ");
            append(&mut m, digest.as_str());
            append(&mut m, " and the catalog records ");
            append(&mut m, recorded);
            return Err(ReleaseError::Refused(m));
        }
        let held = match parse_descriptor(text.as_str()) {
            Ok(d) => d,
            Err(source) => {
                let mut m = owned(name.as_str());
                append(&mut m, " does not parse: ");
                append(&mut m, source.as_str());
                return Err(ReleaseError::Refused(m));
            },
        };
        if !same_text(held.version.as_str(), version) {
            let mut m = owned(name.as_str());
            append(&mut m, " describes ");
            append(&mut m, held.version.as_str());
            append(&mut m, " and the catalog files it under ");
            append(&mut m, version);
            return Err(ReleaseError::Refused(m));
        }
        Ok((held, digest))
    }
}

/// The first entry found in a prefix is the first entry of the whole.
proof fn lemma_entry_prefix(es: Seq<CatalogEntry>, n: int, version: Seq<char>)
    requires
        0 <= n <= es.len(),
        entry_for(es.take(n), version) is Some,
    ensures
        entry_for(es, version) == entry_for(es.take(n), version),
    decreases es.len(),
{
    if n == es.len() {
        assert(es.take(n) =~= es);
    } else {
        assert(es.drop_last().take(n) =~= es.take(n));
        lemma_entry_prefix(es.drop_last(), n, version);
    }
}

} // verus!
