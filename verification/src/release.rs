//! The release boundary: what a release is, and what a bundle answers with.
//!
//! A bundle answers with a manifest and with blobs by digest, and it does
//! not say where the bytes came from. Every bundle builds its manifest and
//! serves its blobs through the functions here, so a release's identity is
//! computed one way whichever transport served the bytes.

use vstd::prelude::*;
use vstd::utf8::encode_utf8;

use crate::digest::{digest_text, Sha256};
use crate::sorted_map::{
    entries_map, lemma_map_at, lemma_sorted_entries_canonical, put_entry, sorted_keys,
};
use crate::text::{
    append, lemma_text_lt_asymmetric, lemma_text_lt_irreflexive, lemma_text_lt_total,
    lemma_text_lt_transitive, copy_bytes, owned, push_char, same_text, str_lt, text_lt,
};


pub mod crates_io;
pub mod embedded;
pub mod fixture;
pub mod legacy;
pub mod registry_choice;
pub mod selector;

verus! {

/// The machine schema `sdd payload --json` declares.
///
/// Independent of the status schema, the installed-record schema, and the
/// payload schema: they version different things and move on their own
/// dates.
pub const MANIFEST_SCHEMA: &'static str = "sdd.payload/1";

/// Where a release's facts came from.
#[derive(Debug, Clone, Copy, PartialEq, Eq, Structural)]
pub enum Provenance {
    /// The release declares itself.
    Native,
    /// The release predates the declaration, and an audited catalog entry
    /// supplies its projection facts.
    LegacyAdapted,
}

/// What one artifact is to the engine.
#[derive(Debug, Clone, Copy, PartialEq, Eq, Structural)]
pub enum Role {
    /// A file the release can project into a target.
    Payload,
    /// A fact about the release that no target receives.
    Metadata,
}

/// Why a bundle refused a request.
#[derive(Debug, Clone, PartialEq, Eq)]
pub enum ReleaseError {
    /// The request names something the bundle does not carry, or bytes
    /// this engine does not accept.
    Refused(String),
}

impl ReleaseError {
    /// What the refusal says.
    pub fn message(&self) -> (m: String)
        ensures
            m@ == (match self {
                ReleaseError::Refused(text) => text@,
            }),
    {
        match self {
            ReleaseError::Refused(text) => text.clone(),
        }
    }
}

/// Logical paths and their bytes, each path once, in path order: what a
/// `BTreeMap<String, Vec<u8>>` of files is when it is walked.
#[derive(Debug)]
pub struct FileMap {
    entries: Vec<(String, Vec<u8>)>,
}

impl View for FileMap {
    type V = Map<Seq<char>, Seq<u8>>;

    closed spec fn view(&self) -> Map<Seq<char>, Seq<u8>> {
        entries_map(self.entries@)
    }
}

/// Entries read as their paths and bytes.
pub open spec fn entry_views(s: Seq<(String, Vec<u8>)>) -> Seq<(Seq<char>, Seq<u8>)> {
    s.map_values(|e: (String, Vec<u8>)| (e.0@, e.1@))
}

impl FileMap {
    #[verifier::type_invariant]
    spec fn sorted(self) -> bool {
        sorted_keys(self.entries@)
    }

    /// Whether the entries keep their paths strictly in order, as every
    /// file map does.
    pub closed spec fn wf(self) -> bool {
        sorted_keys(self.entries@)
    }

    /// The entries in path order, each path once.
    pub closed spec fn ordered(self) -> Seq<(Seq<char>, Seq<u8>)> {
        entry_views(self.entries@)
    }

    /// No files.
    pub fn new() -> (m: FileMap)
        ensures
            m@ == Map::<Seq<char>, Seq<u8>>::empty(),
            m.ordered().len() == 0,
            m.wf(),
    {
        let m = FileMap { entries: Vec::new() };
        assert(m@ =~= Map::<Seq<char>, Seq<u8>>::empty());
        assert(m.ordered() =~= Seq::<(Seq<char>, Seq<u8>)>::empty());
        m
    }

    /// Put `bytes` under `path`, replacing what was there.
    pub fn insert(&mut self, path: &str, bytes: Vec<u8>)
        ensures
            final(self)@ == old(self)@.insert(path@, bytes@),
            final(self).wf(),
    {
        proof {
            use_type_invariant(&*self);
        }
        let mut entries = Vec::new();
        std::mem::swap(&mut entries, &mut self.entries);
        put_entry(&mut entries, path, bytes);
        self.entries = entries;
    }

    /// How many files.
    pub fn len(&self) -> (n: usize)
        ensures
            n == self.ordered().len(),
    {
        self.entries.len()
    }

    /// Whether no file is held.
    pub fn is_empty(&self) -> (r: bool)
        ensures
            r <==> self@.dom() == Set::<Seq<char>>::empty(),
            r <==> self.ordered().len() == 0,
    {
        proof {
            use_type_invariant(self);
            if self.entries@.len() > 0 {
                lemma_map_at(self.entries@, 0);
                assert(self@.dom().contains(self.entries@[0].0@));
            } else {
                assert(self@.dom() =~= Set::<Seq<char>>::empty());
            }
        }
        self.entries.len() == 0
    }

    /// The entries, in path order.
    pub fn entries(&self) -> (r: &Vec<(String, Vec<u8>)>)
        ensures
            entry_views(r@) == self.ordered(),
            sorted_keys(r@),
            entries_map(r@) == self@,
            self.wf(),
    {
        proof {
            use_type_invariant(self);
        }
        &self.entries
    }

    /// The bytes under one path, where there are any.
    pub fn get(&self, path: &str) -> (r: Option<&Vec<u8>>)
        ensures
            r matches Some(b) ==> self@.dom().contains(path@) && self@[path@] == b@,
            r is None ==> !self@.dom().contains(path@),
    {
        proof {
            use_type_invariant(self);
        }
        let mut i: usize = 0;
        while i < self.entries.len()
            invariant
                i <= self.entries.len(),
                sorted_keys(self.entries@),
                forall|j: int| 0 <= j < i ==> self.entries@[j].0@ != path@,
            decreases self.entries.len() - i,
        {
            if same_text(self.entries[i].0.as_str(), path) {
                proof {
                    lemma_map_at(self.entries@, i as int);
                }
                return Some(&self.entries[i].1);
            }
            i += 1;
        }
        None
    }

    /// The ordered entries are the map's, path by path, in increasing order.
    pub proof fn lemma_ordered(self)
        requires
            self.wf(),
        ensures
            forall|i: int, j: int|
                0 <= i < j < self.ordered().len() ==> text_lt(
                    #[trigger] self.ordered()[i].0,
                    #[trigger] self.ordered()[j].0,
                ),
            forall|i: int|
                0 <= i < self.ordered().len() ==> self@.dom().contains(
                    (#[trigger] self.ordered()[i]).0,
                ) && self@[self.ordered()[i].0] == self.ordered()[i].1,
    {
        assert forall|i: int| 0 <= i < self.ordered().len() implies self@.dom().contains(
            (#[trigger] self.ordered()[i]).0,
        ) && self@[self.ordered()[i].0] == self.ordered()[i].1 by {
            lemma_map_at(self.entries@, i);
        }
    }

    /// A second file map holding the same files.
    pub fn copied(&self) -> (r: FileMap)
        ensures
            r@ == self@,
            r.ordered() == self.ordered(),
            r.wf(),
    {
        proof {
            use_type_invariant(self);
        }
        let mut entries: Vec<(String, Vec<u8>)> = Vec::new();
        let mut i: usize = 0;
        while i < self.entries.len()
            invariant
                i <= self.entries.len(),
                entries@.len() == i,
                forall|k: int|
                    0 <= k < i ==> (#[trigger] entries@[k]).0@ == self.entries@[k].0@ && entries@[k].1@
                        == self.entries@[k].1@,
            decreases self.entries.len() - i,
        {
            entries.push((self.entries[i].0.clone(), copy_bytes(&self.entries[i].1)));
            i += 1;
        }
        let r = FileMap { entries };
        proof {
            assert(sorted_keys(r.entries@)) by {
                assert forall|a: int, b: int| 0 <= a < b < r.entries@.len() implies text_lt(
                    #[trigger] r.entries@[a].0@,
                    #[trigger] r.entries@[b].0@,
                ) by {
                    assert(text_lt(self.entries@[a].0@, self.entries@[b].0@));
                }
            }
            assert(r.ordered() =~= self.ordered());
            assert forall|k: Seq<char>| #[trigger] r@.dom().contains(k) <==> self@.dom().contains(k) by {
                if r@.dom().contains(k) {
                    let c = crate::sorted_map::index_of_key(r.entries@, k);
                    assert(self.entries@[c].0@ == k);
                }
                if self@.dom().contains(k) {
                    let c = crate::sorted_map::index_of_key(self.entries@, k);
                    assert(r.entries@[c].0@ == k);
                }
            }
            assert forall|k: Seq<char>| #[trigger] r@.dom().contains(k) implies r@[k] == self@[k] by {
                let c = crate::sorted_map::index_of_key(r.entries@, k);
                lemma_map_at(r.entries@, c);
                lemma_map_at(self.entries@, c);
            }
            assert(r@ =~= self@);
        }
        r
    }

    /// Two file maps holding the same files hold them in the same order.
    pub proof fn lemma_same_files_same_order(self, other: FileMap)
        requires
            self.wf(),
            other.wf(),
            self@ == other@,
        ensures
            self.ordered() == other.ordered(),
    {
        lemma_sorted_entries_canonical(self.entries@, other.entries@);
        assert(self.ordered() =~= other.ordered());
    }
}

/// One file a bundle carries.
#[derive(Debug, Clone, PartialEq, Eq)]
pub struct Artifact {
    /// The logical path, as the projection names it.
    pub path: String,
    /// Whether a target can receive it.
    pub role: Role,
    /// How many bytes it is.
    pub bytes: u64,
    /// Its digest, which is also its key in the blob store.
    pub sha256: Sha256,
}

/// One file to list, with the role it plays.
pub type Tagged = (Seq<char>, Seq<u8>, Role);

/// Each entry with one role.
pub open spec fn tagged(s: Seq<(Seq<char>, Seq<u8>)>, role: Role) -> Seq<Tagged> {
    s.map_values(|e: (Seq<char>, Seq<u8>)| (e.0, e.1, role))
}

/// Two path-ordered lists merged into one path-ordered list. Where both
/// carry a path, the first list's entry comes first, as a stable sort of
/// the first list followed by the second puts it.
pub open spec fn merged(a: Seq<Tagged>, b: Seq<Tagged>) -> Seq<Tagged>
    decreases a.len() + b.len(),
{
    if a.len() == 0 {
        b
    } else if b.len() == 0 {
        a
    } else if text_lt(b[0].0, a[0].0) {
        seq![b[0]] + merged(a, b.drop_first())
    } else {
        seq![a[0]] + merged(a.drop_first(), b)
    }
}

/// Whether an artifact lists one file in one role.
pub open spec fn lists(a: Artifact, t: Tagged) -> bool {
    &&& a.path@ == t.0
    &&& a.role == t.2
    &&& a.bytes == t.1.len()
    &&& a.sha256@ == digest_text(t.1)
}

/// Whether the artifacts list exactly these files, in this order.
pub open spec fn lists_all(arts: Seq<Artifact>, ts: Seq<Tagged>) -> bool {
    arts.len() == ts.len() && forall|i: int| 0 <= i < arts.len() ==> lists(#[trigger] arts[i], ts[i])
}

/// The text the payload digest is taken over: each artifact's path, a NUL,
/// its digest, and a newline, in order.
pub open spec fn payload_text(arts: Seq<Artifact>) -> Seq<char>
    decreases arts.len(),
{
    if arts.len() == 0 {
        Seq::empty()
    } else {
        payload_text(arts.drop_last()) + arts.last().path@ + seq!['\0'] + arts.last().sha256@
            + seq!['\n']
    }
}

/// The payload text of artifacts that list the same files is the same.
proof fn lemma_payload_text_lists(x: Seq<Artifact>, y: Seq<Artifact>, ts: Seq<Tagged>)
    requires
        lists_all(x, ts),
        lists_all(y, ts),
    ensures
        payload_text(x) == payload_text(y),
    decreases x.len(),
{
    if x.len() > 0 {
        assert(lists(x.last(), ts.last()));
        assert(lists(y.last(), ts.last()));
        assert(lists_all(x.drop_last(), ts.drop_last())) by {
            assert forall|i: int| 0 <= i < x.drop_last().len() implies lists(
                #[trigger] x.drop_last()[i],
                ts.drop_last()[i],
            ) by {
                assert(lists(x[i], ts[i]));
            }
        }
        assert(lists_all(y.drop_last(), ts.drop_last())) by {
            assert forall|i: int| 0 <= i < y.drop_last().len() implies lists(
                #[trigger] y.drop_last()[i],
                ts.drop_last()[i],
            ) by {
                assert(lists(y[i], ts[i]));
            }
        }
        lemma_payload_text_lists(x.drop_last(), y.drop_last(), ts.drop_last());
    }
}

/// What a bundle says about itself.
#[derive(Debug, Clone)]
pub struct ReleaseManifest {
    /// The machine schema of this object.
    pub schema: &'static str,
    /// The release this bundle is, spelled as the registry spells it.
    pub version: String,
    /// The protocol version between the engine and this bundle.
    pub payload_schema: u32,
    /// Where the release's facts came from.
    pub provenance: Provenance,
    /// The catalog descriptor used, where one was.
    pub descriptor_sha256: Option<Sha256>,
    /// A digest over every artifact's path and digest, in path order.
    pub payload_sha256: Sha256,
    /// Every file the bundle carries, in path order.
    pub artifacts: Vec<Artifact>,
}

/// The first artifact at a path, where there is one.
pub open spec fn first_at(arts: Seq<Artifact>, path: Seq<char>) -> Option<int> {
    if exists|i: int| 0 <= i < arts.len() && #[trigger] arts[i].path@ == path {
        Some(
            choose|i: int|
                0 <= i < arts.len() && #[trigger] arts[i].path@ == path && forall|j: int|
                    0 <= j < i ==> arts[j].path@ != path,
        )
    } else {
        None
    }
}

/// A first index exists wherever some index matches.
proof fn lemma_first_at(arts: Seq<Artifact>, path: Seq<char>, i: int)
    requires
        0 <= i < arts.len(),
        arts[i].path@ == path,
        forall|j: int| 0 <= j < i ==> arts[j].path@ != path,
    ensures
        first_at(arts, path) == Some(i),
{
    assert(exists|k: int| 0 <= k < arts.len() && #[trigger] arts[k].path@ == path);
    let c = choose|k: int|
        0 <= k < arts.len() && #[trigger] arts[k].path@ == path && forall|j: int|
            0 <= j < k ==> arts[j].path@ != path;
    assert(0 <= c < arts.len() && arts[c].path@ == path && forall|j: int|
        0 <= j < c ==> arts[j].path@ != path);
    if c < i {
        assert(arts[c].path@ != path);
    }
    if i < c {
        assert(arts[i].path@ != path);
    }
}

impl ReleaseManifest {
    /// The digest one logical path resolves to.
    pub fn digest_of(&self, path: &str) -> (r: Option<&Sha256>)
        ensures
            r is None <==> first_at(self.artifacts@, path@) is None,
            r matches Some(d) ==> *d == self.artifacts@[first_at(self.artifacts@, path@)->0].sha256,
    {
        let mut i: usize = 0;
        while i < self.artifacts.len()
            invariant
                i <= self.artifacts.len(),
                forall|j: int| 0 <= j < i ==> self.artifacts@[j].path@ != path@,
            decreases self.artifacts.len() - i,
        {
            if same_text(self.artifacts[i].path.as_str(), path) {
                proof {
                    lemma_first_at(self.artifacts@, path@, i as int);
                }
                return Some(&self.artifacts[i].sha256);
            }
            i += 1;
        }
        None
    }

    /// A digest over every artifact's path and digest, in the order given.
    ///
    /// Identity over content rather than over the archive: two bundles that
    /// carry the same files are the same release to the planner, whichever
    /// transport served them.
    pub fn payload_digest(artifacts: &Vec<Artifact>) -> (d: Sha256)
        ensures
            d@ == digest_text(encode_utf8(payload_text(artifacts@))),
    {
        let mut joined = String::new();
        let mut i: usize = 0;
        while i < artifacts.len()
            invariant
                i <= artifacts.len(),
                joined@ == payload_text(artifacts@.take(i as int)),
            decreases artifacts.len() - i,
        {
            assert(artifacts@.take(i + 1).drop_last() =~= artifacts@.take(i as int));
            append(&mut joined, artifacts[i].path.as_str());
            push_char(&mut joined, '\0');
            append(&mut joined, artifacts[i].sha256.as_str());
            push_char(&mut joined, '\n');
            i += 1;
        }
        assert(artifacts@.take(artifacts.len() as int) =~= artifacts@);
        Sha256::of(joined.as_str().as_bytes())
    }
}

/// The artifact for one file.
fn artifact_of(path: &str, bytes: &Vec<u8>, role: Role) -> (a: Artifact)
    ensures
        lists(a, (path@, bytes@, role)),
{
    Artifact {
        path: owned(path),
        role,
        bytes: bytes.len() as u64,
        sha256: Sha256::of(bytes.as_slice()),
    }
}

/// Whether the next merged entry comes from `b`.
pub open spec fn next_from_b(a: Seq<Tagged>, b: Seq<Tagged>, i: int, j: int) -> bool {
    i == a.len() || (j < b.len() && text_lt(b[j].0, a[i].0))
}

/// One more step of a merge: the next entry of `a` or of `b`.
proof fn lemma_merged_step(a: Seq<Tagged>, b: Seq<Tagged>, i: int, j: int)
    requires
        0 <= i <= a.len(),
        0 <= j <= b.len(),
    ensures
        (i < a.len() || j < b.len()) && next_from_b(a, b, i, j) ==> j < b.len() && merged(
            a.skip(i),
            b.skip(j),
        ) == seq![b[j]] + merged(a.skip(i), b.skip(j + 1)),
        (i < a.len() || j < b.len()) && !next_from_b(a, b, i, j) ==> i < a.len() && merged(
            a.skip(i),
            b.skip(j),
        ) == seq![a[i]] + merged(a.skip(i + 1), b.skip(j)),
        i == a.len() && j == b.len() ==> merged(a.skip(i), b.skip(j)).len() == 0,
{
    assert(a.skip(i).len() == a.len() - i);
    assert(b.skip(j).len() == b.len() - j);
    if i < a.len() {
        assert(a.skip(i)[0] == a[i]);
        assert(a.skip(i).drop_first() =~= a.skip(i + 1));
        assert(a.skip(i) =~= seq![a[i]] + a.skip(i + 1));
    }
    if j < b.len() {
        assert(b.skip(j)[0] == b[j]);
        assert(b.skip(j).drop_first() =~= b.skip(j + 1));
        assert(b.skip(j) =~= seq![b[j]] + b.skip(j + 1));
    }
    if i < a.len() && j == b.len() {
        if a.skip(i + 1).len() == 0 {
            assert(merged(a.skip(i + 1), b.skip(j)) == b.skip(j));
            assert(b.skip(j) =~= a.skip(i + 1));
        }
    }
}

/// Whether two optional digests are both absent or spell the same digest.
pub open spec fn same_digest(a: Option<Sha256>, b: Option<Sha256>) -> bool {
    match (a, b) {
        (None, None) => true,
        (Some(x), Some(y)) => x@ == y@,
        _ => false,
    }
}

/// Whether `m` is the manifest of a release with these facts, these
/// payload files, and these metadata files, each list in path order.
pub open spec fn is_manifest_of(
    m: ReleaseManifest,
    version: Seq<char>,
    payload_schema: u32,
    provenance: Provenance,
    descriptor_sha256: Option<Sha256>,
    files: Seq<(Seq<char>, Seq<u8>)>,
    metadata: Seq<(Seq<char>, Seq<u8>)>,
) -> bool {
    &&& m.schema@ == MANIFEST_SCHEMA@
    &&& m.version@ == version
    &&& m.payload_schema == payload_schema
    &&& m.provenance == provenance
    &&& same_digest(m.descriptor_sha256, descriptor_sha256)
    &&& lists_all(
        m.artifacts@,
        merged(tagged(files, Role::Payload), tagged(metadata, Role::Metadata)),
    )
    &&& m.payload_sha256@ == digest_text(encode_utf8(payload_text(m.artifacts@)))
}

/// Build a manifest from the payload files and the metadata files.
///
/// Shared by every bundle, so identity is computed one way whichever
/// transport served the bytes.
pub fn manifest_from(
    version: String,
    payload_schema: u32,
    provenance: Provenance,
    descriptor_sha256: Option<Sha256>,
    files: &FileMap,
    metadata: &FileMap,
) -> (m: ReleaseManifest)
    ensures
        is_manifest_of(
            m,
            version@,
            payload_schema,
            provenance,
            descriptor_sha256,
            files.ordered(),
            metadata.ordered(),
        ),
{
    let a = files.entries();
    let b = metadata.entries();
    let ghost ta = tagged(files.ordered(), Role::Payload);
    let ghost tb = tagged(metadata.ordered(), Role::Metadata);
    let ghost whole = merged(ta, tb);
    let mut artifacts: Vec<Artifact> = Vec::new();
    let mut i: usize = 0;
    let mut j: usize = 0;
    assert(ta.skip(0) =~= ta);
    assert(tb.skip(0) =~= tb);
    assert(whole.take(0) + whole =~= whole);
    while i < a.len() || j < b.len()
        invariant
            i <= a.len(),
            j <= b.len(),
            entry_views(a@) == files.ordered(),
            entry_views(b@) == metadata.ordered(),
            ta == tagged(files.ordered(), Role::Payload),
            tb == tagged(metadata.ordered(), Role::Metadata),
            whole == merged(ta, tb),
            lists_all(artifacts@, whole.take(artifacts@.len() as int)),
            whole == whole.take(artifacts@.len() as int) + merged(ta.skip(i as int), tb.skip(j as int)),
        decreases a.len() + b.len() - i - j,
    {
        let ghost n: int = artifacts@.len() as int;
        proof {
            lemma_merged_step(ta, tb, i as int, j as int);
            if i < a.len() {
                assert(entry_views(a@)[i as int] == (a@[i as int].0@, a@[i as int].1@));
                assert(ta[i as int] == (a@[i as int].0@, a@[i as int].1@, Role::Payload));
            }
            if j < b.len() {
                assert(entry_views(b@)[j as int] == (b@[j as int].0@, b@[j as int].1@));
                assert(tb[j as int] == (b@[j as int].0@, b@[j as int].1@, Role::Metadata));
            }
        }
        let take_b = if i == a.len() {
            true
        } else if j == b.len() {
            false
        } else {
            str_lt(b[j].0.as_str(), a[i].0.as_str())
        };
        if take_b {
            let art = artifact_of(b[j].0.as_str(), &b[j].1, Role::Metadata);
            proof {
                assert(whole[n as int] == tb[j as int]) by {
                    assert(merged(ta.skip(i as int), tb.skip(j as int))[0] == tb[j as int]);
                }
            }
            artifacts.push(art);
            j += 1;
        } else {
            let art = artifact_of(a[i].0.as_str(), &a[i].1, Role::Payload);
            proof {
                assert(whole[n as int] == ta[i as int]) by {
                    assert(merged(ta.skip(i as int), tb.skip(j as int))[0] == ta[i as int]);
                }
            }
            artifacts.push(art);
            i += 1;
        }
        proof {
            assert(whole.take(n + 1) =~= whole.take(n as int).push(whole[n as int]));
            assert(lists_all(artifacts@, whole.take(artifacts@.len() as int))) by {
                assert forall|k: int| 0 <= k < artifacts@.len() implies lists(
                    #[trigger] artifacts@[k],
                    whole.take(artifacts@.len() as int)[k],
                ) by {
                    if k < n {
                        assert(lists(artifacts@[k], whole.take(n as int)[k]));
                    }
                }
            }
            assert(whole == whole.take(artifacts@.len() as int) + merged(
                ta.skip(i as int),
                tb.skip(j as int),
            ));
        }
    }
    proof {
        lemma_merged_step(ta, tb, i as int, j as int);
        assert(merged(ta.skip(i as int), tb.skip(j as int)).len() == 0);
        assert(whole.take(artifacts@.len() as int) =~= whole);
    }
    let payload_sha256 = ReleaseManifest::payload_digest(&artifacts);
    ReleaseManifest {
        schema: MANIFEST_SCHEMA,
        version,
        payload_schema,
        provenance,
        descriptor_sha256,
        payload_sha256,
        artifacts,
    }
}


/// The bytes of every file a bundle carries: the payload files in path
/// order, then the metadata files in path order.
pub open spec fn blobs(files: Seq<(Seq<char>, Seq<u8>)>, metadata: Seq<(Seq<char>, Seq<u8>)>) -> Seq<
    Seq<u8>,
> {
    files.map_values(|e: (Seq<char>, Seq<u8>)| e.1) + metadata.map_values(
        |e: (Seq<char>, Seq<u8>)| e.1,
    )
}

/// Whether `r` serves `digest` out of `blobs`: the first blob with that
/// digest, or the refusal that names the digest where none has it.
pub open spec fn serves(r: Result<Vec<u8>, ReleaseError>, blobs: Seq<Seq<u8>>, digest: Seq<char>) -> bool {
    &&& r is Err <==> forall|i: int| 0 <= i < blobs.len() ==> digest_text(#[trigger] blobs[i]) != digest
    &&& r matches Ok(b) ==> exists|i: int|
        0 <= i < blobs.len() && #[trigger] blobs[i] == b@ && digest_text(b@) == digest && forall|j: int|
            0 <= j < i ==> digest_text(blobs[j]) != digest
    &&& r matches Err(e) ==> e == ReleaseError::Refused(e->0) && e->0@ == "the bundle carries no blob "@
        + digest
}

/// Look for a blob among entries, returning the first whose digest matches.
fn find_blob(entries: &Vec<(String, Vec<u8>)>, digest: &Sha256) -> (r: Option<Vec<u8>>)
    ensures
        r is None <==> forall|i: int| 0 <= i < entries@.len() ==> digest_text(
            (#[trigger] entries@[i]).1@,
        ) != digest@,
        r matches Some(b) ==> exists|i: int|
            0 <= i < entries@.len() && (#[trigger] entries@[i]).1@ == b@ && digest_text(b@)
                == digest@ && forall|j: int| 0 <= j < i ==> digest_text(entries@[j].1@) != digest@,
{
    let mut i: usize = 0;
    while i < entries.len()
        invariant
            i <= entries.len(),
            forall|j: int| 0 <= j < i ==> digest_text((#[trigger] entries@[j]).1@) != digest@,
        decreases entries.len() - i,
    {
        let found = Sha256::of(entries[i].1.as_slice());
        if found.same(digest) {
            let b = copy_bytes(&entries[i].1);
            assert(entries@[i as int].1@ == b@);
            return Some(b);
        }
        i += 1;
    }
    None
}

/// Serve a blob out of the files a bundle carries: the first file, payload
/// before metadata and each in path order, whose digest is `digest`.
pub fn blob_from(files: &FileMap, metadata: &FileMap, digest: &Sha256) -> (r: Result<
    Vec<u8>,
    ReleaseError,
>)
    ensures
        serves(r, blobs(files.ordered(), metadata.ordered()), digest@),
{
    let a = files.entries();
    let b = metadata.entries();
    let ghost all = blobs(files.ordered(), metadata.ordered());
    let ghost na = a@.len() as int;
    proof {
        assert(all.len() == a@.len() + b@.len());
        assert forall|i: int| 0 <= i < na implies #[trigger] all[i] == a@[i].1@ by {
            assert(entry_views(a@)[i] == (a@[i].0@, a@[i].1@));
        }
        assert forall|i: int| na <= i < all.len() implies #[trigger] all[i] == b@[i - na].1@ by {
            assert(entry_views(b@)[i - na] == (b@[i - na].0@, b@[i - na].1@));
        }
    }
    match find_blob(a, digest) {
        Some(found) => {
            proof {
                let i = choose|i: int|
                    0 <= i < a@.len() && (#[trigger] a@[i]).1@ == found@ && digest_text(found@)
                        == digest@ && forall|j: int|
                        0 <= j < i ==> digest_text(a@[j].1@) != digest@;
                assert(all[i] == found@);
                assert forall|j: int| 0 <= j < i implies digest_text(all[j]) != digest@ by {
                    assert(all[j] == a@[j].1@);
                }
            }
            return Ok(found);
        },
        None => {},
    }
    match find_blob(b, digest) {
        Some(found) => {
            proof {
                let i = choose|i: int|
                    0 <= i < b@.len() && (#[trigger] b@[i]).1@ == found@ && digest_text(found@)
                        == digest@ && forall|j: int|
                        0 <= j < i ==> digest_text(b@[j].1@) != digest@;
                assert(all[na + i] == found@);
                assert forall|j: int| 0 <= j < na + i implies digest_text(all[j]) != digest@ by {
                    if j < na {
                        assert(all[j] == a@[j].1@);
                    } else {
                        assert(all[j] == b@[j - na].1@);
                    }
                }
            }
            Ok(found)
        },
        None => {
            proof {
                assert forall|i: int| 0 <= i < all.len() implies digest_text(#[trigger] all[i])
                    != digest@ by {
                    if i < na {
                        assert(all[i] == a@[i].1@);
                    } else {
                        assert(all[i] == b@[i - na].1@);
                    }
                }
            }
            let mut message = owned("the bundle carries no blob ");
            append(&mut message, digest.as_str());
            Err(ReleaseError::Refused(message))
        },
    }
}


/// Whether entries carry their paths strictly in increasing order.
pub open spec fn strictly_ordered(a: Seq<Tagged>) -> bool {
    forall|i: int, j: int| 0 <= i < j < a.len() ==> text_lt(#[trigger] a[i].0, #[trigger] a[j].0)
}

/// Whether no entry's path sorts before an earlier entry's.
pub open spec fn in_path_order(a: Seq<Tagged>) -> bool {
    forall|i: int, j: int| 0 <= i < j < a.len() ==> !text_lt(#[trigger] a[j].0, #[trigger] a[i].0)
}

/// A path no entry of `a` or `b` sorts before sorts before no entry of
/// their merge.
proof fn lemma_merged_bound(a: Seq<Tagged>, b: Seq<Tagged>, x: Seq<char>)
    requires
        forall|i: int| 0 <= i < a.len() ==> !text_lt(#[trigger] a[i].0, x),
        forall|i: int| 0 <= i < b.len() ==> !text_lt(#[trigger] b[i].0, x),
    ensures
        forall|k: int|
            0 <= k < merged(a, b).len() ==> !text_lt(#[trigger] merged(a, b)[k].0, x),
        merged(a, b).len() == a.len() + b.len(),
    decreases a.len() + b.len(),
{
    if a.len() == 0 || b.len() == 0 {
    } else if text_lt(b[0].0, a[0].0) {
        assert forall|i: int| 0 <= i < b.drop_first().len() implies !text_lt(
            #[trigger] b.drop_first()[i].0,
            x,
        ) by {
            assert(b.drop_first()[i] == b[i + 1]);
        }
        lemma_merged_bound(a, b.drop_first(), x);
        let m = merged(a, b);
        assert forall|k: int| 0 <= k < m.len() implies !text_lt(#[trigger] m[k].0, x) by {
            if k > 0 {
                assert(m[k] == merged(a, b.drop_first())[k - 1]);
            }
        }
    } else {
        assert forall|i: int| 0 <= i < a.drop_first().len() implies !text_lt(
            #[trigger] a.drop_first()[i].0,
            x,
        ) by {
            assert(a.drop_first()[i] == a[i + 1]);
        }
        lemma_merged_bound(a.drop_first(), b, x);
        let m = merged(a, b);
        assert forall|k: int| 0 <= k < m.len() implies !text_lt(#[trigger] m[k].0, x) by {
            if k > 0 {
                assert(m[k] == merged(a.drop_first(), b)[k - 1]);
            }
        }
    }
}

/// Strictly ordered entries stay strictly ordered past the first.
proof fn lemma_strict_tail(a: Seq<Tagged>)
    requires
        strictly_ordered(a),
        a.len() > 0,
    ensures
        strictly_ordered(a.drop_first()),
        forall|i: int| 0 <= i < a.drop_first().len() ==> text_lt(a[0].0, #[trigger] a.drop_first()[i].0),
{
    assert forall|i: int, j: int| 0 <= i < j < a.drop_first().len() implies text_lt(
        #[trigger] a.drop_first()[i].0,
        #[trigger] a.drop_first()[j].0,
    ) by {
        assert(a.drop_first()[i] == a[i + 1]);
        assert(a.drop_first()[j] == a[j + 1]);
    }
    assert forall|i: int| 0 <= i < a.drop_first().len() implies text_lt(
        a[0].0,
        #[trigger] a.drop_first()[i].0,
    ) by {
        assert(a.drop_first()[i] == a[i + 1]);
    }
}

/// Merging two strictly ordered lists yields a list in path order.
proof fn lemma_merged_in_path_order(a: Seq<Tagged>, b: Seq<Tagged>)
    requires
        strictly_ordered(a),
        strictly_ordered(b),
    ensures
        in_path_order(merged(a, b)),
    decreases a.len() + b.len(),
{
    let m = merged(a, b);
    if a.len() == 0 || b.len() == 0 {
        let c = if a.len() == 0 { b } else { a };
        assert(m == c);
        assert forall|i: int, j: int| 0 <= i < j < c.len() implies !text_lt(
            #[trigger] c[j].0,
            #[trigger] c[i].0,
        ) by {
            lemma_text_lt_asymmetric(c[i].0, c[j].0);
        }
    } else {
        lemma_strict_tail(a);
        lemma_strict_tail(b);
        let (head, rest) = if text_lt(b[0].0, a[0].0) {
            (b[0], merged(a, b.drop_first()))
        } else {
            (a[0], merged(a.drop_first(), b))
        };
        if text_lt(b[0].0, a[0].0) {
            lemma_merged_in_path_order(a, b.drop_first());
            assert forall|i: int| 0 <= i < a.len() implies !text_lt(#[trigger] a[i].0, b[0].0) by {
                if i > 0 {
                    lemma_text_lt_transitive(b[0].0, a[0].0, a[i].0);
                    lemma_text_lt_asymmetric(b[0].0, a[i].0);
                } else {
                    lemma_text_lt_asymmetric(b[0].0, a[0].0);
                }
            }
            assert forall|i: int| 0 <= i < b.drop_first().len() implies !text_lt(
                #[trigger] b.drop_first()[i].0,
                b[0].0,
            ) by {
                lemma_text_lt_asymmetric(b[0].0, b.drop_first()[i].0);
            }
            lemma_merged_bound(a, b.drop_first(), b[0].0);
        } else {
            lemma_merged_in_path_order(a.drop_first(), b);
            assert forall|i: int| 0 <= i < a.drop_first().len() implies !text_lt(
                #[trigger] a.drop_first()[i].0,
                a[0].0,
            ) by {
                lemma_text_lt_asymmetric(a[0].0, a.drop_first()[i].0);
            }
            assert forall|i: int| 0 <= i < b.len() implies !text_lt(#[trigger] b[i].0, a[0].0) by {
                if i > 0 && text_lt(b[i].0, a[0].0) {
                    lemma_text_lt_transitive(b[0].0, b[i].0, a[0].0);
                }
            }
            lemma_merged_bound(a.drop_first(), b, a[0].0);
        }
        assert(m == seq![head] + rest);
        assert forall|i: int, j: int| 0 <= i < j < m.len() implies !text_lt(
            #[trigger] m[j].0,
            #[trigger] m[i].0,
        ) by {
            assert(m[j] == rest[j - 1]);
            if i > 0 {
                assert(m[i] == rest[i - 1]);
            }
        }
    }
}

/// A manifest lists every artifact in path order: no artifact's path sorts
/// before an earlier one's, whatever files and metadata it was built from.
pub proof fn law_manifest_in_path_order(files: FileMap, metadata: FileMap)
    requires
        files.wf(),
        metadata.wf(),
    ensures
        in_path_order(
            merged(
                tagged(files.ordered(), Role::Payload),
                tagged(metadata.ordered(), Role::Metadata),
            ),
        ),
{
    files.lemma_ordered();
    metadata.lemma_ordered();
    let a = tagged(files.ordered(), Role::Payload);
    let b = tagged(metadata.ordered(), Role::Metadata);
    assert(strictly_ordered(a)) by {
        assert forall|i: int, j: int| 0 <= i < j < a.len() implies text_lt(
            #[trigger] a[i].0,
            #[trigger] a[j].0,
        ) by {
            assert(a[i].0 == files.ordered()[i].0);
            assert(a[j].0 == files.ordered()[j].0);
        }
    }
    assert(strictly_ordered(b)) by {
        assert forall|i: int, j: int| 0 <= i < j < b.len() implies text_lt(
            #[trigger] b[i].0,
            #[trigger] b[j].0,
        ) by {
            assert(b[i].0 == metadata.ordered()[i].0);
            assert(b[j].0 == metadata.ordered()[j].0);
        }
    }
    lemma_merged_in_path_order(a, b);
}

/// The payload digest reads the content and not the order it was given:
/// two manifests built from file maps holding the same files list the same
/// artifacts and carry the same payload digest.
pub proof fn law_payload_digest_reads_content(
    files1: FileMap,
    metadata1: FileMap,
    files2: FileMap,
    metadata2: FileMap,
    m1: ReleaseManifest,
    m2: ReleaseManifest,
)
    requires
        files1.wf(),
        metadata1.wf(),
        files2.wf(),
        metadata2.wf(),
        files1@ == files2@,
        metadata1@ == metadata2@,
        lists_all(
            m1.artifacts@,
            merged(
                tagged(files1.ordered(), Role::Payload),
                tagged(metadata1.ordered(), Role::Metadata),
            ),
        ),
        lists_all(
            m2.artifacts@,
            merged(
                tagged(files2.ordered(), Role::Payload),
                tagged(metadata2.ordered(), Role::Metadata),
            ),
        ),
        m1.payload_sha256@ == digest_text(encode_utf8(payload_text(m1.artifacts@))),
        m2.payload_sha256@ == digest_text(encode_utf8(payload_text(m2.artifacts@))),
    ensures
        payload_text(m1.artifacts@) == payload_text(m2.artifacts@),
        m1.payload_sha256@ == m2.payload_sha256@,
{
    files1.lemma_same_files_same_order(files2);
    metadata1.lemma_same_files_same_order(metadata2);
    lemma_payload_text_lists(
        m1.artifacts@,
        m2.artifacts@,
        merged(
            tagged(files1.ordered(), Role::Payload),
            tagged(metadata1.ordered(), Role::Metadata),
        ),
    );
}

} // verus!
