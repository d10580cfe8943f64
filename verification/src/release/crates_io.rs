//! Another release, read from the registry that published it.
//!
//! The registry's own protocol decides the URLs: the sparse index serves
//! `config.json` and one line per version, and the `dl` template in that
//! configuration says where an archive lives. None of it is a hard-coded
//! download layout.
//!
//! The archive is untrusted input. It is expanded under caps on compressed
//! bytes, expanded bytes, entry count, and per-file bytes, and admitted
//! only for regular files under a declared payload root. A path that is
//! absolute, that climbs out, that is a link of either kind, or that
//! repeats is refused rather than skipped, because an archive that carries
//! one is not the archive the registry says it is.
//!
//! Nothing is executed. A bundle is data the planner reads.

use std::io::Read;

use flate2::read::GzDecoder;
use tar::Archive;
use vstd::prelude::*;

use crate::digest::Sha256;
use crate::release::{
    blob_from, blobs, is_manifest_of, manifest_from, serves, FileMap, Provenance, ReleaseError,
    ReleaseManifest,
};
use crate::self_depend::registry::{ascii_lower, index_path, index_path_of};
use crate::sorted_map::entries_map;
use crate::text::{
    append, chars_of, find_text, first_occurrence, has_prefix, owned, push_char, replace_all,
    replace_text, same_text, starts_with, string_of,
};

pub use crate::self_depend::registry::{CRATE_NAME, INDEX_ROOT};

verus! {

/// The largest index document this tool reads.
pub const MAX_INDEX_BYTES: u64 = 16 * 1024 * 1024;

/// The largest archive this tool reads.
pub const MAX_COMPRESSED_BYTES: u64 = 32 * 1024 * 1024;

/// The most bytes an archive may expand to.
pub const MAX_EXPANDED_BYTES: u64 = 128 * 1024 * 1024;

/// The most entries an archive may hold.
pub const MAX_ENTRIES: usize = 20000;

/// The largest single file an archive may hold.
pub const MAX_FILE_BYTES: u64 = 8 * 1024 * 1024;

/// A release read from its published crate.
#[derive(Debug)]
pub struct CrateReleaseBundle {
    version: String,
    payload_schema: u32,
    provenance: Provenance,
    descriptor_sha256: Option<Sha256>,
    files: FileMap,
    metadata: FileMap,
}

impl CrateReleaseBundle {
    /// The release this bundle is.
    pub closed spec fn release(self) -> Seq<char> {
        self.version@
    }

    /// The protocol version it declares, or the pre-schema version.
    pub closed spec fn schema(self) -> u32 {
        self.payload_schema
    }

    /// Where its facts came from.
    pub closed spec fn source(self) -> Provenance {
        self.provenance
    }

    /// The catalog descriptor that supplied its facts, where one did.
    pub closed spec fn descriptor(self) -> Option<Sha256> {
        self.descriptor_sha256
    }

    /// The payload files the archive admitted.
    pub closed spec fn payload(self) -> FileMap {
        self.files
    }

    /// The virtual metadata served beside the payload.
    pub closed spec fn extra(self) -> FileMap {
        self.metadata
    }

    /// A bundle of admitted files, with the facts the release declared or
    /// the catalog supplied.
    pub fn new(
        version: String,
        payload_schema: u32,
        provenance: Provenance,
        descriptor_sha256: Option<Sha256>,
        files: FileMap,
        metadata: FileMap,
    ) -> (b: CrateReleaseBundle)
        ensures
            b.release() == version@,
            b.schema() == payload_schema,
            b.source() == provenance,
            b.descriptor() == descriptor_sha256,
            b.payload() == files,
            b.extra() == metadata,
    {
        CrateReleaseBundle { version, payload_schema, provenance, descriptor_sha256, files, metadata }
    }

    /// What this bundle says about itself.
    pub fn manifest(&self) -> (m: ReleaseManifest)
        ensures
            is_manifest_of(
                m,
                self.release(),
                self.schema(),
                self.source(),
                self.descriptor(),
                self.payload().ordered(),
                self.extra().ordered(),
            ),
    {
        let descriptor = match &self.descriptor_sha256 {
            Some(d) => Some(d.copied()),
            None => None,
        };
        manifest_from(
            self.version.clone(),
            self.payload_schema,
            self.provenance,
            descriptor,
            &self.files,
            &self.metadata,
        )
    }

    /// One artifact's bytes, by digest.
    pub fn blob(&self, digest: &Sha256) -> (r: Result<Vec<u8>, ReleaseError>)
        ensures
            serves(r, blobs(self.payload().ordered(), self.extra().ordered()), digest@),
    {
        blob_from(&self.files, &self.metadata, digest)
    }
}

/// Whether `t` contains `m`.
pub open spec fn holds_text(t: Seq<char>, m: Seq<char>) -> bool {
    first_occurrence(t, m) is Some
}

/// Whether a download template carries any marker the registry protocol
/// defines.
pub open spec fn has_marker(t: Seq<char>) -> bool {
    ||| holds_text(t, "{crate}"@)
    ||| holds_text(t, "{version}"@)
    ||| holds_text(t, "{prefix}"@)
    ||| holds_text(t, "{lowerprefix}"@)
    ||| holds_text(t, "{sha256-checksum}"@)
}

/// Everything before the last `/`, or nothing where there is none.
pub open spec fn before_last_slash(s: Seq<char>) -> Seq<char> {
    if exists|i: int| 0 <= i < s.len() && s[i] == '/' {
        s.take(
            choose|i: int|
                0 <= i < s.len() && s[i] == '/' && forall|j: int| i < j < s.len() ==> s[j] != '/',
        )
    } else {
        Seq::empty()
    }
}

/// Where the registry says an archive lives: the template with each marker
/// filled, or, where the template carries none, the default form.
pub open spec fn download_url(
    template: Seq<char>,
    name: Seq<char>,
    version: Seq<char>,
    cksum: Seq<char>,
) -> Seq<char> {
    if !has_marker(template) {
        template + "/"@ + name + "/"@ + version + "/download"@
    } else {
        let prefix = before_last_slash(index_path_of(name));
        replace_all(
            replace_all(
                replace_all(
                    replace_all(replace_all(template, "{crate}"@, name), "{version}"@, version),
                    "{prefix}"@,
                    prefix,
                ),
                "{lowerprefix}"@,
                ascii_lower(prefix),
            ),
            "{sha256-checksum}"@,
            cksum,
        )
    }
}

/// Whether `t` contains `m`.
fn contains_text(t: &str, m: &str) -> (r: bool)
    ensures
        r == holds_text(t@, m@),
{
    let v = chars_of(t);
    let n = chars_of(m);
    find_text(&v, &n).is_some()
}

/// Everything before the last `/` of `s`.
fn head_before_last_slash(s: &str) -> (r: String)
    ensures
        r@ == before_last_slash(s@),
{
    let v = chars_of(s);
    let mut i: usize = v.len();
    while i > 0
        invariant
            i <= v.len(),
            v@ == s@,
            forall|j: int| i <= j < v.len() ==> v@[j] != '/',
        decreases i,
    {
        if v[i - 1] == '/' {
            let k = i - 1;
            proof {
                let c = choose|c: int|
                    0 <= c < s@.len() && s@[c] == '/' && forall|j: int| c < j < s@.len() ==> s@[j] != '/';
                assert(c == k as int) by {
                    if c < k {
                        assert(s@[k as int] == '/');
                    }
                    if c > k {
                        assert(s@[c] != '/');
                    }
                }
            }
            return string_of(&v, 0, k);
        }
        i -= 1;
    }
    String::new()
}

/// ASCII letters of `s` in lower case.
fn lower_ascii(s: &str) -> (r: String)
    ensures
        r@ == ascii_lower(s@),
{
    let v = chars_of(s);
    let mut r = String::new();
    let mut i: usize = 0;
    while i < v.len()
        invariant
            i <= v.len(),
            v@ == s@,
            r@ == ascii_lower(s@.take(i as int)),
        decreases v.len() - i,
    {
        let c = v[i];
        let d = if 'A' <= c && c <= 'Z' {
            ((c as u32) + 32) as u8 as char
        } else {
            c
        };
        proof {
            if 'A' <= c <= 'Z' {
                assert(((c as u32) + 32) as u8 as char == ((c as u32) + 32) as char);
            }
        }
        push_char(&mut r, d);
        assert(ascii_lower(s@.take(i + 1)) =~= ascii_lower(s@.take(i as int)).push(d));
        i += 1;
    }
    assert(s@.take(i as int) =~= s@);
    r
}

/// Fill the registry's download template, or fall back to the default form.
///
/// A crate name is ASCII, and only ASCII names are taken: the prefix
/// markers split a name by its bytes.
pub fn expand_download(template: &str, name: &str, version: &str, cksum: &str) -> (r: String)
    requires
        forall|i: int| 0 <= i < name@.len() ==> (#[trigger] name@[i] as u32) < 128,
    ensures
        r@ == download_url(template@, name@, version@, cksum@),
{
    proof {
        reveal_strlit("{crate}");
        reveal_strlit("{version}");
        reveal_strlit("{prefix}");
        reveal_strlit("{lowerprefix}");
        reveal_strlit("{sha256-checksum}");
    }
    let marked = contains_text(template, "{crate}") || contains_text(template, "{version}")
        || contains_text(template, "{prefix}") || contains_text(template, "{lowerprefix}")
        || contains_text(template, "{sha256-checksum}");
    if !marked {
        let mut r = owned(template);
        append(&mut r, "/");
        append(&mut r, name);
        append(&mut r, "/");
        append(&mut r, version);
        append(&mut r, "/download");
        return r;
    }
    let path = index_path(name);
    let prefix = head_before_last_slash(path.as_str());
    let lower = lower_ascii(prefix.as_str());
    let a = replace_text(template, "{crate}", name);
    let b = replace_text(a.as_str(), "{version}", version);
    let c = replace_text(b.as_str(), "{prefix}", prefix.as_str());
    let d = replace_text(c.as_str(), "{lowerprefix}", lower.as_str());
    replace_text(d.as_str(), "{sha256-checksum}", cksum)
}


/// One archive entry as the decoder read it: its path, whether its header
/// marks a directory or a regular file, its declared size, and its body.
#[derive(Debug)]
pub struct ArchiveEntry {
    /// The entry's path, lossily as text, or why it does not read.
    pub path: Result<String, String>,
    /// Whether the header marks a directory.
    pub dir: bool,
    /// Whether the header marks a regular file.
    pub file: bool,
    /// The size the header declares, where it reads.
    pub size: Option<u64>,
    /// The entry's bytes, or why they do not read.
    pub body: Result<Vec<u8>, String>,
}

/// One entry, read as plain values.
pub type EntryView = (Result<Seq<char>, Seq<char>>, bool, bool, Option<u64>, Result<Seq<u8>, Seq<char>>);

/// A text result read as characters.
pub open spec fn text_result(r: Result<String, String>) -> Result<Seq<char>, Seq<char>> {
    match r {
        Ok(t) => Ok(t@),
        Err(e) => Err(e@),
    }
}

/// A byte result read as bytes.
pub open spec fn bytes_result(r: Result<Vec<u8>, String>) -> Result<Seq<u8>, Seq<char>> {
    match r {
        Ok(b) => Ok(b@),
        Err(e) => Err(e@),
    }
}

impl View for ArchiveEntry {
    type V = EntryView;

    open spec fn view(&self) -> EntryView {
        (text_result(self.path), self.dir, self.file, self.size, bytes_result(self.body))
    }
}

/// One step of the walk read as plain values.
pub open spec fn step_view(r: Result<ArchiveEntry, String>) -> Result<EntryView, Seq<char>> {
    match r {
        Ok(e) => Ok(e@),
        Err(t) => Err(t@),
    }
}

/// A whole walk read as plain values.
pub open spec fn walk_view(r: Result<Vec<Result<ArchiveEntry, String>>, String>) -> Result<
    Seq<Result<EntryView, Seq<char>>>,
    Seq<char>,
> {
    match r {
        Ok(v) => Ok(v@.map_values(|x: Result<ArchiveEntry, String>| step_view(x))),
        Err(t) => Err(t@),
    }
}

/// What `flate2` and `tar` read out of an archive, expanding at most
/// `limit` bytes: each entry in order, the walk ending at the first entry
/// that does not read; or why the entries do not read at all.
pub uninterp spec fn tar_walk(archive: Seq<u8>, limit: u64) -> Result<
    Seq<Result<EntryView, Seq<char>>>,
    Seq<char>,
>;

/// `tar::Archive::entries` over `flate2::read::GzDecoder` under
/// `Read::take(limit)`, reading for each entry its path (lossily as text),
/// whether its type is a directory or a regular file, its header size, and
/// its whole body.
///
/// Trusted: the result is what the two crates read from these bytes under
/// this limit, named `tar_walk`. The walk ends after the first entry that
/// does not read, as `tar` ends it.
#[verifier::external_body]
fn walk_archive(archive: &[u8], limit: u64) -> (r: Result<Vec<Result<ArchiveEntry, String>>, String>)
    ensures
        walk_view(r) == tar_walk(archive@, limit),
{
    let text = |e: std::io::Error| e.to_string();
    let mut tar = Archive::new(GzDecoder::new(archive).take(limit));
    Ok(tar.entries().map_err(text)?.map(|entry| entry.map_err(text).map(|mut entry| {
        let kind = entry.header().entry_type();
        let size = entry.header().size().ok();
        let path = entry.path().map(|p| p.to_string_lossy().into()).map_err(text);
        let mut body = vec![];
        let body = entry.read_to_end(&mut body).map(|_| body).map_err(text);
        ArchiveEntry { path, dir: kind.is_dir(), file: kind.is_file(), size, body }
    })).collect())
}

/// A refusal of the archive.
pub open spec fn refused(what: Seq<char>) -> Seq<char> {
    "the archive is refused: "@ + what
}

/// Whether a path has a `..` segment.
pub open spec fn climbs(p: Seq<char>) -> bool {
    exists|i: int|
        0 <= i && i + 2 <= p.len() && #[trigger] p[i] == '.' && p[i + 1] == '.' && (i == 0 || p[i
            - 1] == '/') && (i + 2 == p.len() || p[i + 2] == '/')
}

/// Whether a path leaves the package: rooted, or climbing out.
pub open spec fn leaves_package(p: Seq<char>) -> bool {
    (p.len() > 0 && p[0] == '/') || climbs(p)
}

/// The path below the package prefix, where the path is below it.
pub open spec fn below(path: Seq<char>, prefix: Seq<char>) -> Option<Seq<char>> {
    if has_prefix(path, prefix + "/"@) {
        Some(path.skip(prefix.len() as int + 1))
    } else {
        None
    }
}

/// Whether a path lies under one of the payload roots.
pub open spec fn under_a_root(rel: Seq<char>, roots: Seq<Seq<char>>) -> bool {
    exists|i: int| 0 <= i < roots.len() && has_prefix(rel, #[trigger] roots[i] + "/"@)
}

/// What the admission has gathered: the admitted files, every path seen,
/// how many entries, and how many bytes the admitted files declared.
pub type Gathered = (Map<Seq<char>, Seq<u8>>, Set<Seq<char>>, nat, nat);

/// What one more entry does to the admission.
pub open spec fn admit_step(
    g: Gathered,
    step: Result<EntryView, Seq<char>>,
    prefix: Seq<char>,
    roots: Seq<Seq<char>>,
) -> Result<Gathered, Seq<char>> {
    match step {
        Err(why) => Err(refused("an entry does not read: "@ + why)),
        Ok(e) => {
            let count = g.2 + 1;
            if count > MAX_ENTRIES {
                Err(refused("it holds more entries than the cap"@))
            } else {
                match e.0 {
                    Err(why) => Err(refused("an entry has no readable path: "@ + why)),
                    Ok(path) => if leaves_package(path) {
                        Err(refused(path + " leaves the package"@))
                    } else if g.1.contains(path) {
                        Err(refused(path + " appears twice"@))
                    } else if e.1 {
                        Ok((g.0, g.1.insert(path), count, g.3))
                    } else if !e.2 {
                        Err(refused(path + " is not a regular file"@))
                    } else {
                        match below(path, prefix) {
                            None => Err(refused(path + " is outside "@ + prefix)),
                            Some(rel) => if !under_a_root(rel, roots) {
                                Ok((g.0, g.1.insert(path), count, g.3))
                            } else {
                                let size: nat = match e.3 {
                                    Some(n) => n as nat,
                                    None => u64::MAX as nat,
                                };
                                if size > MAX_FILE_BYTES {
                                    Err(refused(rel + " is larger than the per-file cap"@))
                                } else if g.3 + size > MAX_EXPANDED_BYTES {
                                    Err(refused("it expands past the cap"@))
                                } else {
                                    match e.4 {
                                        Err(why) => Err(refused(rel + " does not read: "@ + why)),
                                        Ok(body) => Ok(
                                            (g.0.insert(rel, body), g.1.insert(path), count, g.3 + size),
                                        ),
                                    }
                                }
                            },
                        }
                    },
                }
            }
        },
    }
}

/// The admission over the entries so far, stopping at the first refusal.
pub open spec fn admit_walk(
    steps: Seq<Result<EntryView, Seq<char>>>,
    prefix: Seq<char>,
    roots: Seq<Seq<char>>,
) -> Result<Gathered, Seq<char>>
    decreases steps.len(),
{
    if steps.len() == 0 {
        Ok((Map::empty(), Set::empty(), 0, 0))
    } else {
        match admit_walk(steps.drop_last(), prefix, roots) {
            Err(r) => Err(r),
            Ok(g) => admit_step(g, steps.last(), prefix, roots),
        }
    }
}

/// What admitting a walked archive gives: the admitted files, or the first
/// refusal, or a refusal where no payload root was carried.
pub open spec fn admission(
    steps: Seq<Result<EntryView, Seq<char>>>,
    prefix: Seq<char>,
    roots: Seq<Seq<char>>,
) -> Result<Map<Seq<char>, Seq<u8>>, Seq<char>> {
    match admit_walk(steps, prefix, roots) {
        Err(r) => Err(r),
        Ok(g) => if g.0.dom() =~= Set::empty() {
            Err(refused("it carries no payload root"@))
        } else {
            Ok(g.0)
        },
    }
}

/// A refusal early in the walk is the refusal of the whole walk.
proof fn lemma_refusal_sticks(
    steps: Seq<Result<EntryView, Seq<char>>>,
    k: int,
    prefix: Seq<char>,
    roots: Seq<Seq<char>>,
)
    requires
        0 <= k <= steps.len(),
        admit_walk(steps.take(k), prefix, roots) is Err,
    ensures
        admit_walk(steps, prefix, roots) == admit_walk(steps.take(k), prefix, roots),
    decreases steps.len() - k,
{
    if k < steps.len() {
        assert(steps.drop_last().take(k) =~= steps.take(k));
        lemma_refusal_sticks(steps.drop_last(), k, prefix, roots);
    } else {
        assert(steps.take(k) =~= steps);
    }
}

/// Whether a path has a `..` segment, scanning its characters.
fn has_parent_segment(p: &Vec<char>) -> (r: bool)
    ensures
        r == climbs(p@),
{
    let n = p.len();
    let mut i: usize = 0;
    while n > 0 && i < n - 1
        invariant
            i <= n,
            n == p@.len(),
            forall|j: int|
                0 <= j < i ==> !(#[trigger] p@[j] == '.' && j + 2 <= p@.len() && p@[j + 1] == '.' && (j
                    == 0 || p@[j - 1] == '/') && (j + 2 == p@.len() || p@[j + 2] == '/')),
        decreases n - i,
    {
        if p[i] == '.' && p[i + 1] == '.' && (i == 0 || p[i - 1] == '/') && (i + 2 == n || p[i + 2]
            == '/') {
            return true;
        }
        i += 1;
    }
    proof {
        assert forall|j: int|
            0 <= j && j + 2 <= p@.len() && #[trigger] p@[j] == '.' && p@[j + 1] == '.' && (j == 0 || p@[j
                - 1] == '/') implies !(j + 2 == p@.len() || p@[j + 2] == '/') by {
            assert(j < i);
        }
    }
    false
}

/// Whether a path has already been seen.
fn seen_before(seen: &Vec<String>, path: &str) -> (r: bool)
    ensures
        r == (exists|i: int| 0 <= i < seen@.len() && #[trigger] seen@[i]@ == path@),
{
    let mut i: usize = 0;
    while i < seen.len()
        invariant
            i <= seen.len(),
            forall|j: int| 0 <= j < i ==> (#[trigger] seen@[j])@ != path@,
        decreases seen.len() - i,
    {
        if same_text(seen[i].as_str(), path) {
            return true;
        }
        i += 1;
    }
    false
}

/// The set of paths a list holds.
pub open spec fn path_set(seen: Seq<String>) -> Set<Seq<char>> {
    Set::new(|p: Seq<char>| exists|i: int| 0 <= i < seen.len() && #[trigger] seen[i]@ == p)
}

/// Whether a path lies under one of the payload roots.
fn under_root(rel: &str, roots: &Vec<String>) -> (r: bool)
    ensures
        r == under_a_root(rel@, crate::text::views_of(roots@)),
{
    let ghost rs = crate::text::views_of(roots@);
    let mut i: usize = 0;
    while i < roots.len()
        invariant
            i <= roots.len(),
            rs == crate::text::views_of(roots@),
            forall|j: int| 0 <= j < i ==> !has_prefix(rel@, #[trigger] rs[j] + "/"@),
        decreases roots.len() - i,
    {
        let mut root = roots[i].clone();
        append(&mut root, "/");
        assert(rs[i as int] == roots@[i as int]@);
        if starts_with(rel, root.as_str()) {
            return true;
        }
        i += 1;
    }
    false
}

/// A fresh string holding `a` then `b`.
fn joined2(a: &str, b: &str) -> (out: String)
    ensures
        out@ == a@ + b@,
{
    let mut out = owned(a);
    append(&mut out, b);
    out
}

/// The refusal of an archive.
fn refusal(what: String) -> (e: ReleaseError)
    ensures
        e == ReleaseError::Refused(e->0),
        e->0@ == refused(what@),
{
    let mut text = owned("the archive is refused: ");
    append(&mut text, what.as_str());
    ReleaseError::Refused(text)
}


/// Every step of a walk read as plain values.
pub open spec fn steps_view(steps: Seq<Result<ArchiveEntry, String>>) -> Seq<Result<EntryView, Seq<char>>> {
    steps.map_values(|x: Result<ArchiveEntry, String>| step_view(x))
}

/// Whether `r` is the refusal with this text.
pub open spec fn refuses_with(r: Result<FileMap, ReleaseError>, text: Seq<char>) -> bool {
    r matches Err(e) && e == ReleaseError::Refused(e->0) && e->0@ == text
}

/// Whether `r` is what an admission says.
pub open spec fn answers(r: Result<FileMap, ReleaseError>, a: Result<Map<Seq<char>, Seq<u8>>, Seq<char>>) -> bool {
    match a {
        Ok(m) => r matches Ok(f) && f@ == m && f.wf(),
        Err(t) => refuses_with(r, t),
    }
}

/// Admit the entries of a walked archive, in order: the regular files
/// under a payload root below the package prefix, each under its path
/// below the prefix. `roots` are the payload roots, without a trailing
/// separator.
pub fn admit_entries(steps: &Vec<Result<ArchiveEntry, String>>, prefix: &str, roots: &Vec<String>) -> (r:
    Result<FileMap, ReleaseError>)
    ensures
        answers(r, admission(steps_view(steps@), prefix@, crate::text::views_of(roots@))),
{
    let ghost sv = steps_view(steps@);
    let ghost rs = crate::text::views_of(roots@);
    let mut files = FileMap::new();
    let mut seen: Vec<String> = Vec::new();
    let mut count: usize = 0;
    let mut expanded: u64 = 0;
    proof {
        reveal_strlit("/");
    }
    let mut slash = owned(prefix);
    append(&mut slash, "/");
    let slash_len = chars_of(slash.as_str()).len();
    let mut i: usize = 0;
    proof {
        assert(sv.take(0) =~= Seq::<Result<EntryView, Seq<char>>>::empty());
        assert(path_set(seen@) =~= Set::<Seq<char>>::empty());
    }
    while i < steps.len()
        invariant
            i <= steps.len(),
            sv == steps_view(steps@),
            rs == crate::text::views_of(roots@),
            slash@ == prefix@ + "/"@,
            slash_len == prefix@.len() + 1,
            slash@.len() == slash_len,
            files.wf(),
            count <= MAX_ENTRIES,
            expanded <= MAX_EXPANDED_BYTES,
            admit_walk(sv.take(i as int), prefix@, rs) == Ok::<Gathered, Seq<char>>(
                (files@, path_set(seen@), count as nat, expanded as nat),
            ),
        decreases steps.len() - i,
    {
        let ghost g: Gathered = (files@, path_set(seen@), count as nat, expanded as nat);
        proof {
            assert(sv.take(i + 1).drop_last() =~= sv.take(i as int));
            assert(sv.take(i + 1).last() == step_view(steps@[i as int]));
        }
        let entry = match &steps[i] {
            Err(why) => {
                let e = refusal(joined2("an entry does not read: ", why.as_str()));
                proof {
                    lemma_refusal_sticks(sv, i + 1, prefix@, rs);
                }
                return Err(e);
            },
            Ok(entry) => entry,
        };
        count = count + 1;
        if count > MAX_ENTRIES {
            let e = refusal(owned("it holds more entries than the cap"));
            proof {
                lemma_refusal_sticks(sv, i + 1, prefix@, rs);
            }
            return Err(e);
        }
        let path = match &entry.path {
            Err(why) => {
                let e = refusal(joined2("an entry has no readable path: ", why.as_str()));
                proof {
                    lemma_refusal_sticks(sv, i + 1, prefix@, rs);
                }
                return Err(e);
            },
            Ok(p) => p,
        };
        let pv = chars_of(path.as_str());
        if (pv.len() > 0 && pv[0] == '/') || has_parent_segment(&pv) {
            let e = refusal(joined2(path.as_str(), " leaves the package"));
            proof {
                lemma_refusal_sticks(sv, i + 1, prefix@, rs);
            }
            return Err(e);
        }
        if seen_before(&seen, path.as_str()) {
            let e = refusal(joined2(path.as_str(), " appears twice"));
            proof {
                lemma_refusal_sticks(sv, i + 1, prefix@, rs);
            }
            return Err(e);
        }
        let ghost before_seen = seen@;
        seen.push(path.clone());
        proof {
            assert(path_set(seen@) =~= path_set(before_seen).insert(path@)) by {
                assert forall|q: Seq<char>| #[trigger] path_set(seen@).contains(q) <==> path_set(
                    before_seen,
                ).insert(path@).contains(q) by {
                    if path_set(seen@).contains(q) {
                        let k = choose|k: int| 0 <= k < seen@.len() && #[trigger] seen@[k]@ == q;
                        if k < before_seen.len() {
                            assert(before_seen[k] == seen@[k]);
                        }
                    }
                    if path_set(before_seen).contains(q) {
                        let k = choose|k: int| 0 <= k < before_seen.len() && #[trigger] before_seen[k]@ == q;
                        assert(seen@[k] == before_seen[k]);
                    }
                    if q == path@ {
                        assert(seen@[before_seen.len() as int]@ == q);
                    }
                }
            }
        }
        if entry.dir {
            i += 1;
            continue;
        }
        if !entry.file {
            let e = refusal(joined2(path.as_str(), " is not a regular file"));
            proof {
                lemma_refusal_sticks(sv, i + 1, prefix@, rs);
            }
            return Err(e);
        }
        if !starts_with(path.as_str(), slash.as_str()) {
            let mut what = owned(path.as_str());
            append(&mut what, " is outside ");
            append(&mut what, prefix);
            let e = refusal(what);
            proof {
                lemma_refusal_sticks(sv, i + 1, prefix@, rs);
            }
            return Err(e);
        }
        let rel = string_of(&pv, slash_len, pv.len());
        assert(rel@ =~= path@.skip(prefix@.len() as int + 1));
        if !under_root(rel.as_str(), roots) {
            i += 1;
            continue;
        }
        let size = match entry.size {
            Some(n) => n,
            None => u64::MAX,
        };
        if size > MAX_FILE_BYTES {
            let e = refusal(joined2(rel.as_str(), " is larger than the per-file cap"));
            proof {
                lemma_refusal_sticks(sv, i + 1, prefix@, rs);
            }
            return Err(e);
        }
        if expanded + size > MAX_EXPANDED_BYTES {
            let e = refusal(owned("it expands past the cap"));
            proof {
                lemma_refusal_sticks(sv, i + 1, prefix@, rs);
            }
            return Err(e);
        }
        let body = match &entry.body {
            Err(why) => {
                let mut what = joined2(rel.as_str(), " does not read: ");
                append(&mut what, why.as_str());
                let e = refusal(what);
                proof {
                    lemma_refusal_sticks(sv, i + 1, prefix@, rs);
                }
                return Err(e);
            },
            Ok(b) => b,
        };
        expanded = expanded + size;
        files.insert(rel.as_str(), crate::text::copy_bytes(body));
        i += 1;
    }
    proof {
        assert(sv.take(steps.len() as int) =~= sv);
    }
    if files.is_empty() {
        return Err(refusal(owned("it carries no payload root")));
    }
    Ok(files)
}

/// What admitting an archive gives: refused where it is larger than the
/// compressed cap or its entries do not read, and otherwise what the walk
/// admits.
pub open spec fn admit_outcome(archive: Seq<u8>, prefix: Seq<char>, roots: Seq<Seq<char>>) -> Result<
    Map<Seq<char>, Seq<u8>>,
    Seq<char>,
> {
    if archive.len() > MAX_COMPRESSED_BYTES {
        Err(refused("it is larger than the compressed cap"@))
    } else {
        match tar_walk(archive, MAX_EXPANDED_BYTES) {
            Err(why) => Err(refused("its index does not read: "@ + why)),
            Ok(steps) => admission(steps, prefix, roots),
        }
    }
}

/// Read an archive into the payload files it is allowed to carry: every
/// bound enforced, every entry that is not a regular file under the
/// package prefix refused, and every duplicate path refused.
pub fn admit_archive(archive: &[u8], prefix: &str, roots: &Vec<String>) -> (r: Result<FileMap, ReleaseError>)
    ensures
        answers(r, admit_outcome(archive@, prefix@, crate::text::views_of(roots@))),
{
    if archive.len() as u64 > MAX_COMPRESSED_BYTES {
        return Err(refusal(owned("it is larger than the compressed cap")));
    }
    match walk_archive(archive, MAX_EXPANDED_BYTES) {
        Err(why) => Err(refusal(joined2("its index does not read: ", why.as_str()))),
        Ok(steps) => {
            proof {
                assert(walk_view(Ok(steps)) == Ok::<Seq<Result<EntryView, Seq<char>>>, Seq<char>>(steps_view(steps@)));
            }
            admit_entries(&steps, prefix, roots)
        },
    }
}

/// Every authored root the binary embeds, and so every root a published
/// archive may carry.
pub open spec fn payload_roots_spec() -> Seq<Seq<char>> {
    seq![
        "_docs/specs"@,
        "templates"@,
        ".markdownlint"@,
        "instance/snippets"@,
        "method"@,
        "skills"@,
        "skill-shared"@,
        "third-party/simpleenglish"@,
    ]
}

/// Every authored root the binary embeds.
pub fn payload_roots() -> (r: Vec<String>)
    ensures
        crate::text::views_of(r@) == payload_roots_spec(),
{
    let r = vec![
        owned("_docs/specs"),
        owned("templates"),
        owned(".markdownlint"),
        owned("instance/snippets"),
        owned("method"),
        owned("skills"),
        owned("skill-shared"),
        owned("third-party/simpleenglish"),
    ];
    assert(crate::text::views_of(r@) =~= payload_roots_spec());
    r
}

/// Read a published archive into the payload files it may carry: those
/// under the package prefix and under one of the roots the binary embeds.
pub fn admit_payload(archive: &[u8], prefix: &str) -> (r: Result<FileMap, ReleaseError>)
    ensures
        answers(r, admit_outcome(archive@, prefix@, payload_roots_spec())),
{
    let roots = payload_roots();
    admit_archive(archive, prefix, &roots)
}

} // verus!
