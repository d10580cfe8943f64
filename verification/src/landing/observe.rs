//! What one target shows, as the planner is told it.
//!
//! Walking the tree and reading the record are the command layer's work;
//! what they found is handed in as these values, and everything the plan
//! concludes from them is decided in the planner. Nothing here reads a
//! disk.

use vstd::prelude::*;

use crate::digest::Sha256;
use crate::landing::path::TargetPath;
use crate::profile::ProfileId;
use crate::sorted_map::TextMap;
use crate::version::CanonVersion;

verus! {

/// The target itself.
#[derive(Debug, Clone)]
pub struct Repository {
    /// Where it is.
    pub root: String,
    /// Whether version control is there to restore a retirement.
    pub version_controlled: bool,
    /// Whether it holds anything at all.
    pub empty: bool,
}

/// One file the instance records.
#[derive(Debug, Clone)]
pub struct RecordedFile {
    /// Where, relative to the target.
    pub path: TargetPath,
    /// What the record says the tool wrote there.
    pub recorded: Sha256,
    /// What the baseline was, for an adopted file.
    pub baseline: Option<Sha256>,
    /// What the target holds now, or nothing where the file is gone.
    pub held: Option<Sha256>,
}

/// One marked region a file the project owns carries.
#[derive(Debug, Clone)]
pub struct RecordedBlock {
    /// The host file, relative to the target.
    pub path: TargetPath,
    /// The region's digest as the record has it.
    pub recorded: Sha256,
    /// The region's digest now, or nothing where the host or the markers
    /// are gone.
    pub held: Option<Sha256>,
}

/// What is installed at the target.
#[derive(Debug, Clone)]
pub struct Installation {
    /// The release the record names.
    pub canon_version: CanonVersion,
    /// The profile the record names.
    pub profile: ProfileId,
    /// The documentation root the record names.
    pub docs_root: String,
    /// The record's own digest.
    pub record_sha256: Sha256,
    /// The project's declaration digest, where it has one.
    pub declaration_sha256: Option<Sha256>,
    /// Every managed file, as recorded and as found.
    pub managed: Vec<RecordedFile>,
    /// Every adopted file, as recorded and as found.
    pub adopted: Vec<RecordedFile>,
    /// Every marked region the canon owns, as recorded and as found.
    pub blocks: Vec<RecordedBlock>,
}

/// The digest spelling an optional digest holds, if any.
pub open spec fn digest_view(d: Option<Sha256>) -> Option<Seq<char>> {
    match d {
        Some(x) => Some(x@),
        None => None,
    }
}

/// Whether a recorded file no longer holds what the record says.
pub open spec fn file_moved(f: RecordedFile) -> bool {
    digest_view(f.held) != Some(f.recorded@)
}

/// Whether a marked region no longer holds what the record says.
pub open spec fn block_moved(b: RecordedBlock) -> bool {
    digest_view(b.held) != Some(b.recorded@)
}

/// Whether any recorded managed file or marked region has moved or gone.
pub open spec fn drifted_spec(i: Installation) -> bool {
    (exists|k: int| 0 <= k < i.managed@.len() && file_moved(#[trigger] i.managed@[k])) || (exists|
        k: int,
    | 0 <= k < i.blocks@.len() && block_moved(#[trigger] i.blocks@[k]))
}

/// Whether an optional digest is the given one.
fn holds_digest(held: &Option<Sha256>, recorded: &Sha256) -> (r: bool)
    ensures
        r == (digest_view(*held) == Some(recorded@)),
{
    match held {
        Some(d) => d.same(recorded),
        None => false,
    }
}

impl Installation {
    /// Whether any recorded managed file has moved or gone.
    pub fn drifted(&self) -> (r: bool)
        ensures
            r == drifted_spec(*self),
    {
        let mut i: usize = 0;
        while i < self.managed.len()
            invariant
                i <= self.managed.len(),
                forall|k: int| 0 <= k < i ==> !file_moved(#[trigger] self.managed@[k]),
            decreases self.managed.len() - i,
        {
            if !holds_digest(&self.managed[i].held, &self.managed[i].recorded) {
                assert(file_moved(self.managed@[i as int]));
                return true;
            }
            i += 1;
        }
        let mut j: usize = 0;
        while j < self.blocks.len()
            invariant
                j <= self.blocks.len(),
                forall|k: int| 0 <= k < self.managed@.len() ==> !file_moved(#[trigger] self.managed@[k]),
                forall|k: int| 0 <= k < j ==> !block_moved(#[trigger] self.blocks@[k]),
            decreases self.blocks.len() - j,
        {
            if !holds_digest(&self.blocks[j].held, &self.blocks[j].recorded) {
                assert(block_moved(self.blocks@[j as int]));
                return true;
            }
            j += 1;
        }
        false
    }
}

/// The host the command ran on.
#[derive(Debug, Clone)]
pub struct Host {
    /// Whether this run may reach the network.
    pub offline: bool,
    /// Where this tool keeps what it can fetch again.
    pub cache_root: Option<String>,
}

/// What the corpus looks like, as counts and paths a detector reads.
#[derive(Debug, Clone)]
pub struct Corpus {
    /// Documentation roots at the top level that hold anything.
    pub populated_doc_roots: Vec<String>,
    /// Every durable document, relative to the target, sorted.
    pub documents: Vec<TargetPath>,
    /// Documents shaped like a specification of this convention.
    pub spec_shaped: Vec<TargetPath>,
    /// Specification-shaped documents that define no rule identifier.
    pub spec_without_rule_id: Vec<TargetPath>,
    /// Documents named by their position rather than their subject.
    pub ordinal_named: Vec<TargetPath>,
    /// Decision records outside a decisions directory.
    pub records_outside_decisions: Vec<TargetPath>,
    /// Whether a specifications directory exists under a documentation root.
    pub has_specs_directory: bool,
}

impl Corpus {
    /// Whether the target documents itself already.
    ///
    /// Documents, not directories. A documentation root holding empty
    /// directories is a layout somebody started and not a corpus somebody
    /// wrote, and refusing to land beside it would refuse a repository
    /// that has written nothing.
    pub fn settled(&self) -> (r: bool)
        ensures
            r == (self.documents@.len() > 0),
    {
        self.documents.len() > 0
    }
}

/// Everything the planner is told about one target.
#[derive(Debug, Clone)]
pub struct Observation {
    /// The target itself.
    pub repository: Repository,
    /// What is installed, where anything is.
    pub installation: Option<Installation>,
    /// Why no installation was read, where metadata exists and is broken.
    pub invalid: Option<String>,
    /// The host.
    pub host: Host,
    /// The corpus.
    pub corpus: Corpus,
}

/// What recorded destinations hold, keyed by path: each file the target
/// holds, the managed files first and then the adopted ones, a later entry
/// for one path replacing an earlier one.
pub open spec fn held_map(files: Seq<RecordedFile>) -> Map<Seq<char>, Seq<char>>
    decreases files.len(),
{
    if files.len() == 0 {
        Map::empty()
    } else {
        let before = held_map(files.drop_last());
        match files.last().held {
            Some(d) => before.insert(files.last().path@, d@),
            None => before,
        }
    }
}

/// The recorded files of an installation, managed then adopted.
pub open spec fn recorded_files(installation: Option<Installation>) -> Seq<RecordedFile> {
    match installation {
        Some(i) => i.managed@ + i.adopted@,
        None => Seq::empty(),
    }
}

/// What the recorded destinations hold, keyed by path.
pub fn held_by_path(installation: Option<&Installation>) -> (held: TextMap<Sha256>)
    ensures
        held@ == held_map(recorded_files(
            match installation {
                Some(i) => Some(*i),
                None => None,
            },
        )),
{
    let mut held: TextMap<Sha256> = TextMap::new();
    let installation = match installation {
        None => {
            proof {
                assert(held_map(Seq::<RecordedFile>::empty()) =~= Map::<Seq<char>, Seq<char>>::empty());
            }
            return held;
        },
        Some(i) => i,
    };
    let ghost all = installation.managed@ + installation.adopted@;
    let n = installation.managed.len();
    let mut i: usize = 0;
    while i < n
        invariant
            n == installation.managed@.len(),
            all == installation.managed@ + installation.adopted@,
            i <= n,
            held@ == held_map(all.take(i as int)),
        decreases n - i,
    {
        let file = &installation.managed[i];
        assert(*file == all[i as int]);
        assert(all.take(i + 1).drop_last() =~= all.take(i as int));
        if let Some(d) = &file.held {
            held.insert(file.path.as_str(), d.copied());
        }
        i += 1;
    }
    let mut j: usize = 0;
    while j < installation.adopted.len()
        invariant
            n == installation.managed@.len(),
            all == installation.managed@ + installation.adopted@,
            j <= installation.adopted@.len(),
            held@ == held_map(all.take(n + j)),
        decreases installation.adopted.len() - j,
    {
        let file = &installation.adopted[j];
        assert(*file == all[n + j]);
        assert(all.take(n + j + 1).drop_last() =~= all.take(n + j));
        if let Some(d) = &file.held {
            held.insert(file.path.as_str(), d.copied());
        }
        j += 1;
    }
    assert(all.take(n + j) =~= all);
    held
}

} // verus!
