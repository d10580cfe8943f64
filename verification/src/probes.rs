//! The environment probe catalog.
//!
//! One catalog, read by every caller that needs to know whether this host
//! is ready: `sdd doctor` runs it whole and reports by class. Each probe
//! answers with a status, a message, and, on failure, the remediation
//! printed verbatim wherever the probe is consulted. A probe failure is a
//! result, not an error, so nothing here returns `Err`.
//!
//! What the environment, the disk, and the helper binaries answered is read
//! by the command layer and handed in as plain values; every verdict, every
//! message, and every remediation is decided here.

use vstd::prelude::*;

use crate::digest::{digest_text, Sha256};
use crate::paths::{is_relative_piece, joined_path, path_join};
use crate::text::{append, copy_bytes, decimal, join_texts, joined, owned, push_decimal, same_text, views_of};

verus! {

/// How a failure weighs at the doctor level.
#[derive(Debug, Clone, Copy, PartialEq, Eq, Structural)]
pub enum ProbeClass {
    /// No install under the user's home can work without this.
    Hard,
    /// Needed only by some commands or some tasks.
    Soft,
}

/// What a probe found.
#[derive(Debug, Clone, Copy, PartialEq, Eq, Structural)]
pub enum ProbeStatus {
    /// The probe passed.
    Passed,
    /// The probe failed; the remediation says what fixes it.
    Failed,
}

/// One probe's answer.
#[derive(Debug, Clone)]
pub struct ProbeResult {
    /// The probe's stable name.
    pub id: String,
    /// How the failure weighs.
    pub class: ProbeClass,
    /// What was found.
    pub status: ProbeStatus,
    /// What was found, one line.
    pub message: String,
    /// The exact fix, when the probe failed.
    pub remediation: Option<String>,
}

/// `r` is a pass of probe `id` saying `message`.
pub open spec fn passes(r: ProbeResult, id: Seq<char>, class: ProbeClass, message: Seq<char>) -> bool {
    &&& r.id@ == id
    &&& r.class == class
    &&& r.status is Passed
    &&& r.message@ == message
    &&& r.remediation is None
}

/// `r` is a failure of probe `id` saying `message` and prescribing `fix`.
pub open spec fn fails(
    r: ProbeResult,
    id: Seq<char>,
    class: ProbeClass,
    message: Seq<char>,
    fix: Seq<char>,
) -> bool {
    &&& r.id@ == id
    &&& r.class == class
    &&& r.status is Failed
    &&& r.message@ == message
    &&& r.remediation matches Some(f) && f@ == fix
}

impl ProbeResult {
    /// A pass.
    pub fn ok(id: &str, class: ProbeClass, message: String) -> (r: ProbeResult)
        ensures
            passes(r, id@, class, message@),
    {
        ProbeResult { id: owned(id), class, status: ProbeStatus::Passed, message, remediation: None }
    }

    /// A failure with its remediation.
    pub fn failed(id: &str, class: ProbeClass, message: String, remediation: String) -> (r:
        ProbeResult)
        ensures
            fails(r, id@, class, message@, remediation@),
    {
        ProbeResult {
            id: owned(id),
            class,
            status: ProbeStatus::Failed,
            message,
            remediation: Some(remediation),
        }
    }
}

/// The probe that the state root accepts writes.
pub const STATE_ROOT_PROBE: &'static str = "state-root";

/// The probe that the skill destinations accept writes.
pub const SKILL_ROOTS_PROBE: &'static str = "skill-roots";

/// The probe that the shared skill artifacts are installed and current.
pub const SKILL_GATE_PROBE: &'static str = "skill-gate";

/// The probe that the installed skills are this binary's.
pub const SKILL_PAYLOAD_PROBE: &'static str = "skill-payload";

/// Where the state root sits under the user's home.
pub const STATE_DIR: &'static str = ".local/state/spec-driven-docs";

/// The probes judging the skill installation itself, in catalog order.
///
/// Declared rather than derived by running the catalog: the shared
/// pre-flight must name each of these without writing into the operator's
/// home to learn what they are.
pub fn skill_probes() -> (r: Vec<&'static str>)
    ensures
        r@.len() == 3,
        r@[0]@ == SKILL_ROOTS_PROBE@,
        r@[1]@ == SKILL_GATE_PROBE@,
        r@[2]@ == SKILL_PAYLOAD_PROBE@,
{
    vec![SKILL_ROOTS_PROBE, SKILL_GATE_PROBE, SKILL_PAYLOAD_PROBE]
}

/// A fresh string holding `a` then `b`.
fn text2(a: &str, b: &str) -> (out: String)
    ensures
        out@ == a@ + b@,
{
    let mut out = owned(a);
    append(&mut out, b);
    out
}

/// A fresh string holding `a`, `b`, then `c`.
fn text3(a: &str, b: &str, c: &str) -> (out: String)
    ensures
        out@ == a@ + b@ + c@,
{
    let mut out = text2(a, b);
    append(&mut out, c);
    out
}

/// The remediation that corrects a difference.
pub open spec fn reinstall_text(all_recorded: bool) -> Seq<char> {
    if all_recorded {
        "sdd skill install --apply"@
    } else {
        "sdd skill install --apply --force"@
    }
}

/// The install that corrects a difference. Bytes the record vouches for are
/// an older release's and go without asking; bytes it cannot account for are
/// the operator's own, and overwriting those is what `--force` is.
pub fn reinstall(all_recorded: bool) -> (r: &'static str)
    ensures
        r@ == reinstall_text(all_recorded),
{
    if all_recorded {
        "sdd skill install --apply"
    } else {
        "sdd skill install --apply --force"
    }
}

/// How a helper binary answered its version call.
#[derive(Debug, Clone, Copy, PartialEq, Eq, Structural)]
pub enum ToolAnswer {
    /// It ran and exited with success.
    Runs,
    /// It ran and exited with failure.
    Refuses,
    /// It could not be started.
    Absent,
}

/// What the probe of one helper binary answers.
pub open spec fn tool_answer(
    r: ProbeResult,
    id: Seq<char>,
    default_bin: Seq<char>,
    label: Seq<char>,
    args: Seq<Seq<char>>,
    answer: ToolAnswer,
) -> bool {
    match answer {
        ToolAnswer::Runs => passes(r, id, ProbeClass::Soft, default_bin + " runs"@),
        ToolAnswer::Refuses => fails(
            r,
            id,
            ProbeClass::Soft,
            default_bin + " does not answer "@ + joined(args, " "@),
            "repair "@ + label,
        ),
        ToolAnswer::Absent => fails(
            r,
            id,
            ProbeClass::Soft,
            default_bin + " is not on PATH"@,
            "install "@ + label,
        ),
    }
}

/// A helper binary answers its version call. Presence is the whole
/// question, because the tools here take no configuration.
pub fn tool(id: &str, default_bin: &str, label: &str, args: &Vec<String>, answer: ToolAnswer) -> (r:
    ProbeResult)
    ensures
        tool_answer(r, id@, default_bin@, label@, views_of(args@), answer),
{
    match answer {
        ToolAnswer::Runs => ProbeResult::ok(id, ProbeClass::Soft, text2(default_bin, " runs")),
        ToolAnswer::Refuses => {
            let said = join_texts(args, " ");
            ProbeResult::failed(
                id,
                ProbeClass::Soft,
                text3(default_bin, " does not answer ", said.as_str()),
                text2("repair ", label),
            )
        },
        ToolAnswer::Absent => ProbeResult::failed(
            id,
            ProbeClass::Soft,
            text2(default_bin, " is not on PATH"),
            text2("install ", label),
        ),
    }
}

/// The home directory, where one is set and not empty.
pub open spec fn home_of(home: Option<String>) -> Option<Seq<char>> {
    match home {
        Some(h) => if h@.len() > 0 {
            Some(h@)
        } else {
            None
        },
        None => None,
    }
}

/// The home a probe may resolve against, where one is set and not empty.
fn usable_home(home: &Option<String>) -> (r: Option<&str>)
    ensures
        r matches Some(h) ==> home_of(*home) == Some(h@),
        r is None ==> home_of(*home) is None,
{
    match home {
        Some(h) => {
            if h.as_str().is_empty() {
                None
            } else {
                Some(h.as_str())
            }
        },
        None => None,
    }
}

/// The state root under a home.
pub open spec fn state_root_path(home: Seq<char>) -> Seq<char> {
    joined_path(home, STATE_DIR@)
}

/// The state root under a non-empty home, where the state-root probe
/// writes its scratch file.
pub fn state_root_of(home: &str) -> (root: String)
    requires
        home@.len() > 0,
    ensures
        root@ == state_root_path(home@),
{
    proof {
        reveal_strlit(".local/state/spec-driven-docs");
    }
    path_join(home, STATE_DIR)
}

/// What the state-root probe answers.
pub open spec fn state_root_answer(
    r: ProbeResult,
    home: Option<String>,
    written: Result<(), String>,
) -> bool {
    match home_of(home) {
        None => fails(
            r,
            STATE_ROOT_PROBE@,
            ProbeClass::Hard,
            "HOME is not set, so no state root resolves"@,
            "export HOME"@,
        ),
        Some(h) => {
            let root = state_root_path(h);
            match written {
                Ok(_) => passes(r, STATE_ROOT_PROBE@, ProbeClass::Hard, root + " is writable"@),
                Err(e) => fails(
                    r,
                    STATE_ROOT_PROBE@,
                    ProbeClass::Hard,
                    root + " is not writable: "@ + e@,
                    "make "@ + root + " writable"@,
                ),
            }
        },
    }
}

/// The state root accepts writes; the skill record and the shared artifacts
/// live under it. `written` is how a scratch write into the state root went.
pub fn state_root(home: &Option<String>, written: &Result<(), String>) -> (r: ProbeResult)
    ensures
        state_root_answer(r, *home, *written),
{
    let id = STATE_ROOT_PROBE;
    match usable_home(home) {
        None => ProbeResult::failed(
            id,
            ProbeClass::Hard,
            owned("HOME is not set, so no state root resolves"),
            owned("export HOME"),
        ),
        Some(h) => {
            let root = state_root_of(h);
            match written {
                Ok(_) => ProbeResult::ok(id, ProbeClass::Hard, text2(root.as_str(), " is writable")),
                Err(e) => ProbeResult::failed(
                    id,
                    ProbeClass::Hard,
                    text3(root.as_str(), " is not writable: ", e.as_str()),
                    text3("make ", root.as_str(), " writable"),
                ),
            }
        },
    }
}

/// What one skill destination root showed: its place under the home, the
/// nearest ancestor that exists as a directory, and how a scratch write
/// into that ancestor went.
#[derive(Debug, Clone)]
pub struct RootAccess {
    /// The root, relative to the home.
    pub root: String,
    /// The nearest existing ancestor, the root itself included.
    pub existing: Option<String>,
    /// Why a write into that ancestor was refused, where it was.
    pub refusal: Option<String>,
}

/// Whether a root's relative path is one a home can adjoin.
pub open spec fn roots_relative(roots: Seq<RootAccess>) -> bool {
    forall|i: int| 0 <= i < roots.len() ==> is_relative_piece(#[trigger] roots[i].root@)
}

/// The refusal one root contributes to the skill-roots message, if any.
pub open spec fn root_refusal(home: Seq<char>, access: RootAccess) -> Option<Seq<char>> {
    match access.existing {
        None => Some("no ancestor of "@ + joined_path(home, access.root@) + " exists"@),
        Some(existing) => match access.refusal {
            Some(why) => Some(existing@ + " is not writable: "@ + why@),
            None => None,
        },
    }
}

/// The refusals of every root, in order.
pub open spec fn root_refusals(home: Seq<char>, roots: Seq<RootAccess>) -> Seq<Seq<char>>
    decreases roots.len(),
{
    if roots.len() == 0 {
        Seq::empty()
    } else {
        let before = root_refusals(home, roots.drop_last());
        match root_refusal(home, roots.last()) {
            Some(m) => before.push(m),
            None => before,
        }
    }
}

/// What the skill-roots probe answers.
pub open spec fn skill_roots_answer(r: ProbeResult, home: Option<String>, roots: Seq<RootAccess>) -> bool {
    match home_of(home) {
        None => fails(
            r,
            SKILL_ROOTS_PROBE@,
            ProbeClass::Soft,
            "HOME is not set, so no skill root resolves"@,
            "export HOME"@,
        ),
        Some(h) => {
            let refused = root_refusals(h, roots);
            if refused.len() == 0 {
                passes(
                    r,
                    SKILL_ROOTS_PROBE@,
                    ProbeClass::Soft,
                    "the skill roots under "@ + h + " accept writes"@,
                )
            } else {
                fails(
                    r,
                    SKILL_ROOTS_PROBE@,
                    ProbeClass::Soft,
                    joined(refused, "; "@),
                    "make the skill roots under "@ + h + " writable"@,
                )
            }
        },
    }
}

/// The destinations `sdd skill install` writes accept writes: the two agent
/// roots and the shared root, all under the invoking user's home.
///
/// A root can exist and still refuse, which is what a read-only bind of an
/// agent directory produces, so what is tested is the nearest existing
/// ancestor, the directory an install would actually have to write
/// through. Nothing is created: a preview must still be able to report a
/// root as absent.
pub fn skill_roots(home: &Option<String>, roots: &Vec<RootAccess>) -> (r: ProbeResult)
    requires
        roots_relative(roots@),
    ensures
        skill_roots_answer(r, *home, roots@),
{
    let id = SKILL_ROOTS_PROBE;
    match usable_home(home) {
        None => ProbeResult::failed(
            id,
            ProbeClass::Soft,
            owned("HOME is not set, so no skill root resolves"),
            owned("export HOME"),
        ),
        Some(h) => {
            let mut refused: Vec<String> = Vec::new();
            let mut i: usize = 0;
            while i < roots.len()
                invariant
                    i <= roots.len(),
                    h@.len() > 0,
                    roots_relative(roots@),
                    views_of(refused@) == root_refusals(h@, roots@.take(i as int)),
                decreases roots.len() - i,
            {
                let access = &roots[i];
                proof {
                    assert(roots@.take(i + 1).drop_last() =~= roots@.take(i as int));
                    assert(is_relative_piece(roots@[i as int].root@));
                }
                match &access.existing {
                    None => {
                        let root = path_join(h, access.root.as_str());
                        refused.push(text3("no ancestor of ", root.as_str(), " exists"));
                    },
                    Some(existing) => {
                        match &access.refusal {
                            Some(why) => {
                                refused.push(text3(existing.as_str(), " is not writable: ", why.as_str()));
                            },
                            None => {},
                        }
                    },
                }
                proof {
                    assert(views_of(refused@) =~= root_refusals(h@, roots@.take(i + 1)));
                }
                i += 1;
            }
            assert(roots@.take(roots.len() as int) =~= roots@);
            if refused.len() == 0 {
                ProbeResult::ok(id, ProbeClass::Soft, text3("the skill roots under ", h, " accept writes"))
            } else {
                ProbeResult::failed(
                    id,
                    ProbeClass::Soft,
                    join_texts(&refused, "; "),
                    text3("make the skill roots under ", h, " writable"),
                )
            }
        },
    }
}

/// One destination the payload names: where, the bytes this binary
/// carries for it, and the bytes found there, where a readable file is.
#[derive(Debug, Clone)]
pub struct Observed {
    /// Where the file belongs.
    pub destination: String,
    /// The bytes this binary carries for it.
    pub expected: Vec<u8>,
    /// The bytes read there, or nothing where no readable file is.
    pub held: Option<Vec<u8>>,
}

/// One entry of the skill record: a destination this tool wrote, and the
/// digest of what it wrote there.
#[derive(Debug, Clone)]
pub struct Recorded {
    /// The destination.
    pub path: String,
    /// The digest of the bytes written.
    pub digest: Sha256,
}

/// Whether the record says this tool wrote `digest` at `path`.
pub open spec fn wrote(record: Seq<Recorded>, path: Seq<char>, digest: Seq<char>) -> bool {
    exists|j: int| 0 <= j < record.len() && #[trigger] record[j].path@ == path && record[j].digest@ == digest
}

/// Whether a destination holds bytes other than the payload's.
pub open spec fn differs(o: Observed) -> bool {
    o.held matches Some(h) && h@ != o.expected@
}

/// Whether a destination holds exactly the payload's bytes.
pub open spec fn matches_payload(o: Observed) -> bool {
    o.held matches Some(h) && h@ == o.expected@
}

/// The destinations holding no readable file, in order.
pub open spec fn missing_of(p: Seq<Observed>) -> Seq<Seq<char>>
    decreases p.len(),
{
    if p.len() == 0 {
        Seq::empty()
    } else if p.last().held is None {
        missing_of(p.drop_last()).push(p.last().destination@)
    } else {
        missing_of(p.drop_last())
    }
}

/// The destinations holding bytes that are not this binary's, in order.
pub open spec fn differing_of(p: Seq<Observed>) -> Seq<Seq<char>>
    decreases p.len(),
{
    if p.len() == 0 {
        Seq::empty()
    } else if differs(p.last()) {
        differing_of(p.drop_last()).push(p.last().destination@)
    } else {
        differing_of(p.drop_last())
    }
}

/// How many destinations hold exactly this binary's bytes.
pub open spec fn matching_of(p: Seq<Observed>) -> nat
    decreases p.len(),
{
    if p.len() == 0 {
        0
    } else if matches_payload(p.last()) {
        matching_of(p.drop_last()) + 1
    } else {
        matching_of(p.drop_last())
    }
}

/// Whether the record vouches for every differing destination.
pub open spec fn all_vouched(p: Seq<Observed>, record: Seq<Recorded>) -> bool {
    forall|i: int|
        0 <= i < p.len() && differs(#[trigger] p[i]) ==> wrote(
            record,
            p[i].destination@,
            digest_text(p[i].held->0@),
        )
}

/// What sits at each destination the payload names.
#[derive(Debug, Clone)]
pub struct Installed {
    /// Destinations the payload names that hold no readable file.
    pub missing: Vec<String>,
    /// Destinations holding bytes that are not this binary's.
    pub differing: Vec<String>,
    /// How many destinations hold exactly this binary's bytes.
    pub matching: usize,
    /// Whether the record vouches for every differing destination, which
    /// makes the difference a stale install rather than the operator's own
    /// edit, and decides whether the fix needs `--force`.
    pub all_recorded: bool,
}

/// Whether two byte strings are equal.
fn same_bytes(a: &Vec<u8>, b: &Vec<u8>) -> (r: bool)
    ensures
        r == (a@ == b@),
{
    if a.len() != b.len() {
        return false;
    }
    let mut i: usize = 0;
    while i < a.len()
        invariant
            a@.len() == b@.len(),
            i <= a.len(),
            forall|j: int| 0 <= j < i ==> a@[j] == b@[j],
        decreases a.len() - i,
    {
        if a[i] != b[i] {
            return false;
        }
        i += 1;
    }
    assert(a@ =~= b@);
    true
}

/// Whether the record says this tool wrote `digest` at `path`.
fn record_wrote(record: &Vec<Recorded>, path: &str, digest: &Sha256) -> (r: bool)
    ensures
        r == wrote(record@, path@, digest@),
{
    let mut j: usize = 0;
    while j < record.len()
        invariant
            j <= record.len(),
            forall|k: int|
                0 <= k < j ==> !(#[trigger] record@[k].path@ == path@ && record@[k].digest@
                    == digest@),
        decreases record.len() - j,
    {
        if same_text(record[j].path.as_str(), path) && record[j].digest.same(digest) {
            return true;
        }
        j += 1;
    }
    false
}

/// Judge each destination the payload names against what sits there.
pub fn judge(planned: &Vec<Observed>, record: &Vec<Recorded>) -> (found: Installed)
    ensures
        views_of(found.missing@) == missing_of(planned@),
        views_of(found.differing@) == differing_of(planned@),
        found.matching == matching_of(planned@),
        found.all_recorded == all_vouched(planned@, record@),
{
    let mut found = Installed {
        missing: Vec::new(),
        differing: Vec::new(),
        matching: 0,
        all_recorded: true,
    };
    let mut i: usize = 0;
    while i < planned.len()
        invariant
            i <= planned.len(),
            views_of(found.missing@) == missing_of(planned@.take(i as int)),
            views_of(found.differing@) == differing_of(planned@.take(i as int)),
            found.matching == matching_of(planned@.take(i as int)),
            found.matching <= i,
            found.all_recorded == all_vouched(planned@.take(i as int), record@),
        decreases planned.len() - i,
    {
        let o = &planned[i];
        let ghost before = planned@.take(i as int);
        let ghost after = planned@.take(i + 1);
        proof {
            assert(after.drop_last() =~= before);
            assert(after.last() == planned@[i as int]);
        }
        match &o.held {
            None => {
                found.missing.push(o.destination.clone());
                proof {
                    assert(views_of(found.missing@) =~= missing_of(after));
                    assert(all_vouched(after, record@) == all_vouched(before, record@)) by {
                        assert forall|k: int| 0 <= k < after.len() && differs(#[trigger] after[k]) implies k
                            < before.len() by {}
                        assert forall|k: int| 0 <= k < before.len() implies #[trigger] after[k] == before[k] by {}
                    }
                }
            },
            Some(held) => {
                if same_bytes(held, &o.expected) {
                    found.matching = found.matching + 1;
                    proof {
                        assert(all_vouched(after, record@) == all_vouched(before, record@)) by {
                            assert forall|k: int| 0 <= k < after.len() && differs(#[trigger] after[k]) implies k
                                < before.len() by {}
                            assert forall|k: int| 0 <= k < before.len() implies #[trigger] after[k] == before[k] by {}
                        }
                    }
                } else {
                    let digest = Sha256::of(held.as_slice());
                    let vouched = record_wrote(record, o.destination.as_str(), &digest);
                    proof {
                        assert forall|k: int| 0 <= k < before.len() implies #[trigger] after[k] == before[k] by {}
                        if vouched {
                            assert(all_vouched(after, record@) == all_vouched(before, record@)) by {
                                assert forall|k: int| 0 <= k < after.len() && differs(#[trigger] after[k]) && !(k < before.len())
                                    implies wrote(record@, after[k].destination@, digest_text(after[k].held->0@)) by {
                                    assert(k == i);
                                }
                            }
                        } else {
                            assert(!all_vouched(after, record@)) by {
                                assert(differs(after[i as int]));
                            }
                        }
                    }
                    if !vouched {
                        found.all_recorded = false;
                    }
                    found.differing.push(o.destination.clone());
                    proof {
                        assert(views_of(found.differing@) =~= differing_of(after));
                    }
                }
            },
        }
        proof {
            assert(views_of(found.missing@) =~= missing_of(after));
            assert(views_of(found.differing@) =~= differing_of(after));
        }
        i += 1;
    }
    assert(planned@.take(planned.len() as int) =~= planned@);
    found
}

/// The judge sorts every destination into exactly one bucket: missing,
/// differing, or matching.
pub proof fn law_each_destination_in_one_bucket(p: Seq<Observed>)
    ensures
        missing_of(p).len() + differing_of(p).len() + matching_of(p) == p.len(),
    decreases p.len(),
{
    if p.len() > 0 {
        law_each_destination_in_one_bucket(p.drop_last());
    }
}


/// What the skill-gate probe answers.
pub open spec fn skill_gate_answer(
    r: ProbeResult,
    home: Option<String>,
    shared_root: Seq<char>,
    symlink: Option<String>,
    planned: Seq<Observed>,
    record: Seq<Recorded>,
) -> bool {
    match home_of(home) {
        None => fails(
            r,
            SKILL_GATE_PROBE@,
            ProbeClass::Soft,
            "HOME is not set, so the shared root does not resolve"@,
            "export HOME"@,
        ),
        Some(h) => match symlink {
            Some(link) => fails(
                r,
                SKILL_GATE_PROBE@,
                ProbeClass::Soft,
                "the shared root is reached through a symlink: "@ + link@,
                "remove the symlink; sdd skill install refuses to write through it"@,
            ),
            None => {
                let root = joined_path(h, shared_root);
                let fix = reinstall_text(all_vouched(planned, record));
                if missing_of(planned).len() > 0 {
                    fails(
                        r,
                        SKILL_GATE_PROBE@,
                        ProbeClass::Soft,
                        "a shared artifact every skill reads before acting is not installed: "@
                            + missing_of(planned)[0],
                        fix,
                    )
                } else if differing_of(planned).len() > 0 {
                    fails(
                        r,
                        SKILL_GATE_PROBE@,
                        ProbeClass::Soft,
                        decimal(differing_of(planned).len()) + " shared artifact(s) under "@ + root
                            + " are not this binary's"@,
                        fix,
                    )
                } else {
                    passes(
                        r,
                        SKILL_GATE_PROBE@,
                        ProbeClass::Soft,
                        root + " holds this binary's shared artifacts"@,
                    )
                }
            },
        },
    }
}

/// The artifacts every skill shares are installed, and are this binary's.
///
/// The agent roots and the shared root are separate directories, so a
/// container, a sandbox, or a sync that carries one and not the other
/// leaves every skill resolvable by name and unable to read the gates it is
/// told to read first. `symlink` is a symlink found in the tool-owned chain
/// from the state directory down to the shared root, which the installer
/// refuses to write through; `planned` is each shared artifact's
/// destination under the shared root with what sits there.
pub fn skill_gate(
    home: &Option<String>,
    shared_root: &str,
    symlink: &Option<String>,
    planned: &Vec<Observed>,
    record: &Vec<Recorded>,
) -> (r: ProbeResult)
    requires
        is_relative_piece(shared_root@),
    ensures
        skill_gate_answer(r, *home, shared_root@, *symlink, planned@, record@),
{
    let id = SKILL_GATE_PROBE;
    let h = match usable_home(home) {
        None => {
            return ProbeResult::failed(
                id,
                ProbeClass::Soft,
                owned("HOME is not set, so the shared root does not resolve"),
                owned("export HOME"),
            );
        },
        Some(h) => h,
    };
    if let Some(link) = symlink {
        return ProbeResult::failed(
            id,
            ProbeClass::Soft,
            text2("the shared root is reached through a symlink: ", link.as_str()),
            owned("remove the symlink; sdd skill install refuses to write through it"),
        );
    }
    let root = path_join(h, shared_root);
    let found = judge(planned, record);
    let fix = reinstall(found.all_recorded);
    if found.missing.len() > 0 {
        return ProbeResult::failed(
            id,
            ProbeClass::Soft,
            text2(
                "a shared artifact every skill reads before acting is not installed: ",
                found.missing[0].as_str(),
            ),
            owned(fix),
        );
    }
    if found.differing.len() > 0 {
        let mut message = String::new();
        push_decimal(&mut message, found.differing.len() as u64);
        append(&mut message, " shared artifact(s) under ");
        append(&mut message, root.as_str());
        append(&mut message, " are not this binary's");
        return ProbeResult::failed(id, ProbeClass::Soft, message, owned(fix));
    }
    ProbeResult::ok(id, ProbeClass::Soft, text2(root.as_str(), " holds this binary's shared artifacts"))
}

/// One agent skill root: its place under the home, and whether it exists
/// as a directory. An absent root is a choice, not a defect: `--agent`
/// selects one family and leaves the other's root untouched.
#[derive(Debug, Clone)]
pub struct AgentRoot {
    /// The root, relative to the home.
    pub root: String,
    /// Whether it exists as a directory.
    pub present: bool,
}

/// One skill this binary carries: its name, and its `SKILL.md` bytes where
/// the embedded payload reads.
#[derive(Debug, Clone)]
pub struct Skill {
    /// The skill's name, its directory under an agent root.
    pub name: String,
    /// The bytes of its `SKILL.md`, where they read.
    pub text: Option<Vec<u8>>,
}

/// Whether every root and every skill name is a relative path.
pub open spec fn layout_relative(roots: Seq<AgentRoot>, skills: Seq<Skill>) -> bool {
    &&& forall|i: int| 0 <= i < roots.len() ==> is_relative_piece(#[trigger] roots[i].root@)
    &&& forall|i: int| 0 <= i < skills.len() ==> is_relative_piece(#[trigger] skills[i].name@)
}

/// Whether some agent root exists.
pub open spec fn any_present(roots: Seq<AgentRoot>) -> bool {
    exists|i: int| 0 <= i < roots.len() && #[trigger] roots[i].present
}

/// Whether every embedded skill reads.
pub open spec fn all_read(skills: Seq<Skill>) -> bool {
    forall|i: int| 0 <= i < skills.len() ==> (#[trigger] skills[i]).text is Some
}

/// Where one skill's `SKILL.md` belongs under an agent root.
pub open spec fn skill_destination(root: Seq<char>, name: Seq<char>) -> Seq<char> {
    joined_path(joined_path(root, name), "SKILL.md"@)
}

/// Each skill's destination under one agent root, with its bytes.
pub open spec fn skills_under(root: Seq<char>, skills: Seq<Skill>) -> Seq<(Seq<char>, Seq<u8>)>
    decreases skills.len(),
{
    if skills.len() == 0 {
        Seq::empty()
    } else {
        skills_under(root, skills.drop_last()).push(
            (skill_destination(root, skills.last().name@), skills.last().text->0@),
        )
    }
}

/// Every destination the payload names, root by root, present roots only.
pub open spec fn payload_of(home: Seq<char>, roots: Seq<AgentRoot>, skills: Seq<Skill>) -> Seq<
    (Seq<char>, Seq<u8>),
>
    decreases roots.len(),
{
    if roots.len() == 0 {
        Seq::empty()
    } else if roots.last().present {
        payload_of(home, roots.drop_last(), skills) + skills_under(
            joined_path(home, roots.last().root@),
            skills,
        )
    } else {
        payload_of(home, roots.drop_last(), skills)
    }
}

/// The destinations and bytes of a plan, in order.
pub open spec fn planned_view(p: Seq<Observed>) -> Seq<(Seq<char>, Seq<u8>)> {
    p.map_values(|o: Observed| (o.destination@, o.expected@))
}

/// Whether nothing of a plan has been read yet.
pub open spec fn unread(p: Seq<Observed>) -> bool {
    forall|i: int| 0 <= i < p.len() ==> (#[trigger] p[i]).held is None
}

/// The destinations the skill-payload probe reads: each skill's `SKILL.md`
/// under each agent root that exists, or nothing where an agent root exists
/// and an embedded skill does not read.
pub fn payload_plan(home: &str, roots: &Vec<AgentRoot>, skills: &Vec<Skill>) -> (r: Option<
    Vec<Observed>,
>)
    requires
        home@.len() > 0,
        layout_relative(roots@, skills@),
    ensures
        r is None <==> (any_present(roots@) && !all_read(skills@)),
        r matches Some(v) ==> planned_view(v@) == payload_of(home@, roots@, skills@) && unread(v@),
{
    proof {
        reveal_strlit("SKILL.md");
    }
    let mut readable = true;
    let mut k: usize = 0;
    while k < skills.len()
        invariant
            k <= skills.len(),
            readable == (forall|j: int| 0 <= j < k ==> (#[trigger] skills@[j]).text is Some),
        decreases skills.len() - k,
    {
        if skills[k].text.is_none() {
            readable = false;
        }
        k += 1;
    }
    let mut plan: Vec<Observed> = Vec::new();
    let mut i: usize = 0;
    while i < roots.len()
        invariant
            i <= roots.len(),
            home@.len() > 0,
            layout_relative(roots@, skills@),
            readable == all_read(skills@),
            !readable ==> forall|j: int| 0 <= j < i ==> !(#[trigger] roots@[j]).present,
            planned_view(plan@) == payload_of(home@, roots@.take(i as int), skills@),
            unread(plan@),
        decreases roots.len() - i,
    {
        proof {
            assert(roots@.take(i + 1).drop_last() =~= roots@.take(i as int));
        }
        if roots[i].present {
            if !readable {
                return None;
            }
            assert(is_relative_piece(roots@[i as int].root@));
            let root = path_join(home, roots[i].root.as_str());
            let ghost start = plan@;
            proof {
                reveal_strlit("SKILL.md");
            }
            let mut j: usize = 0;
            while j < skills.len()
                invariant
                    j <= skills.len(),
                    root@.len() > 0,
                    layout_relative(roots@, skills@),
                    all_read(skills@),
                    is_relative_piece("SKILL.md"@),
                    planned_view(plan@) == planned_view(start) + skills_under(
                        root@,
                        skills@.take(j as int),
                    ),
                    unread(start) ==> unread(plan@),
                    plan@.len() == start.len() + j,
                    forall|t: int| 0 <= t < start.len() ==> plan@[t] == start[t],
                decreases skills.len() - j,
            {
                let skill = &skills[j];
                assert(is_relative_piece(skills@[j as int].name@));
                assert(skills@[j as int].text is Some);
                let dir = path_join(root.as_str(), skill.name.as_str());
                let destination = path_join(dir.as_str(), "SKILL.md");
                let bytes = match &skill.text {
                    Some(b) => copy_bytes(b),
                    None => Vec::new(),
                };
                let ghost before = plan@;
                plan.push(Observed { destination, expected: bytes, held: None });
                proof {
                    assert(skills@.take(j + 1).drop_last() =~= skills@.take(j as int));
                    assert(planned_view(plan@) =~= planned_view(before).push(
                        (plan@.last().destination@, plan@.last().expected@),
                    ));
                    assert(planned_view(plan@) =~= planned_view(start) + skills_under(
                        root@,
                        skills@.take(j + 1),
                    ));
                    assert(unread(start) ==> unread(plan@)) by {
                        if unread(start) {
                            assert forall|t: int| 0 <= t < plan@.len() implies (#[trigger] plan@[t]).held is None by {
                                if t < start.len() {
                                    assert(plan@[t] == start[t]);
                                } else if t < before.len() {
                                    assert(before[t].held is None);
                                }
                            }
                        }
                    }
                }
                j += 1;
            }
            assert(skills@.take(skills.len() as int) =~= skills@);
        }
        i += 1;
    }
    assert(roots@.take(roots.len() as int) =~= roots@);
    proof {
        if any_present(roots@) && !all_read(skills@) {
            let w = choose|j: int| 0 <= j < roots@.len() && #[trigger] roots@[j].present;
            assert(!roots@[w].present);
        }
    }
    Some(plan)
}


/// What the skill-payload probe answers. `plan` is `payload_plan`'s
/// answer with what sits at each destination read in.
pub open spec fn skill_payload_answer(
    r: ProbeResult,
    home: Option<String>,
    plan: Option<Vec<Observed>>,
    record: Seq<Recorded>,
    version: Seq<char>,
) -> bool {
    match home_of(home) {
        None => fails(
            r,
            SKILL_PAYLOAD_PROBE@,
            ProbeClass::Soft,
            "HOME is not set, so no agent root resolves"@,
            "export HOME"@,
        ),
        Some(h) => match plan {
            None => fails(
                r,
                SKILL_PAYLOAD_PROBE@,
                ProbeClass::Soft,
                "this binary's embedded skills do not read"@,
                "reinstall sdd; the payload it was built from is defective"@,
            ),
            Some(p) => {
                let planned = p@;
                let fix = reinstall_text(all_vouched(planned, record));
                if planned.len() == 0 {
                    fails(
                        r,
                        SKILL_PAYLOAD_PROBE@,
                        ProbeClass::Soft,
                        "no agent skill root exists under "@ + h,
                        "sdd skill install --apply"@,
                    )
                } else if missing_of(planned).len() > 0 {
                    fails(
                        r,
                        SKILL_PAYLOAD_PROBE@,
                        ProbeClass::Soft,
                        decimal(missing_of(planned).len())
                            + " of this binary's skills are not installed, the first at "@
                            + missing_of(planned)[0],
                        fix,
                    )
                } else if differing_of(planned).len() > 0 {
                    fails(
                        r,
                        SKILL_PAYLOAD_PROBE@,
                        ProbeClass::Soft,
                        decimal(differing_of(planned).len())
                            + " installed skill(s) are not this binary's; sdd is "@ + version,
                        fix,
                    )
                } else {
                    passes(
                        r,
                        SKILL_PAYLOAD_PROBE@,
                        ProbeClass::Soft,
                        decimal(matching_of(planned))
                            + " installed skill destination(s) are this binary's"@,
                    )
                }
            },
        },
    }
}

/// The skills installed under this home are the ones this binary carries.
///
/// One binary serves every repository, so a skill under an agent root and
/// the `sdd` on PATH are two artifacts that can be updated apart: a home
/// shared with a container, a sandbox, or another machine can hold skills
/// some other build installed. The probe names that drift rather than
/// leaving an agent to follow instructions the binary no longer answers.
/// `version` is this binary's release.
pub fn skill_payload(
    home: &Option<String>,
    plan: &Option<Vec<Observed>>,
    record: &Vec<Recorded>,
    version: &str,
) -> (r: ProbeResult)
    ensures
        skill_payload_answer(r, *home, *plan, record@, version@),
{
    let id = SKILL_PAYLOAD_PROBE;
    let h = match usable_home(home) {
        None => {
            return ProbeResult::failed(
                id,
                ProbeClass::Soft,
                owned("HOME is not set, so no agent root resolves"),
                owned("export HOME"),
            );
        },
        Some(h) => h,
    };
    let planned = match plan {
        None => {
            return ProbeResult::failed(
                id,
                ProbeClass::Soft,
                owned("this binary's embedded skills do not read"),
                owned("reinstall sdd; the payload it was built from is defective"),
            );
        },
        Some(p) => p,
    };
    if planned.len() == 0 {
        return ProbeResult::failed(
            id,
            ProbeClass::Soft,
            text2("no agent skill root exists under ", h),
            owned("sdd skill install --apply"),
        );
    }
    let found = judge(planned, record);
    let fix = reinstall(found.all_recorded);
    if found.missing.len() > 0 {
        let mut message = String::new();
        push_decimal(&mut message, found.missing.len() as u64);
        append(&mut message, " of this binary's skills are not installed, the first at ");
        append(&mut message, found.missing[0].as_str());
        return ProbeResult::failed(id, ProbeClass::Soft, message, owned(fix));
    }
    if found.differing.len() > 0 {
        let mut message = String::new();
        push_decimal(&mut message, found.differing.len() as u64);
        append(&mut message, " installed skill(s) are not this binary's; sdd is ");
        append(&mut message, version);
        return ProbeResult::failed(id, ProbeClass::Soft, message, owned(fix));
    }
    let mut message = String::new();
    push_decimal(&mut message, found.matching as u64);
    append(&mut message, " installed skill destination(s) are this binary's");
    ProbeResult::ok(id, ProbeClass::Soft, message)
}

/// Everything the catalog reads from the host, gathered by the command
/// layer before any verdict is made.
#[derive(Debug)]
pub struct HostObservation {
    /// `HOME`, where it is set.
    pub home: Option<String>,
    /// How a scratch write into the state root went.
    pub state_written: Result<(), String>,
    /// The skill destinations an install writes, in order: the two agent
    /// roots, then the shared root.
    pub roots: Vec<RootAccess>,
    /// The shared root, relative to the home.
    pub shared_root: String,
    /// A symlink in the chain from the state directory to the shared root.
    pub shared_symlink: Option<String>,
    /// Each shared artifact's destination with what sits there.
    pub shared: Vec<Observed>,
    /// The skill payload's destinations with what sits there, or nothing
    /// where an embedded skill does not read.
    pub payload: Option<Vec<Observed>>,
    /// The skill record.
    pub record: Vec<Recorded>,
    /// This binary's release.
    pub version: String,
    /// How `git --version` answered.
    pub git: ToolAnswer,
    /// How `pre-commit --version` answered.
    pub pre_commit: ToolAnswer,
}

/// The label of the `git` probe.
pub open spec fn git_label() -> Seq<char> {
    "git; retiring a migrated document is safe only where version control restores it"@
}

/// The label of the `pre-commit` probe.
pub open spec fn pre_commit_label() -> Seq<char> {
    "pre-commit; the delivered gates run through it"@
}

/// Run the whole catalog, in its stable order.
pub fn run_all(host: &HostObservation) -> (r: Vec<ProbeResult>)
    requires
        roots_relative(host.roots@),
        is_relative_piece(host.shared_root@),
    ensures
        r@.len() == 6,
        state_root_answer(r@[0], host.home, host.state_written),
        skill_roots_answer(r@[1], host.home, host.roots@),
        skill_gate_answer(
            r@[2],
            host.home,
            host.shared_root@,
            host.shared_symlink,
            host.shared@,
            host.record@,
        ),
        skill_payload_answer(r@[3], host.home, host.payload, host.record@, host.version@),
        tool_answer(r@[4], "git"@, "git"@, git_label(), seq!["--version"@], host.git),
        tool_answer(
            r@[5],
            "pre-commit"@,
            "pre-commit"@,
            pre_commit_label(),
            seq!["--version"@],
            host.pre_commit,
        ),
{
    let mut args: Vec<String> = Vec::new();
    args.push(owned("--version"));
    assert(views_of(args@) =~= seq!["--version"@]);
    let mut r: Vec<ProbeResult> = Vec::new();
    r.push(state_root(&host.home, &host.state_written));
    r.push(skill_roots(&host.home, &host.roots));
    r.push(
        skill_gate(
            &host.home,
            host.shared_root.as_str(),
            &host.shared_symlink,
            &host.shared,
            &host.record,
        ),
    );
    r.push(skill_payload(&host.home, &host.payload, &host.record, host.version.as_str()));
    r.push(
        tool(
            "git",
            "git",
            "git; retiring a migrated document is safe only where version control restores it",
            &args,
            host.git,
        ),
    );
    r.push(
        tool(
            "pre-commit",
            "pre-commit",
            "pre-commit; the delivered gates run through it",
            &args,
            host.pre_commit,
        ),
    );
    r
}

} // verus!
