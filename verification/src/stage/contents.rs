//! What a stage holds: the candidate's destinations under `artifacts/`,
//! the installed version's reference material under `reference/`, and
//! what the receipt lists of both. Writing the files and the receipt is
//! the command layer's.

use vstd::prelude::*;

use crate::text::{append, copy_bytes, owned};

verus! {

/// Where the candidate's own destinations are rendered.
pub const ARTIFACTS_DIR: &'static str = "artifacts";

/// Where the installed version's reference material is copied.
pub const REFERENCE_DIR: &'static str = "reference";

/// The payload roots a stage carries as reference material: every root
/// an adopting project reads while it migrates.
pub fn reference_roots() -> (r: Vec<&'static str>)
    ensures
        r@.map_values(|s: &str| s@) == seq![
            "method"@,
            "templates"@,
            "_docs/specs"@,
            "instance"@,
            "comparison-docs"@,
            "reference/prior-art"@,
            "reference/tracker-markup"@,
            ".markdownlint"@,
        ],
{
    let r = vec![
        "method",
        "templates",
        "_docs/specs",
        "instance",
        "comparison-docs",
        "reference/prior-art",
        "reference/tracker-markup",
        ".markdownlint",
    ];
    assert(r@.map_values(|s: &str| s@) =~= seq![
        "method"@,
        "templates"@,
        "_docs/specs"@,
        "instance"@,
        "comparison-docs"@,
        "reference/prior-art"@,
        "reference/tracker-markup"@,
        ".markdownlint"@,
    ]);
    r
}

/// Who owns a destination's bytes after a landing.
#[derive(Debug, Clone, Copy, PartialEq, Eq, Structural)]
pub enum Ownership {
    /// The canon keeps owning it.
    Managed,
    /// The project owns it once seeded.
    Adopted,
    /// The project owns the file and the canon one region of it.
    Integration,
}

/// Whether the candidate carries a whole file or one region of it.
#[derive(Debug, Clone, Copy, PartialEq, Eq, Structural)]
pub enum Placement {
    /// The whole file.
    WholeFile,
    /// One marked region.
    MarkedRegion,
}

/// The word an ownership is written as.
pub open spec fn ownership_word(o: Ownership) -> Seq<char> {
    match o {
        Ownership::Managed => "managed"@,
        Ownership::Adopted => "adopted"@,
        Ownership::Integration => "integration"@,
    }
}

/// The word a placement is written as.
pub open spec fn placement_word(p: Placement) -> Seq<char> {
    match p {
        Placement::WholeFile => "whole-file"@,
        Placement::MarkedRegion => "marked-region"@,
    }
}

/// One destination of a candidate.
#[derive(Debug)]
pub struct Destination {
    /// Where, relative to the target.
    pub path: String,
    /// Its bytes.
    pub bytes: Vec<u8>,
    /// Who owns it after a landing.
    pub ownership: Ownership,
    /// Whether the file or one region of it.
    pub placement: Placement,
}

/// One artifact the receipt lists, and what a landing would do with it.
#[derive(Debug)]
pub struct StageArtifact {
    /// The destination, relative to the target.
    pub path: String,
    /// Who owns the bytes after a landing.
    pub ownership: String,
    /// Whether the candidate carries the file or one region of it.
    pub placement: String,
}

/// A named group of files: a skill package or a reference root, with its
/// files by path.
pub type Group = (String, Vec<(String, Vec<u8>)>);

/// What a stage holds: each file by its path in the stage, the artifacts
/// the receipt lists, and the reference material it copied.
pub struct Contents {
    /// Each file by its path relative to the stage, in writing order.
    pub files: Vec<(String, Vec<u8>)>,
    /// The artifacts, destinations first and the record last.
    pub artifacts: Vec<StageArtifact>,
    /// The reference material, relative to the stage.
    pub reference: Vec<String>,
}

/// A file as plain values.
pub open spec fn file_view(f: (String, Vec<u8>)) -> (Seq<char>, Seq<u8>) {
    (f.0@, f.1@)
}

/// An artifact as plain values.
pub open spec fn artifact_view(a: StageArtifact) -> (Seq<char>, Seq<char>, Seq<char>) {
    (a.path@, a.ownership@, a.placement@)
}

/// The files of a group, each under `prefix`.
pub open spec fn group_writes(prefix: Seq<char>, files: Seq<(String, Vec<u8>)>) -> Seq<(Seq<char>, Seq<u8>)> {
    files.map_values(|f: (String, Vec<u8>)| (prefix + f.0@, f.1@))
}

/// The skill packages' files, each under `reference/skills/<name>/`.
pub open spec fn skill_writes(skills: Seq<Group>) -> Seq<(Seq<char>, Seq<u8>)>
    decreases skills.len(),
{
    if skills.len() == 0 {
        Seq::empty()
    } else {
        skill_writes(skills.drop_last()) + group_writes(
            "reference/skills/"@ + skills.last().0@ + "/"@,
            skills.last().1@,
        )
    }
}

/// The reference roots' files, each under `reference/`.
pub open spec fn root_writes(roots: Seq<Group>) -> Seq<(Seq<char>, Seq<u8>)>
    decreases roots.len(),
{
    if roots.len() == 0 {
        Seq::empty()
    } else {
        root_writes(roots.drop_last()) + group_writes("reference/"@, roots.last().1@)
    }
}

/// The reference roots that carried a file, each as `reference/<root>`.
pub open spec fn roots_carried(roots: Seq<Group>) -> Seq<Seq<char>>
    decreases roots.len(),
{
    if roots.len() == 0 {
        Seq::empty()
    } else if roots.last().1@.len() > 0 {
        roots_carried(roots.drop_last()).push("reference/"@ + roots.last().0@)
    } else {
        roots_carried(roots.drop_last())
    }
}

/// Every file a stage holds, relative to the stage, in writing order.
pub open spec fn stage_files(
    destinations: Seq<Destination>,
    record_path: Seq<char>,
    record: Seq<u8>,
    skills: Seq<Group>,
    changelog: Seq<u8>,
    roots: Seq<Group>,
    catalog: Option<Seq<u8>>,
) -> Seq<(Seq<char>, Seq<u8>)> {
    destinations.map_values(|d: Destination| ("artifacts/"@ + d.path@, d.bytes@)) + seq![
        ("artifacts/"@ + record_path, record),
    ] + skill_writes(skills) + seq![("reference/CHANGELOG.md"@, changelog)] + root_writes(roots) + match catalog {
        Some(bytes) => seq![("reference/instance/docs-catalog.toml"@, bytes)],
        None => Seq::empty(),
    }
}

/// The artifacts a receipt lists: each destination with its ownership and
/// placement, then the record.
pub open spec fn stage_artifacts(destinations: Seq<Destination>, record_path: Seq<char>) -> Seq<
    (Seq<char>, Seq<char>, Seq<char>),
> {
    destinations.map_values(
        |d: Destination| (d.path@, ownership_word(d.ownership), placement_word(d.placement)),
    ).push((record_path, "record"@, "whole-file"@))
}

/// The reference material a receipt lists.
pub open spec fn stage_reference(roots: Seq<Group>, catalog: bool) -> Seq<Seq<char>> {
    seq!["reference/skills"@, "reference/CHANGELOG.md"@] + roots_carried(roots) + if catalog {
        seq!["reference/instance/docs-catalog.toml"@]
    } else {
        Seq::empty()
    }
}

fn prefixed(prefix: &str, path: &str) -> (r: String)
    ensures
        r@ == prefix@ + path@,
{
    let mut r = owned(prefix);
    append(&mut r, path);
    r
}

fn push_group(files: &mut Vec<(String, Vec<u8>)>, prefix: &str, group: &Vec<(String, Vec<u8>)>)
    ensures
        final(files)@.map_values(|f: (String, Vec<u8>)| file_view(f)) == old(files)@.map_values(
            |f: (String, Vec<u8>)| file_view(f),
        ) + group_writes(prefix@, group@),
{
    let ghost start = files@.map_values(|f: (String, Vec<u8>)| file_view(f));
    let mut i: usize = 0;
    assert(group_writes(prefix@, group@.take(0)) =~= Seq::<(Seq<char>, Seq<u8>)>::empty());
    assert(files@.map_values(|f: (String, Vec<u8>)| file_view(f)) =~= start + group_writes(prefix@, group@.take(0)));
    while i < group.len()
        invariant
            i <= group.len(),
            files@.map_values(|f: (String, Vec<u8>)| file_view(f)) == start + group_writes(prefix@, group@.take(i as int)),
        decreases group.len() - i,
    {
        let ghost before = files@;
        let path = prefixed(prefix, group[i].0.as_str());
        let bytes = copy_bytes(&group[i].1);
        files.push((path, bytes));
        proof {
            assert(group@.take(i + 1) =~= group@.take(i as int).push(group@[i as int]));
            assert(group_writes(prefix@, group@.take(i + 1)) =~= group_writes(prefix@, group@.take(i as int)).push(
                (prefix@ + group@[i as int].0@, group@[i as int].1@),
            ));
            assert(files@.map_values(|f: (String, Vec<u8>)| file_view(f)) =~= before.map_values(
                |f: (String, Vec<u8>)| file_view(f),
            ).push(file_view(files@.last())));
        }
        i += 1;
    }
    assert(group@.take(group.len() as int) =~= group@);
}

fn ownership_text(o: Ownership) -> (r: String)
    ensures
        r@ == ownership_word(o),
{
    match o {
        Ownership::Managed => owned("managed"),
        Ownership::Adopted => owned("adopted"),
        Ownership::Integration => owned("integration"),
    }
}

fn placement_text(p: Placement) -> (r: String)
    ensures
        r@ == placement_word(p),
{
    match p {
        Placement::WholeFile => owned("whole-file"),
        Placement::MarkedRegion => owned("marked-region"),
    }
}

/// What a stage holds for one candidate: its destinations and its record
/// under `artifacts/`, then the skill packages, the release notes, every
/// reference root's files and the docs catalog under `reference/`; the
/// artifacts the receipt lists; and the reference material copied, a root
/// named only where it carried a file.
pub fn stage_contents(
    destinations: &Vec<Destination>,
    record_path: &str,
    record: &[u8],
    skills: &Vec<Group>,
    changelog: &[u8],
    roots: &Vec<Group>,
    catalog: Option<&[u8]>,
) -> (c: Contents)
    ensures
        c.files@.map_values(|f: (String, Vec<u8>)| file_view(f)) == stage_files(
            destinations@,
            record_path@,
            record@,
            skills@,
            changelog@,
            roots@,
            match catalog {
                Some(b) => Some(b@),
                None => None,
            },
        ),
        c.artifacts@.map_values(|a: StageArtifact| artifact_view(a)) == stage_artifacts(destinations@, record_path@),
        c.reference@.map_values(|r: String| r@) == stage_reference(roots@, catalog is Some),
{
    let mut files: Vec<(String, Vec<u8>)> = Vec::new();
    let mut artifacts: Vec<StageArtifact> = Vec::new();
    let ghost dest_writes = destinations@.map_values(|d: Destination| ("artifacts/"@ + d.path@, d.bytes@));
    let ghost dest_listed = destinations@.map_values(
        |d: Destination| (d.path@, ownership_word(d.ownership), placement_word(d.placement)),
    );
    let mut i: usize = 0;
    assert(files@.map_values(|f: (String, Vec<u8>)| file_view(f)) =~= dest_writes.take(0));
    assert(artifacts@.map_values(|a: StageArtifact| artifact_view(a)) =~= dest_listed.take(0));
    while i < destinations.len()
        invariant
            i <= destinations.len(),
            dest_writes == destinations@.map_values(|d: Destination| ("artifacts/"@ + d.path@, d.bytes@)),
            dest_listed == destinations@.map_values(
                |d: Destination| (d.path@, ownership_word(d.ownership), placement_word(d.placement)),
            ),
            files@.map_values(|f: (String, Vec<u8>)| file_view(f)) == dest_writes.take(i as int),
            artifacts@.map_values(|a: StageArtifact| artifact_view(a)) == dest_listed.take(i as int),
        decreases destinations.len() - i,
    {
        let d = &destinations[i];
        let ghost fb = files@;
        let ghost ab = artifacts@;
        files.push((prefixed("artifacts/", d.path.as_str()), copy_bytes(&d.bytes)));
        artifacts.push(
            StageArtifact {
                path: owned(d.path.as_str()),
                ownership: ownership_text(d.ownership),
                placement: placement_text(d.placement),
            },
        );
        proof {
            assert(dest_writes.take(i + 1) =~= dest_writes.take(i as int).push(dest_writes[i as int]));
            assert(dest_listed.take(i + 1) =~= dest_listed.take(i as int).push(dest_listed[i as int]));
            assert(files@.map_values(|f: (String, Vec<u8>)| file_view(f)) =~= fb.map_values(
                |f: (String, Vec<u8>)| file_view(f),
            ).push(file_view(files@.last())));
            assert(artifacts@.map_values(|a: StageArtifact| artifact_view(a)) =~= ab.map_values(
                |a: StageArtifact| artifact_view(a),
            ).push(artifact_view(artifacts@.last())));
        }
        i += 1;
    }
    assert(dest_writes.take(destinations.len() as int) =~= dest_writes);
    assert(dest_listed.take(destinations.len() as int) =~= dest_listed);
    let ghost fb = files@;
    files.push((prefixed("artifacts/", record_path), copy_bytes_of(record)));
    let ghost ab = artifacts@;
    artifacts.push(
        StageArtifact { path: owned(record_path), ownership: owned("record"), placement: owned("whole-file") },
    );
    proof {
        assert(files@.map_values(|f: (String, Vec<u8>)| file_view(f)) =~= fb.map_values(
            |f: (String, Vec<u8>)| file_view(f),
        ).push(file_view(files@.last())));
        assert(artifacts@.map_values(|a: StageArtifact| artifact_view(a)) =~= ab.map_values(
            |a: StageArtifact| artifact_view(a),
        ).push(artifact_view(artifacts@.last())));
    }
    let ghost head = files@.map_values(|f: (String, Vec<u8>)| file_view(f));
    let mut k: usize = 0;
    assert(skills@.take(0) =~= Seq::<Group>::empty());
    assert(head + skill_writes(skills@.take(0)) =~= head);
    while k < skills.len()
        invariant
            k <= skills.len(),
            files@.map_values(|f: (String, Vec<u8>)| file_view(f)) == head + skill_writes(skills@.take(k as int)),
        decreases skills.len() - k,
    {
        let mut prefix = owned("reference/skills/");
        append(&mut prefix, skills[k].0.as_str());
        append(&mut prefix, "/");
        push_group(&mut files, prefix.as_str(), &skills[k].1);
        proof {
            let t = skills@.take(k + 1);
            assert(t.drop_last() =~= skills@.take(k as int));
            assert(t.last() == skills@[k as int]);
        }
        k += 1;
    }
    assert(skills@.take(skills.len() as int) =~= skills@);
    let ghost fb = files@;
    files.push((owned("reference/CHANGELOG.md"), copy_bytes_of(changelog)));
    proof {
        assert(files@.map_values(|f: (String, Vec<u8>)| file_view(f)) =~= fb.map_values(
            |f: (String, Vec<u8>)| file_view(f),
        ).push(file_view(files@.last())));
    }
    let mut reference: Vec<String> = Vec::new();
    reference.push(owned("reference/skills"));
    reference.push(owned("reference/CHANGELOG.md"));
    let ghost head2 = files@.map_values(|f: (String, Vec<u8>)| file_view(f));
    let ghost rhead = reference@.map_values(|r: String| r@);
    assert(rhead =~= seq!["reference/skills"@, "reference/CHANGELOG.md"@]);
    let mut j: usize = 0;
    assert(roots@.take(0) =~= Seq::<Group>::empty());
    assert(head2 + root_writes(roots@.take(0)) =~= head2);
    assert(rhead + roots_carried(roots@.take(0)) =~= rhead);
    while j < roots.len()
        invariant
            j <= roots.len(),
            rhead == seq!["reference/skills"@, "reference/CHANGELOG.md"@],
            files@.map_values(|f: (String, Vec<u8>)| file_view(f)) == head2 + root_writes(roots@.take(j as int)),
            reference@.map_values(|r: String| r@) == rhead + roots_carried(roots@.take(j as int)),
        decreases roots.len() - j,
    {
        push_group(&mut files, "reference/", &roots[j].1);
        let ghost rb = reference@;
        if roots[j].1.len() > 0 {
            reference.push(prefixed("reference/", roots[j].0.as_str()));
            proof {
                assert(reference@.map_values(|r: String| r@) =~= rb.map_values(|r: String| r@).push(
                    reference@.last()@,
                ));
            }
        }
        proof {
            let t = roots@.take(j + 1);
            assert(t.drop_last() =~= roots@.take(j as int));
            assert(t.last() == roots@[j as int]);
        }
        j += 1;
    }
    assert(roots@.take(roots.len() as int) =~= roots@);
    match catalog {
        Some(bytes) => {
            let ghost fb = files@;
            files.push((owned("reference/instance/docs-catalog.toml"), copy_bytes_of(bytes)));
            let ghost rb = reference@;
            reference.push(owned("reference/instance/docs-catalog.toml"));
            proof {
                assert(files@.map_values(|f: (String, Vec<u8>)| file_view(f)) =~= fb.map_values(
                    |f: (String, Vec<u8>)| file_view(f),
                ).push(file_view(files@.last())));
                assert(reference@.map_values(|r: String| r@) =~= rb.map_values(|r: String| r@).push(
                    reference@.last()@,
                ));
            }
        },
        None => {},
    }
    Contents { files, artifacts, reference }
}

fn copy_bytes_of(bytes: &[u8]) -> (r: Vec<u8>)
    ensures
        r@ == bytes@,
{
    let mut r: Vec<u8> = Vec::new();
    let mut i: usize = 0;
    while i < bytes.len()
        invariant
            i <= bytes.len(),
            r@ == bytes@.take(i as int),
        decreases bytes.len() - i,
    {
        r.push(bytes[i]);
        assert(bytes@.take(i + 1) =~= bytes@.take(i as int).push(bytes@[i as int]));
        i += 1;
    }
    assert(bytes@.take(bytes.len() as int) =~= bytes@);
    r
}

} // verus!
