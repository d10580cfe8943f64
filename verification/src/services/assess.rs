//! Classify a target repository before anything lands.
//!
//! The assessment is read-only evidence plus one classification computed
//! from it by an explicit rule: `greenfield` when the project has written
//! no durable documentation beyond root metadata, `brownfield` when a
//! documentation root or a methodology marker shows a settled corpus, and
//! `needs-decision` when documents sit outside any recognized home. The
//! command layer walks the tree and looks for each marker; the rule and
//! what counts as what live here.

use vstd::prelude::*;

use crate::plan::operation::{components_of, path_components, PartModel, PathPart};
use crate::self_depend::registry::ascii_lower;
use crate::text::{append, owned, views_of};

verus! {

/// What the target is, for routing.
#[derive(Debug, Clone, Copy, PartialEq, Eq, Structural)]
pub enum Classification {
    /// No durable documentation beyond root metadata: land an instance.
    Greenfield,
    /// A settled corpus or a methodology marker: migrate, not just land.
    Brownfield,
    /// Documents outside any recognized home: the operator decides.
    NeedsDecision,
}

/// The verdict word.
pub open spec fn verdict_word(c: Classification) -> Seq<char> {
    match c {
        Classification::Greenfield => "greenfield"@,
        Classification::Brownfield => "brownfield"@,
        Classification::NeedsDecision => "needs-decision"@,
    }
}

impl Classification {
    /// The kebab-case verdict word.
    pub fn as_str(self) -> (s: &'static str)
        ensures
            s@ == verdict_word(self),
    {
        match self {
            Classification::Greenfield => "greenfield",
            Classification::Brownfield => "brownfield",
            Classification::NeedsDecision => "needs-decision",
        }
    }
}

/// The directory names a documentation corpus conventionally lives under.
pub open spec fn doc_root_names() -> Seq<Seq<char>> {
    seq!["docs"@, "_docs"@, "doc"@, "documentation"@]
}

/// The directory names a documentation corpus conventionally lives under.
pub fn doc_roots() -> (r: Vec<&'static str>)
    ensures
        r@.map_values(|s: &str| s@) == doc_root_names(),
{
    let r = vec!["docs", "_docs", "doc", "documentation"];
    assert(r@.map_values(|s: &str| s@) =~= doc_root_names());
    r
}

/// Root-level entries that mark an existing documentation methodology.
pub open spec fn root_marker_names() -> Seq<Seq<char>> {
    seq![
        "specs"@,
        "decisions"@,
        "adr"@,
        "adrs"@,
        "mkdocs.yml"@,
        "docusaurus.config.js"@,
        "docusaurus.config.ts"@,
        "conf.py"@,
    ]
}

/// The zones under a documentation root that mark a methodology.
pub open spec fn zone_names() -> Seq<Seq<char>> {
    seq!["specs"@, "decisions"@, "adr"@, "adrs"@, "conf.py"@]
}

/// Extensions a durable document conventionally carries.
pub open spec fn document_extensions() -> Seq<Seq<char>> {
    seq!["md"@, "markdown"@, "adoc"@, "rst"@, "org"@]
}

/// Root-level file stems that are metadata, not a documentation corpus.
pub open spec fn metadata_stems() -> Seq<Seq<char>> {
    seq![
        "readme"@,
        "license"@,
        "licence"@,
        "contributing"@,
        "changelog"@,
        "agents"@,
        "code_of_conduct"@,
    ]
}

/// The paths whose presence marks a methodology, in the order they are
/// looked for: each root marker, then each zone under each documentation
/// root found.
pub open spec fn marker_paths(doc_roots: Seq<Seq<char>>) -> Seq<Seq<char>>
    decreases doc_roots.len(),
{
    if doc_roots.len() == 0 {
        root_marker_names()
    } else {
        marker_paths(doc_roots.drop_last()) + zone_names().map_values(
            |z: Seq<char>| doc_roots.last() + "/"@ + z,
        )
    }
}

/// The paths whose presence marks a methodology.
pub fn marker_candidates(doc_roots: &Vec<String>) -> (r: Vec<String>)
    ensures
        views_of(r@) == marker_paths(views_of(doc_roots@)),
{
    let markers: Vec<&str> = vec![
        "specs",
        "decisions",
        "adr",
        "adrs",
        "mkdocs.yml",
        "docusaurus.config.js",
        "docusaurus.config.ts",
        "conf.py",
    ];
    let zones: Vec<&str> = vec!["specs", "decisions", "adr", "adrs", "conf.py"];
    assert(markers@.map_values(|s: &str| s@) =~= root_marker_names());
    assert(zones@.map_values(|s: &str| s@) =~= zone_names());
    let mut r: Vec<String> = Vec::new();
    let mut i: usize = 0;
    while i < markers.len()
        invariant
            i <= markers.len(),
            markers@.map_values(|s: &str| s@) == root_marker_names(),
            views_of(r@) == root_marker_names().take(i as int),
        decreases markers.len() - i,
    {
        let ghost before = views_of(r@);
        r.push(owned(markers[i]));
        assert(views_of(r@) =~= before.push(markers@[i as int]@));
        assert(root_marker_names().take(i + 1) =~= root_marker_names().take(i as int).push(
            markers@.map_values(|s: &str| s@)[i as int],
        ));
        i += 1;
    }
    assert(root_marker_names().take(8) =~= root_marker_names());
    let ghost roots = views_of(doc_roots@);
    let mut k: usize = 0;
    while k < doc_roots.len()
        invariant
            k <= doc_roots.len(),
            roots == views_of(doc_roots@),
            zones@.map_values(|s: &str| s@) == zone_names(),
            views_of(r@) == marker_paths(roots.take(k as int)),
        decreases doc_roots.len() - k,
    {
        assert(roots.take(k + 1).drop_last() =~= roots.take(k as int));
        assert(roots.take(k + 1).last() == doc_roots@[k as int]@);
        let ghost base = views_of(r@);
        let mut z: usize = 0;
        while z < zones.len()
            invariant
                z <= zones.len(),
                k < doc_roots.len(),
                zones@.map_values(|s: &str| s@) == zone_names(),
                views_of(r@) == base + zone_names().take(z as int).map_values(
                    |n: Seq<char>| doc_roots@[k as int]@ + "/"@ + n,
                ),
            decreases zones.len() - z,
        {
            let mut p = owned(doc_roots[k].as_str());
            append(&mut p, "/");
            append(&mut p, zones[z]);
            let ghost before = views_of(r@);
            r.push(p);
            assert(views_of(r@) =~= before.push(p@));
            assert(zone_names().take(z + 1) =~= zone_names().take(z as int).push(
                zones@.map_values(|s: &str| s@)[z as int],
            ));
            z += 1;
        }
        assert(zone_names().take(5) =~= zone_names());
        k += 1;
    }
    assert(roots.take(doc_roots.len() as int) =~= roots);
    r
}

/// Where the last `.` of a name stands, where it has one.
pub open spec fn last_dot(name: Seq<char>) -> Option<int>
    decreases name.len(),
{
    if name.len() == 0 {
        None
    } else if name.last() == '.' {
        Some(name.len() - 1)
    } else {
        last_dot(name.drop_last())
    }
}

/// A file name's stem and extension, as `Path::file_stem` and
/// `Path::extension` split it: at the last `.`, unless that is the first
/// character, where the whole name is the stem.
pub open spec fn split_name(name: Seq<char>) -> (Seq<char>, Option<Seq<char>>) {
    if name == ".."@ {
        (name, None)
    } else {
        match last_dot(name) {
            Some(i) => if i > 0 {
                (name.take(i), Some(name.skip(i + 1)))
            } else {
                (name, None)
            },
            None => (name, None),
        }
    }
}

/// The name of the last component of a path, where it is an ordinary one.
pub open spec fn file_name_of(path: Seq<char>) -> Option<Seq<char>> {
    let parts = path_components(path);
    if parts.len() > 0 {
        match parts.last() {
            PartModel::Normal(name) => Some(name),
            _ => None,
        }
    } else {
        None
    }
}

/// Whether a path is root-level project metadata rather than a corpus:
/// a single component whose stem, in lower case, is an exact metadata
/// stem. `README.architecture.md` is a document wearing a metadata
/// prefix.
pub open spec fn root_metadata(path: Seq<char>) -> bool {
    path_components(path).len() == 1 && match file_name_of(path) {
        Some(name) => metadata_stems().contains(ascii_lower(split_name(name).0)),
        None => false,
    }
}

/// Whether a walked file is a durable document: its extension, in any
/// case, is a document extension.
pub open spec fn document(path: Seq<char>) -> bool {
    match file_name_of(path) {
        Some(name) => match split_name(name).1 {
            Some(ext) => document_extensions().contains(ascii_lower(ext)),
            None => false,
        },
        None => false,
    }
}

/// The verdict the evidence produces.
pub open spec fn verdict(populated_roots: nat, markers: nat, documents: Seq<Seq<char>>) -> Classification {
    if populated_roots > 0 || markers > 0 {
        Classification::Brownfield
    } else if exists|i: int| 0 <= i < documents.len() && !root_metadata(#[trigger] documents[i]) {
        Classification::NeedsDecision
    } else {
        Classification::Greenfield
    }
}

/// A text with ASCII letters in lower case.
fn lower(v: &Vec<char>, from: usize, to: usize) -> (r: Vec<char>)
    requires
        from <= to <= v.len(),
    ensures
        r@ == ascii_lower(v@.subrange(from as int, to as int)),
{
    let mut r: Vec<char> = Vec::new();
    let mut i = from;
    while i < to
        invariant
            from <= i <= to <= v.len(),
            r@ == ascii_lower(v@.subrange(from as int, i as int)),
        decreases to - i,
    {
        let c = v[i];
        let d = if 'A' <= c && c <= 'Z' { ((c as u32) + 32) as u8 as char } else { c };
        proof {
            if 'A' <= c <= 'Z' {
                assert(((c as u32) + 32) as u8 as char == ((c as u32) + 32) as char);
            }
        }
        r.push(d);
        assert(ascii_lower(v@.subrange(from as int, i + 1)) =~= ascii_lower(v@.subrange(from as int, i as int)).push(d));
        i += 1;
    }
    r
}

/// Where the last `.` of a name stands.
fn find_last_dot(v: &Vec<char>) -> (r: Option<usize>)
    ensures
        r matches Some(x) ==> last_dot(v@) == Some(x as int) && x < v@.len(),
        r is None ==> last_dot(v@) is None,
{
    let mut k = v.len();
    assert(v@.take(v.len() as int) =~= v@);
    while k > 0
        invariant
            k <= v.len(),
            last_dot(v@) == last_dot(v@.take(k as int)),
        decreases k,
    {
        assert(v@.take(k as int).last() == v@[k - 1]);
        assert(v@.take(k as int).drop_last() =~= v@.take(k - 1));
        if v[k - 1] == '.' {
            return Some(k - 1);
        }
        k -= 1;
    }
    assert(v@.take(0) =~= Seq::<char>::empty());
    None
}

/// Whether a text is one of the texts.
fn among(texts: &Vec<&str>, t: &Vec<char>) -> (r: bool)
    ensures
        r == texts@.map_values(|s: &str| s@).contains(t@),
{
    let ghost all = texts@.map_values(|s: &str| s@);
    let mut i: usize = 0;
    while i < texts.len()
        invariant
            i <= texts.len(),
            all == texts@.map_values(|s: &str| s@),
            forall|j: int| 0 <= j < i ==> all[j] != t@,
        decreases texts.len() - i,
    {
        if crate::text::same_chars(&crate::text::chars_of(texts[i]), t) {
            assert(all[i as int] == t@);
            return true;
        }
        i += 1;
    }
    false
}

/// A path's last component, where it is an ordinary one, and how many
/// components it has.
fn last_name(path: &str) -> (r: (Option<Vec<char>>, usize))
    ensures
        r.1 == path_components(path@).len(),
        match file_name_of(path@) {
            Some(n) => r.0 matches Some(v) && v@ == n,
            None => r.0 is None,
        },
{
    let parts = components_of(path);
    let ghost pm = parts@.map_values(|p: PathPart| p@);
    let n = parts.len();
    if n == 0 {
        return (None, 0);
    }
    assert(pm.last() == parts@[n - 1]@);
    match &parts[n - 1] {
        PathPart::Normal(name) => (Some(crate::text::chars_of(name.as_str())), n),
        _ => (None, n),
    }
}

/// Whether a path is root-level project metadata rather than a corpus.
pub fn is_root_metadata(path: &str) -> (r: bool)
    ensures
        r == root_metadata(path@),
{
    proof {
        reveal_strlit("..");
    }
    let (name, count) = last_name(path);
    if count != 1 {
        return false;
    }
    let name = match name {
        Some(v) => v,
        None => {
            return false;
        },
    };
    let stems: Vec<&str> = vec![
        "readme",
        "license",
        "licence",
        "contributing",
        "changelog",
        "agents",
        "code_of_conduct",
    ];
    assert(stems@.map_values(|s: &str| s@) =~= metadata_stems());
    let dotdot = crate::text::same_chars(&name, &crate::text::chars_of(".."));
    let stem_end = if dotdot {
        name.len()
    } else {
        match find_last_dot(&name) {
            Some(i) => if i > 0 {
                i
            } else {
                name.len()
            },
            None => name.len(),
        }
    };
    assert(name@.subrange(0, name@.len() as int) =~= name@);
    assert(stem_end < name.len() ==> name@.subrange(0, stem_end as int) =~= name@.take(stem_end as int));
    let stem = lower(&name, 0, stem_end);
    among(&stems, &stem)
}

/// Whether a walked file is a durable document.
pub fn is_document(path: &str) -> (r: bool)
    ensures
        r == document(path@),
{
    proof {
        reveal_strlit("..");
    }
    let (name, _) = last_name(path);
    let name = match name {
        Some(v) => v,
        None => {
            return false;
        },
    };
    if crate::text::same_chars(&name, &crate::text::chars_of("..")) {
        return false;
    }
    let i = match find_last_dot(&name) {
        Some(i) => i,
        None => {
            return false;
        },
    };
    if i == 0 {
        return false;
    }
    let n = name.len();
    assert(i < n);
    assert(name@.subrange(i + 1, name@.len() as int) =~= name@.skip(i + 1));
    let ext = lower(&name, i + 1, name.len());
    let known: Vec<&str> = vec!["md", "markdown", "adoc", "rst", "org"];
    assert(known@.map_values(|s: &str| s@) =~= document_extensions());
    among(&known, &ext)
}

/// The verdict the evidence produces: brownfield where a populated
/// documentation root or a methodology marker was found, needs-decision
/// where a document beyond root metadata was, greenfield otherwise.
pub fn classify(populated_roots: usize, markers: usize, documents: &Vec<String>) -> (c: Classification)
    ensures
        c == verdict(populated_roots as nat, markers as nat, views_of(documents@)),
{
    if populated_roots > 0 || markers > 0 {
        return Classification::Brownfield;
    }
    let mut i: usize = 0;
    while i < documents.len()
        invariant
            i <= documents.len(),
            populated_roots == 0 && markers == 0,
            forall|j: int| 0 <= j < i ==> root_metadata(#[trigger] views_of(documents@)[j]),
        decreases documents.len() - i,
    {
        if !is_root_metadata(documents[i].as_str()) {
            assert(!root_metadata(views_of(documents@)[i as int]));
            return Classification::NeedsDecision;
        }
        i += 1;
    }
    Classification::Greenfield
}

/// How a path component is spelled.
pub open spec fn part_text(p: PartModel) -> Seq<char> {
    match p {
        PartModel::Root => "/"@,
        PartModel::Current => "."@,
        PartModel::Parent => ".."@,
        PartModel::Normal(n) => n,
    }
}

/// The top-level directory a walked entry shows to hold something: its
/// first component, where a second follows.
pub open spec fn populated_root_of(relative: Seq<char>) -> Option<Seq<char>> {
    let parts = path_components(relative);
    if parts.len() >= 2 {
        Some(part_text(parts[0]))
    } else {
        None
    }
}

/// The top-level directory a walked entry shows to hold something.
pub fn populated_root(relative: &str) -> (r: Option<String>)
    ensures
        match populated_root_of(relative@) {
            Some(t) => r matches Some(s) && s@ == t,
            None => r is None,
        },
{
    let parts = components_of(relative);
    if parts.len() < 2 {
        return None;
    }
    assert(parts@.map_values(|p: PathPart| p@)[0] == parts@[0]@);
    match &parts[0] {
        PathPart::Root => Some(owned("/")),
        PathPart::Current => Some(owned(".")),
        PathPart::Parent => Some(owned("..")),
        PathPart::Normal(n) => Some(owned(n.as_str())),
    }
}

} // verus!
