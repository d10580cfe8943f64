//! What a plan will do to a target, as a closed set.
//!
//! An operation names digests and never bytes. The bytes live in the
//! plan's blob store, so a plan can be read, printed, and compared without
//! carrying a repository's content around in it, and an apply cannot be
//! handed content the plan never described.
//!
//! There is no operation that runs a command. Every write is a typed write
//! into one validated target-relative path, so what a plan can do is
//! bounded by this enum rather than by what a string happens to say.

use vstd::prelude::*;

use crate::digest::Sha256;
use crate::text::{append, first_index_from, owned, push_char, same_text};

verus! {

/// One component of a path, as `Path::components` reads it on Unix.
pub enum PathPart {
    /// The leading separator of an absolute path.
    Root,
    /// A `.` at the start of a relative path.
    Current,
    /// A `..`.
    Parent,
    /// Any other component.
    Normal(String),
}

/// The model of a path component.
pub enum PartModel {
    /// See `PathPart::Root`.
    Root,
    /// See `PathPart::Current`.
    Current,
    /// See `PathPart::Parent`.
    Parent,
    /// See `PathPart::Normal`.
    Normal(Seq<char>),
}

impl View for PathPart {
    type V = PartModel;

    open spec fn view(&self) -> PartModel {
        match self {
            PathPart::Root => PartModel::Root,
            PathPart::Current => PartModel::Current,
            PathPart::Parent => PartModel::Parent,
            PathPart::Normal(s) => PartModel::Normal(s@),
        }
    }
}

/// The pieces of a path between its separators, empty ones included.
pub open spec fn split_slash(s: Seq<char>) -> Seq<Seq<char>>
    decreases s.len(),
{
    match first_index_from(s, '/', 0) {
        None => seq![s],
        Some(i) => {
            if 0 <= i < s.len() {
                seq![s.take(i)] + split_slash(s.skip(i + 1))
            } else {
                seq![s]
            }
        },
    }
}

/// Whether a piece names a component: not empty and not `.`.
pub open spec fn names_component(piece: Seq<char>) -> bool {
    piece.len() > 0 && piece != seq!['.']
}

/// The component a named piece stands for.
pub open spec fn part_of(piece: Seq<char>) -> PartModel {
    if piece == seq!['.', '.'] {
        PartModel::Parent
    } else {
        PartModel::Normal(piece)
    }
}

/// The components of a path on Unix: a root for a leading separator, a
/// current-directory component for a leading `.`, then every piece that is
/// neither empty nor `.`, with `..` read as the parent.
pub open spec fn path_components(s: Seq<char>) -> Seq<PartModel> {
    let root: Seq<PartModel> = if s.len() > 0 && s[0] == '/' {
        seq![PartModel::Root]
    } else {
        Seq::empty()
    };
    let current: Seq<PartModel> = if s == seq!['.'] || (s.len() >= 2 && s[0] == '.' && s[1]
        == '/') {
        seq![PartModel::Current]
    } else {
        Seq::empty()
    };
    root + current + split_slash(s).filter(|p: Seq<char>| names_component(p)).map_values(
        |p: Seq<char>| part_of(p),
    )
}

/// The components of a path, read by `camino::Utf8Path::components`.
///
/// Trusted: the standard library documents that repeated separators and a
/// trailing separator are ignored, that `.` is normalized away except at
/// the start of a relative path, and that a leading separator is the root;
/// `path_components` is that statement.
#[verifier::external_body]
pub(crate) fn components_of(value: &str) -> (parts: Vec<PathPart>)
    ensures
        parts@.map_values(|p: PathPart| p@) == path_components(value@),
{
    camino::Utf8Path::new(value).components().map(|c| match c {
        camino::Utf8Component::RootDir => PathPart::Root,
        camino::Utf8Component::CurDir => PathPart::Current,
        camino::Utf8Component::ParentDir => PathPart::Parent,
        camino::Utf8Component::Normal(part) => PathPart::Normal(part.to_string()),
        camino::Utf8Component::Prefix(_) => PathPart::Root,
    }).collect()
}

/// A path an operation may name: relative, inside the target, and ordinary.
#[derive(Debug, Clone, PartialEq, Eq, PartialOrd, Ord, Hash)]
pub struct TargetPath {
    text: String,
}

/// A path no operation may name.
#[derive(Debug, Clone, PartialEq, Eq)]
pub struct TargetPathError {
    text: String,
}

impl TargetPathError {
    /// What was refused and why.
    pub fn message(&self) -> (m: &str)
        ensures
            m@ == self@,
    {
        self.text.as_str()
    }
}

impl View for TargetPathError {
    type V = Seq<char>;

    closed spec fn view(&self) -> Seq<char> {
        self.text@
    }
}

impl View for TargetPath {
    type V = Seq<char>;

    closed spec fn view(&self) -> Seq<char> {
        self.text@
    }
}

/// The normal components of a path, joined by single separators.
pub open spec fn joined_parts(parts: Seq<PartModel>) -> Seq<char>
    decreases parts.len(),
{
    if parts.len() == 0 {
        Seq::empty()
    } else {
        let head = joined_parts(parts.drop_last());
        match parts.last() {
            PartModel::Normal(p) => if head.len() == 0 {
                p
            } else {
                head + seq!['/'] + p
            },
            _ => head,
        }
    }
}

/// Why a value is refused as a target path, where it is.
pub open spec fn target_path_refusal(value: Seq<char>) -> Option<Seq<char>> {
    let parts = path_components(value);
    if value.len() == 0 {
        Some("the path is empty"@)
    } else if value.contains('\0') {
        Some("the path carries a NUL"@)
    } else if parts.contains(PartModel::Root) {
        Some("the path is absolute"@)
    } else if parts.contains(PartModel::Parent) {
        Some("the path climbs out of the target"@)
    } else if joined_parts(parts).len() == 0 {
        Some("the path names no file"@)
    } else if value.last() == '/' {
        Some("the path ends in a separator"@)
    } else {
        None
    }
}

fn holds_nul(value: &str) -> (r: bool)
    ensures
        r == value@.contains('\0'),
{
    let v = crate::text::chars_of(value);
    let mut i: usize = 0;
    while i < v.len()
        invariant
            i <= v.len(),
            v@ == value@,
            forall|j: int| 0 <= j < i ==> v@[j] != '\0',
        decreases v.len() - i,
    {
        if v[i] == '\0' {
            return true;
        }
        i += 1;
    }
    false
}

fn refuse(value: &str, why: &str) -> (e: TargetPathError)
    ensures
        e@ == value@ + ": "@ + why@,
{
    let mut text = owned(value);
    append(&mut text, ": ");
    append(&mut text, why);
    TargetPathError { text }
}

impl TargetPath {
    /// Validate one target-relative path.
    ///
    /// Refused: an empty path, one carrying a NUL, an absolute path, a path
    /// that climbs out, one that names no file, and one with a trailing
    /// separator. Repeated separators and `.` components are normalized
    /// away. A plan that could
    /// name any of the refused ones is a plan whose reach the type no
    /// longer bounds.
    pub fn new(value: &str) -> (r: Result<TargetPath, TargetPathError>)
        ensures
            match r {
                Ok(p) => target_path_refusal(value@) is None && p@ == joined_parts(
                    path_components(value@),
                ),
                Err(e) => target_path_refusal(value@) matches Some(why) && e@ == value@ + ": "@
                    + why,
            },
    {
        let ghost parts_model = path_components(value@);
        if value.unicode_len() == 0 {
            return Err(refuse(value, "the path is empty"));
        }
        if holds_nul(value) {
            return Err(refuse(value, "the path carries a NUL"));
        }
        let parts = components_of(value);
        let mut k: usize = 0;
        let mut normalized = String::new();
        let mut climbs = false;
        assert(parts@.map_values(|p: PathPart| p@).len() == parts@.len());
        while k < parts.len()
            invariant
                k <= parts.len(),
                value@.len() > 0,
                !value@.contains('\0'),
                parts_model == path_components(value@),
                parts@.map_values(|p: PathPart| p@) == parts_model,
                normalized@ == joined_parts(parts_model.take(k as int)),
                climbs == parts_model.take(k as int).contains(PartModel::Parent),
                !parts_model.take(k as int).contains(PartModel::Root),
            decreases parts.len() - k,
        {
            let ghost t = parts_model.take(k + 1);
            assert(t.drop_last() =~= parts_model.take(k as int));
            assert(t.last() == parts@[k as int]@);
            assert(parts_model[k as int] == parts@[k as int]@);
            match &parts[k] {
                PathPart::Root => {
                    assert(parts_model.contains(PartModel::Root));
                    return Err(refuse(value, "the path is absolute"));
                },
                PathPart::Normal(piece) => {
                    if normalized.unicode_len() > 0 {
                        push_char(&mut normalized, '/');
                    }
                    append(&mut normalized, piece.as_str());
                },
                _ => {},
            }
            if matches!(&parts[k], PathPart::Parent) {
                climbs = true;
            }
            proof {
                assert forall|x: PartModel| t.contains(x) <==> (parts_model.take(
                    k as int,
                ).contains(x) || x == t.last()) by {
                    if t.contains(x) {
                        let j = choose|j: int| 0 <= j < t.len() && t[j] == x;
                        if j < k {
                            assert(parts_model.take(k as int)[j] == x);
                        }
                    }
                    if parts_model.take(k as int).contains(x) {
                        let j = choose|j: int| 0 <= j < k && parts_model.take(k as int)[j] == x;
                        assert(t[j] == x);
                    }
                    if x == t.last() {
                        assert(t[k as int] == x);
                    }
                }
            }
            k += 1;
        }
        assert(parts_model.take(k as int) =~= parts_model);
        if climbs {
            return Err(refuse(value, "the path climbs out of the target"));
        }
        if normalized.unicode_len() == 0 {
            return Err(refuse(value, "the path names no file"));
        }
        if value.get_char(value.unicode_len() - 1) == '/' {
            return Err(refuse(value, "the path ends in a separator"));
        }
        Ok(TargetPath { text: normalized })
    }

    /// The path as it is written.
    pub fn as_str(&self) -> (s: &str)
        ensures
            s@ == self@,
    {
        self.text.as_str()
    }

    /// A second path with the same spelling.
    pub fn copied(&self) -> (p: TargetPath)
        ensures
            p@ == self@,
    {
        TargetPath { text: owned(self.text.as_str()) }
    }

    /// Whether two paths are the same.
    pub fn same(&self, other: &TargetPath) -> (r: bool)
        ensures
            r == (self@ == other@),
    {
        same_text(self.text.as_str(), other.text.as_str())
    }
}

/// Who owns a file once it has landed.
#[derive(Debug, Clone, Copy, PartialEq, Eq, Structural)]
pub enum Class {
    /// The canon keeps owning it, byte for byte.
    Managed,
    /// The project owns it from the moment it lands.
    Adopted,
}

/// One typed write a plan will make.
#[derive(Debug, Clone, PartialEq, Eq)]
pub enum Operation {
    /// Put the release's bytes at a destination.
    WriteFile {
        /// Where.
        path: TargetPath,
        /// Who owns it afterwards.
        class: Class,
        /// What the target must still hold, or nothing where it holds none.
        before: Option<Sha256>,
        /// What the target will hold.
        after: Sha256,
    },
    /// Keep the target's own bytes and move the baseline they are read
    /// against: an adopted file, seeded once, then the project's.
    KeepFile {
        /// Where.
        path: TargetPath,
        /// What the target holds and keeps holding.
        held: Sha256,
        /// The baseline the record carries now.
        baseline_before: Sha256,
        /// The baseline the record will carry.
        baseline_after: Sha256,
    },
    /// Replace one marked region inside a file the project owns.
    SpliceBlock {
        /// Where.
        path: TargetPath,
        /// Which marked region.
        marker: String,
        /// The region's current digest, or nothing where it has none.
        before: Option<Sha256>,
        /// The region's digest afterwards.
        after: Sha256,
    },
    /// Take back a file the release no longer owns, and the directory that
    /// removal empties where the canon owns it.
    RemoveOwnedFile {
        /// Where.
        path: TargetPath,
        /// What the target must still hold.
        before: Sha256,
    },
    /// Write the inherited violations the operator asked to record.
    WriteDebt {
        /// Where.
        path: TargetPath,
        /// What the target must still hold, or nothing where it holds none.
        before: Option<Sha256>,
        /// What the target will hold.
        after: Sha256,
    },
    /// Write the instance record itself, last.
    WriteRecord {
        /// Where.
        path: TargetPath,
        /// What the target must still hold, or nothing where it holds none.
        before: Option<Sha256>,
        /// What the target will hold.
        after: Sha256,
    },
}

/// Where an operation writes.
pub open spec fn path_of(op: Operation) -> TargetPath {
    match op {
        Operation::WriteFile { path, .. } => path,
        Operation::KeepFile { path, .. } => path,
        Operation::SpliceBlock { path, .. } => path,
        Operation::RemoveOwnedFile { path, .. } => path,
        Operation::WriteDebt { path, .. } => path,
        Operation::WriteRecord { path, .. } => path,
    }
}

/// The kebab-case kind of an operation.
pub open spec fn kind_of(op: Operation) -> Seq<char> {
    match op {
        Operation::WriteFile { .. } => "write-file"@,
        Operation::KeepFile { .. } => "keep-file"@,
        Operation::SpliceBlock { .. } => "splice-block"@,
        Operation::RemoveOwnedFile { .. } => "remove-owned-file"@,
        Operation::WriteDebt { .. } => "write-debt"@,
        Operation::WriteRecord { .. } => "write-record"@,
    }
}

/// What the target must still hold for an operation to be the one the plan
/// described.
pub open spec fn before_of(op: Operation) -> Option<Sha256> {
    match op {
        Operation::WriteFile { before, .. } => before,
        Operation::SpliceBlock { before, .. } => before,
        Operation::WriteDebt { before, .. } => before,
        Operation::WriteRecord { before, .. } => before,
        Operation::RemoveOwnedFile { before, .. } => Some(before),
        Operation::KeepFile { held, .. } => Some(held),
    }
}

/// What the target will hold after an operation, or nothing where the file
/// goes.
pub open spec fn after_of(op: Operation) -> Option<Sha256> {
    match op {
        Operation::WriteFile { after, .. } => Some(after),
        Operation::SpliceBlock { after, .. } => Some(after),
        Operation::WriteDebt { after, .. } => Some(after),
        Operation::WriteRecord { after, .. } => Some(after),
        Operation::KeepFile { held, .. } => Some(held),
        Operation::RemoveOwnedFile { .. } => None,
    }
}

impl Operation {
    /// Where this operation writes.
    pub fn path(&self) -> (p: &TargetPath)
        ensures
            *p == path_of(*self),
    {
        match self {
            Operation::WriteFile { path, .. } => path,
            Operation::KeepFile { path, .. } => path,
            Operation::SpliceBlock { path, .. } => path,
            Operation::RemoveOwnedFile { path, .. } => path,
            Operation::WriteDebt { path, .. } => path,
            Operation::WriteRecord { path, .. } => path,
        }
    }

    /// The kebab-case kind, as the fingerprint and the JSON spell it.
    pub fn kind(&self) -> (k: &'static str)
        ensures
            k@ == kind_of(*self),
    {
        match self {
            Operation::WriteFile { .. } => "write-file",
            Operation::KeepFile { .. } => "keep-file",
            Operation::SpliceBlock { .. } => "splice-block",
            Operation::RemoveOwnedFile { .. } => "remove-owned-file",
            Operation::WriteDebt { .. } => "write-debt",
            Operation::WriteRecord { .. } => "write-record",
        }
    }

    /// What the target must still hold for this operation to be the one
    /// the plan described.
    pub fn before(&self) -> (d: Option<&Sha256>)
        ensures
            d == match before_of(*self) {
                Some(x) => Some(&x),
                None => None::<&Sha256>,
            },
    {
        match self {
            Operation::WriteFile { before, .. } => before.as_ref(),
            Operation::SpliceBlock { before, .. } => before.as_ref(),
            Operation::WriteDebt { before, .. } => before.as_ref(),
            Operation::WriteRecord { before, .. } => before.as_ref(),
            Operation::RemoveOwnedFile { before, .. } => Some(before),
            Operation::KeepFile { held, .. } => Some(held),
        }
    }

    /// What the target will hold, or nothing where the file goes.
    pub fn after(&self) -> (d: Option<&Sha256>)
        ensures
            d == match after_of(*self) {
                Some(x) => Some(&x),
                None => None::<&Sha256>,
            },
    {
        match self {
            Operation::WriteFile { after, .. } => Some(after),
            Operation::SpliceBlock { after, .. } => Some(after),
            Operation::WriteDebt { after, .. } => Some(after),
            Operation::WriteRecord { after, .. } => Some(after),
            Operation::KeepFile { held, .. } => Some(held),
            Operation::RemoveOwnedFile { .. } => None,
        }
    }
}

/// Two operations naming one destination: the path and both kinds.
#[derive(Debug, Clone, PartialEq, Eq)]
pub struct DuplicateDestination {
    /// The destination.
    pub path: TargetPath,
    /// The first operation's kind.
    pub first: &'static str,
    /// The second operation's kind.
    pub second: &'static str,
}

impl DuplicateDestination {
    /// The refusal as a person reads it.
    pub fn message(&self) -> (m: String)
        ensures
            m@ == self.path@ + " is written by two operations, "@ + self.first@ + " and "@
                + self.second@,
    {
        let mut m = owned(self.path.as_str());
        append(&mut m, " is written by two operations, ");
        append(&mut m, self.first);
        append(&mut m, " and ");
        append(&mut m, self.second);
        m
    }
}

/// Two operations at different positions write one destination.
pub open spec fn shares_destination(ops: Seq<Operation>, a: int, b: int) -> bool {
    0 <= a < b < ops.len() && path_of(ops[a])@ == path_of(ops[b])@
}

/// The pair `(a, b)` is the first clash in order: no clash has an earlier
/// first operation, or the same first and an earlier second.
pub open spec fn first_clash(ops: Seq<Operation>, a: int, b: int) -> bool {
    &&& shares_destination(ops, a, b)
    &&& forall|c: int, d: int| #[trigger] shares_destination(ops, c, d) ==> a < c || (a == c && b <= d)
}

/// Two first clashes are one clash.
pub proof fn lemma_first_clash_unique(ops: Seq<Operation>, a: int, b: int, c: int, d: int)
    requires
        first_clash(ops, a, b),
        first_clash(ops, c, d),
    ensures
        a == c && b == d,
{
    assert(shares_destination(ops, c, d));
    assert(shares_destination(ops, a, b));
}

/// Check that no destination is written twice.
///
/// A plan that wrote one destination twice would have an apply order
/// nobody chose. The refusal names the first pair in order.
pub fn no_duplicate_destination(operations: &[Operation]) -> (r: Result<(), DuplicateDestination>)
    ensures
        r is Ok <==> forall|a: int, b: int| !#[trigger] shares_destination(operations@, a, b),
        r matches Err(e) ==> exists|a: int, b: int|
            #![trigger shares_destination(operations@, a, b)]
            {
                &&& first_clash(operations@, a, b)
                &&& e.path@ == path_of(operations@[a])@
                &&& e.first@ == kind_of(operations@[a])
                &&& e.second@ == kind_of(operations@[b])
            },
{
    let mut i: usize = 0;
    while i < operations.len()
        invariant
            i <= operations.len(),
            forall|a: int, b: int| 0 <= a < i ==> !#[trigger] shares_destination(operations@, a, b),
        decreases operations.len() - i,
    {
        let mut j: usize = i + 1;
        while j < operations.len()
            invariant
                i < operations.len(),
                i + 1 <= j <= operations.len(),
                forall|a: int, b: int| 0 <= a < i ==> !#[trigger] shares_destination(operations@, a, b),
                forall|b: int| i < b < j ==> !#[trigger] shares_destination(operations@, i as int, b),
            decreases operations.len() - j,
        {
            if operations[i].path().same(operations[j].path()) {
                let e = DuplicateDestination {
                    path: operations[i].path().copied(),
                    first: operations[i].kind(),
                    second: operations[j].kind(),
                };
                assert(shares_destination(operations@, i as int, j as int));
                assert(first_clash(operations@, i as int, j as int)) by {
                    assert forall|c: int, d: int| #[trigger] shares_destination(operations@, c, d) implies (i
                        < c || (i == c && j <= d)) by {
                        if c < i {
                        } else if c == i && d < j {
                            assert(i < d);
                        }
                    }
                }
                return Err(e);
            }
            j += 1;
        }
        i += 1;
    }
    Ok(())
}

} // verus!
