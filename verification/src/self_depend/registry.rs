//! The registry index this tool reads its own newest release from.
//!
//! The read itself is the command layer's; what is decided here is where
//! the index keeps a crate, which answers are worth asking again, and how
//! an index is configured.

use vstd::prelude::*;

use crate::json_doc::{get, json_read, member, read_json, Json, JsonModel};
use crate::self_depend::pin::{lines, lines_of};
use crate::text::{append, chars_of, owned, push_char, string_of, string_of_all, trim, trim_spec};
use crate::toml_doc::{read_utf8, utf8_refusal};

verus! {

/// The crate this tool distributes itself as.
pub const CRATE_NAME: &'static str = "spec-driven-docs";

/// The sparse index this tool reads.
pub const INDEX_ROOT: &'static str = "https://index.crates.io";

/// The registry index, read over the network.
#[derive(Debug, Clone)]
pub struct Index {
    root: String,
    offline: bool,
}

impl Index {
    /// The public index, online until a caller says otherwise. Whether the
    /// host's offline variable is set is the caller's to read; it passes
    /// the answer to `offline`.
    pub fn new() -> (i: Index)
        ensures
            i.root()@ == INDEX_ROOT@,
            !i.is_offline(),
    {
        Index { root: crate::text::owned(INDEX_ROOT), offline: false }
    }

    /// The root every read goes under.
    pub closed spec fn root(&self) -> String {
        self.root
    }

    /// Whether every read is refused.
    pub closed spec fn is_offline(&self) -> bool {
        self.offline
    }

    /// Refuse every read, for a caller that declared itself offline. Once
    /// offline, an index stays offline.
    pub fn offline(self, offline: bool) -> (i: Index)
        ensures
            i.root() == self.root(),
            i.is_offline() == (self.is_offline() || offline),
    {
        Index { root: self.root, offline: self.offline || offline }
    }

    /// Read another index root, for a test that serves its own; trailing
    /// separators are dropped.
    pub fn with_root(self, root: &str) -> (i: Index)
        ensures
            i.root()@ == crate::self_depend::strip_trailing(root@, "/"@),
            i.is_offline() == self.is_offline(),
    {
        let v = chars_of(root);
        let mut end = v.len();
        proof {
            reveal_strlit("/");
            assert(v@.subrange(0, end as int) =~= v@);
        }
        while end > 0 && v[end - 1] == '/'
            invariant
                end <= v.len(),
                crate::self_depend::strip_trailing(v@, "/"@) == crate::self_depend::strip_trailing(
                    v@.subrange(0, end as int),
                    "/"@,
                ),
            decreases end,
        {
            proof {
                reveal_strlit("/");
                let s = v@.subrange(0, end as int);
                assert(s.subrange(s.len() - 1, s.len() as int) =~= "/"@);
                assert(s.take(s.len() - 1) =~= v@.subrange(0, end - 1));
            }
            end -= 1;
        }
        proof {
            reveal_strlit("/");
            let s = v@.subrange(0, end as int);
            if end > 0 {
                assert(s.subrange(s.len() - 1, s.len() as int) != "/"@) by {
                    assert(s.subrange(s.len() - 1, s.len() as int)[0] == v@[end - 1]);
                }
            }
        }
        Index { root: string_of(&v, 0, end), offline: self.offline }
    }

    /// The root, as written.
    pub fn root_text(&self) -> (r: &str)
        ensures
            r@ == self.root()@,
    {
        self.root.as_str()
    }

    /// Whether every read is refused.
    pub fn refuses_reads(&self) -> (r: bool)
        ensures
            r == self.is_offline(),
    {
        self.offline
    }
}

/// ASCII letters in lower case, everything else as it is.
pub open spec fn ascii_lower(s: Seq<char>) -> Seq<char> {
    s.map_values(|c: char| if 'A' <= c <= 'Z' { ((c as u32) + 32) as char } else { c })
}

/// The sparse index path for a crate name, as the protocol defines it:
/// one, two and three letter names in their own directories, and every
/// longer name under its first two pairs of letters.
pub open spec fn index_path_of(name: Seq<char>) -> Seq<char> {
    let lower = ascii_lower(name);
    if lower.len() == 0 {
        lower
    } else if lower.len() == 1 {
        "1/"@ + lower
    } else if lower.len() == 2 {
        "2/"@ + lower
    } else if lower.len() == 3 {
        "3/"@ + lower.take(1) + "/"@ + lower
    } else {
        lower.take(2) + "/"@ + lower.subrange(2, 4) + "/"@ + lower
    }
}

/// The sparse index path for a crate name, as the protocol defines it.
///
/// A crate name is ASCII, and only ASCII names are taken: the protocol
/// splits a name by its bytes.
pub fn index_path(name: &str) -> (r: String)
    requires
        forall|i: int| 0 <= i < name@.len() ==> (#[trigger] name@[i] as u32) < 128,
    ensures
        r@ == index_path_of(name@),
{
    let v = chars_of(name);
    let mut lower: Vec<char> = Vec::new();
    let mut i: usize = 0;
    while i < v.len()
        invariant
            i <= v.len(),
            v@ == name@,
            lower@ == ascii_lower(v@.take(i as int)),
        decreases v.len() - i,
    {
        let c = v[i];
        let d = if 'A' <= c && c <= 'Z' {
            ((c as u32) + 32) as u8 as char
        } else {
            c
        };
        proof {
            if 'A' <= c <= 'Z' {
                assert(((c as u32) + 32) as u8 as char == ((c as u32) + 32) as char);
            }
        }
        lower.push(d);
        assert(ascii_lower(v@.take(i + 1)) =~= ascii_lower(v@.take(i as int)).push(d));
        i += 1;
    }
    assert(v@.take(i as int) =~= v@);
    let n = lower.len();
    let all = string_of(&lower, 0, n);
    assert(lower@.subrange(0, n as int) =~= lower@);
    if n == 0 {
        return all;
    }
    let mut r = String::new();
    if n == 1 {
        append(&mut r, "1/");
    } else if n == 2 {
        append(&mut r, "2/");
    } else if n == 3 {
        append(&mut r, "3/");
        push_char(&mut r, lower[0]);
        append(&mut r, "/");
        assert(lower@.take(1) =~= seq![lower@[0]]);
    } else {
        push_char(&mut r, lower[0]);
        push_char(&mut r, lower[1]);
        append(&mut r, "/");
        push_char(&mut r, lower[2]);
        push_char(&mut r, lower[3]);
        append(&mut r, "/");
        assert(lower@.take(2) =~= seq![lower@[0], lower@[1]]);
        assert(lower@.subrange(2, 4) =~= seq![lower@[2], lower@[3]]);
    }
    append(&mut r, all.as_str());
    proof {
        assert(r@ =~= index_path_of(name@));
    }
    r
}

/// Whether an answer is worth asking for again: too many requests, or a
/// server error.
pub fn transient(status: u16) -> (r: bool)
    ensures
        r == (status == 429 || (500 <= status && status <= 599)),
{
    status == 429 || (500 <= status && status <= 599)
}

/// The published versions worth offering, in index order: not yanked,
/// read as versions, and not prereleases.
pub open spec fn stable_versions(entries: Seq<(Seq<char>, bool)>) -> Seq<(u64, u64, u64, Seq<char>, Seq<char>)>
    decreases entries.len(),
{
    if entries.len() == 0 {
        Seq::empty()
    } else {
        let before = stable_versions(entries.drop_last());
        let (vers, yanked) = entries.last();
        match crate::self_depend::tag::semver_reading(vers) {
            Some(m) => if !yanked && m.3.len() == 0 {
                before.push(m)
            } else {
                before
            },
            None => before,
        }
    }
}

/// Index entries as the versions they list and their yanked marks.
pub open spec fn listed(entries: Seq<(String, bool)>) -> Seq<(Seq<char>, bool)> {
    entries.map_values(|e: (String, bool)| (e.0@, e.1))
}

/// The greatest of the versions in `semver`'s order, the later of two
/// equal ones, as `Iterator::max` keeps it.
pub open spec fn greatest(ms: Seq<(u64, u64, u64, Seq<char>, Seq<char>)>) -> Option<(u64, u64, u64, Seq<char>, Seq<char>)>
    decreases ms.len(),
{
    if ms.len() == 0 {
        None
    } else {
        match greatest(ms.drop_last()) {
            None => Some(ms.last()),
            Some(best) => if crate::self_depend::tag::semver_lt(ms.last(), best) {
                Some(best)
            } else {
                Some(ms.last())
            },
        }
    }
}

/// The newest stable release among the versions the index lists, each
/// with whether it was yanked; none where the index serves no stable one.
pub fn newest_stable(entries: &Vec<(String, bool)>) -> (r: Option<crate::self_depend::tag::SemVer>)
    ensures
        match greatest(stable_versions(listed(entries@))) {
            Some(m) => r matches Some(v) && crate::self_depend::tag::semver_model(v) == m,
            None => r is None,
        },
{
    let mut best: Option<crate::self_depend::tag::SemVer> = None;
    let mut i: usize = 0;
    while i < entries.len()
        invariant
            i <= entries.len(),
            match greatest(stable_versions(listed(entries@.take(i as int)))) {
                Some(m) => best matches Some(v) && crate::self_depend::tag::semver_model(v) == m,
                None => best is None,
            },
        decreases entries.len() - i,
    {
        assert(listed(entries@.take(i + 1)).drop_last() =~= listed(entries@.take(i as int)));
        assert(listed(entries@.take(i + 1)).last() == (entries@[i as int].0@, entries@[i as int].1));
        let (vers, yanked) = &entries[i];
        let ghost prev = stable_versions(listed(entries@.take(i as int)));
        let ghost next = stable_versions(listed(entries@.take(i + 1)));
        proof {
            match crate::self_depend::tag::semver_reading(vers@) {
                Some(m) => if !*yanked && m.3.len() == 0 {
                    assert(next == prev.push(m));
                    assert(prev.push(m).drop_last() =~= prev);
                } else {
                    assert(next == prev);
                },
                None => {
                    assert(next == prev);
                },
            }
        }
        if !*yanked {
            match crate::self_depend::tag::SemVer::parse(vers.as_str()) {
                Some(v) => {
                    if v.is_release() {
                        let keep = match &best {
                            Some(b) => v.precedes(b),
                            None => false,
                        };
                        if !keep {
                            best = Some(v);
                        }
                    }
                },
                None => {},
            }
        }
        i += 1;
    }
    assert(entries@.take(entries.len() as int) =~= entries@);
    best
}

/// What one index line reads as: the version it lists and whether it was
/// yanked, an absent mark meaning not; or why the line cannot be read.
pub open spec fn index_line(line: Seq<char>) -> Result<(Seq<char>, bool), Seq<char>> {
    match json_read(line) {
        Err(m) => Err(m),
        Ok(v) => match member(v, "vers"@) {
            Some(JsonModel::Text(vers)) => match member(v, "yanked"@) {
                None => Ok((vers, false)),
                Some(JsonModel::Boolean(b)) => Ok((vers, b)),
                Some(_) => Err("the yanked mark is not a boolean"@),
            },
            _ => Err("the line names no version"@),
        },
    }
}

/// The entries an index lists, blank lines skipped; or why the first line
/// that cannot be read cannot be.
pub open spec fn index_entries(lines: Seq<Seq<char>>) -> Result<Seq<(Seq<char>, bool)>, Seq<char>>
    decreases lines.len(),
{
    if lines.len() == 0 {
        Ok(Seq::empty())
    } else {
        match index_entries(lines.drop_last()) {
            Err(m) => Err(m),
            Ok(before) => if trim_spec(lines.last()).len() == 0 {
                Ok(before)
            } else {
                match index_line(lines.last()) {
                    Err(why) => Err(why),
                    Ok(e) => Ok(before.push(e)),
                }
            },
        }
    }
}

/// The newest stable release an index lists, read from the bytes served
/// at `source`; or why there is none.
pub open spec fn newest_listed(source: Seq<char>, bytes: Seq<u8>) -> Result<(u64, u64, u64, Seq<char>, Seq<char>), Seq<char>> {
    if !vstd::utf8::valid_utf8(bytes) {
        Err(source + " is not text: "@ + utf8_refusal(bytes))
    } else {
        match index_entries(lines_of(vstd::utf8::decode_utf8(bytes))) {
            Err(why) => Err(source + " carries a line this tool cannot read: "@ + why),
            Ok(es) => match greatest(stable_versions(es)) {
                Some(m) => Ok(m),
                None => Err("the registry serves no stable "@ + CRATE_NAME@),
            },
        }
    }
}

proof fn lemma_entries_refusal_stays(lines: Seq<Seq<char>>, k: int)
    requires
        0 <= k <= lines.len(),
        index_entries(lines.take(k)) is Err,
    ensures
        index_entries(lines) == index_entries(lines.take(k)),
    decreases lines.len(),
{
    if k == lines.len() {
        assert(lines.take(k) =~= lines);
    } else {
        assert(lines.drop_last().take(k) =~= lines.take(k));
        lemma_entries_refusal_stays(lines.drop_last(), k);
    }
}

/// Read one index line.
fn read_index_line(line: &str) -> (r: Result<(String, bool), String>)
    ensures
        match r {
            Ok(e) => index_line(line@) == Ok::<(Seq<char>, bool), Seq<char>>((e.0@, e.1)),
            Err(m) => index_line(line@) == Err::<(Seq<char>, bool), Seq<char>>(m@),
        },
{
    let v = match read_json(line) {
        Ok(v) => v,
        Err(m) => {
            return Err(m);
        },
    };
    match get(&v, "vers") {
        Some(Json::Text(vers)) => {
            let vers = owned(vers.as_str());
            match get(&v, "yanked") {
                None => Ok((vers, false)),
                Some(Json::Boolean(b)) => Ok((vers, *b)),
                Some(_) => Err(owned("the yanked mark is not a boolean")),
            }
        },
        _ => Err(owned("the line names no version")),
    }
}

/// The newest stable release an index lists, read from the bytes served
/// at `source`: each non-blank line a JSON object naming a version under
/// `vers` and, where it was withdrawn, `yanked`. Refused where the bytes
/// are not text, where a line cannot be read, and where no stable release
/// is listed.
pub fn newest_in_index(source: &str, bytes: &[u8]) -> (r: Result<crate::self_depend::tag::SemVer, String>)
    ensures
        match r {
            Ok(v) => newest_listed(source@, bytes@) == Ok::<(u64, u64, u64, Seq<char>, Seq<char>), Seq<char>>(
                crate::self_depend::tag::semver_model(v),
            ),
            Err(m) => newest_listed(source@, bytes@) == Err::<(u64, u64, u64, Seq<char>, Seq<char>), Seq<char>>(m@),
        },
{
    let text = match read_utf8(bytes) {
        Ok(t) => t,
        Err(m) => {
            let mut e = owned(source);
            append(&mut e, " is not text: ");
            append(&mut e, m.as_str());
            return Err(e);
        },
    };
    let ls = lines(text.as_str());
    let ghost lv = lines_of(text@);
    let mut entries: Vec<(String, bool)> = Vec::new();
    let mut i: usize = 0;
    assert(lv.take(0) =~= Seq::<Seq<char>>::empty());
    assert(listed(entries@) =~= Seq::<(Seq<char>, bool)>::empty());
    while i < ls.len()
        invariant
            i <= ls.len(),
            ls@.map_values(|l: Vec<char>| l@) == lv,
            lv == lines_of(text@),
            text@ == vstd::utf8::decode_utf8(bytes@),
            vstd::utf8::valid_utf8(bytes@),
            index_entries(lv.take(i as int)) == Ok::<Seq<(Seq<char>, bool)>, Seq<char>>(listed(entries@)),
        decreases ls.len() - i,
    {
        let ghost t = lv.take(i + 1);
        assert(t.drop_last() =~= lv.take(i as int));
        assert(t.last() == ls@[i as int]@);
        let line = string_of_all(&ls[i]);
        let bare = trim(line.as_str());
        let ghost before = entries@;
        if bare.unicode_len() > 0 {
            match read_index_line(line.as_str()) {
                Ok(e) => {
                    let ghost ev = (e.0@, e.1);
                    entries.push(e);
                    assert(listed(entries@) =~= listed(before).push(ev));
                    assert(index_entries(t) == Ok::<Seq<(Seq<char>, bool)>, Seq<char>>(listed(before).push(ev)));
                },
                Err(why) => {
                    proof {
                        lemma_entries_refusal_stays(lv, i + 1);
                    }
                    let mut m = owned(source);
                    append(&mut m, " carries a line this tool cannot read: ");
                    append(&mut m, why.as_str());
                    return Err(m);
                },
            }
        }
        i += 1;
    }
    assert(lv.take(ls.len() as int) =~= lv);
    match newest_stable(&entries) {
        Some(v) => Ok(v),
        None => {
            let mut m = owned("the registry serves no stable ");
            append(&mut m, CRATE_NAME);
            Err(m)
        },
    }
}

} // verus!
