//! Offline instance verification: what the record, held against the disk,
//! says about an instance.
//!
//! Reading the disk is the command layer's: it reports, for each recorded
//! file, whether it is reached through a link, absent, or holds some
//! bytes, and hands over the managed block and the rule identifiers the
//! local specifications carry. What those observations mean, which lines
//! a report prints and how many of them are failures, is decided here.

use vstd::prelude::*;

use crate::digest::Sha256;
use crate::self_depend::pin::{lines, lines_of, trimmed_start};
use crate::sorted_map::TextMap;
use crate::text::{append, chars_of, has_prefix, owned, split_words, string_of, words};
use crate::version::{version_lt, CanonVersion};

verus! {

/// What a verification run reports.
#[derive(Debug)]
pub struct VerifyReport {
    /// Every line to print, failures and notes alike, in order.
    pub lines: Vec<String>,
    /// How many lines are failures.
    pub failures: usize,
    /// How many managed files are missing, linked, or byte-drifted.
    pub managed_drift: usize,
    /// How many adopted files await reconciliation.
    pub adopted_drift: usize,
}

impl Default for VerifyReport {
    fn default() -> (r: VerifyReport)
        ensures
            r.lines@.len() == 0,
            r.failures == 0,
            r.managed_drift == 0,
            r.adopted_drift == 0,
    {
        VerifyReport { lines: Vec::new(), failures: 0, managed_drift: 0, adopted_drift: 0 }
    }
}

impl VerifyReport {
    /// The printed lines, as text.
    pub open spec fn texts(self) -> Seq<Seq<char>> {
        crate::text::views_of(self.lines@)
    }

    /// Record a failure.
    pub fn fail(&mut self, line: String)
        requires
            old(self).failures < usize::MAX,
        ensures
            final(self).texts() == old(self).texts().push(line@),
            final(self).failures == old(self).failures + 1,
            final(self).managed_drift == old(self).managed_drift,
            final(self).adopted_drift == old(self).adopted_drift,
    {
        self.lines.push(line);
        self.failures = self.failures + 1;
        assert(self.texts() =~= old(self).texts().push(line@));
    }

    /// Record a line that is not a failure.
    pub fn note(&mut self, line: String)
        ensures
            final(self).texts() == old(self).texts().push(line@),
            final(self).failures == old(self).failures,
            final(self).managed_drift == old(self).managed_drift,
            final(self).adopted_drift == old(self).adopted_drift,
    {
        self.lines.push(line);
        assert(self.texts() =~= old(self).texts().push(line@));
    }
}

/// What the disk holds at a recorded destination.
#[derive(Debug)]
pub enum Found {
    /// The destination is reached through a symbolic link.
    ThroughLink,
    /// Nothing is there, or not a file.
    Absent,
    /// A file with this digest.
    Holds(Sha256),
}

/// One recorded file and what the disk holds at its destination.
#[derive(Debug)]
pub struct Checked {
    /// The destination, relative to the target.
    pub destination: String,
    /// The digest the record vouches for.
    pub recorded: Sha256,
    /// What is there now.
    pub found: Found,
}

/// The failure a managed file reports, where it reports one.
pub open spec fn managed_fault(c: Checked) -> Option<Seq<char>> {
    match c.found {
        Found::ThroughLink => Some("FAIL managed file reached through a symlink: "@ + c.destination@),
        Found::Absent => Some("FAIL missing managed file: "@ + c.destination@),
        Found::Holds(d) => if d@ != c.recorded@ {
            Some("FAIL managed drift: "@ + c.destination@)
        } else {
            None
        },
    }
}

/// The failures the managed files report, in record order.
pub open spec fn managed_lines(cs: Seq<Checked>) -> Seq<Seq<char>>
    decreases cs.len(),
{
    if cs.len() == 0 {
        Seq::empty()
    } else {
        match managed_fault(cs.last()) {
            Some(l) => managed_lines(cs.drop_last()).push(l),
            None => managed_lines(cs.drop_last()),
        }
    }
}

/// What an adopted file reports: a failure for a link or an absence, a
/// note for bytes the project changed, nothing for bytes as recorded.
pub enum AdoptedVerdict {
    /// A failure line.
    Fails(Seq<char>),
    /// A drift note.
    Drifts(Seq<char>),
    /// Nothing to say.
    Clean,
}

/// What one adopted file reports.
pub open spec fn adopted_verdict(c: Checked) -> AdoptedVerdict {
    match c.found {
        Found::ThroughLink => AdoptedVerdict::Fails(
            "FAIL adopted file reached through a symlink: "@ + c.destination@,
        ),
        Found::Absent => AdoptedVerdict::Fails("FAIL missing adopted file: "@ + c.destination@),
        Found::Holds(d) => if d@ != c.recorded@ {
            AdoptedVerdict::Drifts("DRIFT adopted file requires reconciliation: "@ + c.destination@)
        } else {
            AdoptedVerdict::Clean
        },
    }
}

/// The lines the adopted files report, in record order.
pub open spec fn adopted_lines(cs: Seq<Checked>) -> Seq<Seq<char>>
    decreases cs.len(),
{
    if cs.len() == 0 {
        Seq::empty()
    } else {
        match adopted_verdict(cs.last()) {
            AdoptedVerdict::Fails(l) => adopted_lines(cs.drop_last()).push(l),
            AdoptedVerdict::Drifts(l) => adopted_lines(cs.drop_last()).push(l),
            AdoptedVerdict::Clean => adopted_lines(cs.drop_last()),
        }
    }
}

/// How many adopted files fail.
pub open spec fn adopted_failures(cs: Seq<Checked>) -> nat
    decreases cs.len(),
{
    if cs.len() == 0 {
        0
    } else {
        adopted_failures(cs.drop_last()) + if adopted_verdict(cs.last()) is Fails {
            1nat
        } else {
            0nat
        }
    }
}

/// How many adopted files drifted.
pub open spec fn adopted_drifts(cs: Seq<Checked>) -> nat
    decreases cs.len(),
{
    if cs.len() == 0 {
        0
    } else {
        adopted_drifts(cs.drop_last()) + if adopted_verdict(cs.last()) is Drifts {
            1nat
        } else {
            0nat
        }
    }
}

proof fn lemma_managed_count(cs: Seq<Checked>)
    ensures
        managed_lines(cs).len() <= cs.len(),
    decreases cs.len(),
{
    if cs.len() > 0 {
        lemma_managed_count(cs.drop_last());
    }
}

proof fn lemma_adopted_count(cs: Seq<Checked>)
    ensures
        adopted_failures(cs) + adopted_drifts(cs) == adopted_lines(cs).len(),
        adopted_lines(cs).len() <= cs.len(),
    decreases cs.len(),
{
    if cs.len() > 0 {
        lemma_adopted_count(cs.drop_last());
    }
}

/// Hold every managed file to the digest the record vouches for: each
/// one linked, absent, or drifted is a failure and counts as drift.
pub fn check_managed(report: &mut VerifyReport, files: &Vec<Checked>)
    requires
        old(report).failures + files@.len() <= usize::MAX,
        old(report).managed_drift + files@.len() <= usize::MAX,
    ensures
        final(report).texts() == old(report).texts() + managed_lines(files@),
        final(report).failures == old(report).failures + managed_lines(files@).len(),
        final(report).managed_drift == old(report).managed_drift + managed_lines(files@).len(),
        final(report).adopted_drift == old(report).adopted_drift,
{
    let mut i: usize = 0;
    while i < files.len()
        invariant
            i <= files.len(),
            report.texts() == old(report).texts() + managed_lines(files@.take(i as int)),
            report.failures == old(report).failures + managed_lines(files@.take(i as int)).len(),
            report.managed_drift == old(report).managed_drift + managed_lines(
                files@.take(i as int),
            ).len(),
            report.adopted_drift == old(report).adopted_drift,
            old(report).failures + files@.len() <= usize::MAX,
            old(report).managed_drift + files@.len() <= usize::MAX,
        decreases files.len() - i,
    {
        let c = &files[i];
        proof {
            assert(files@.take(i + 1).drop_last() =~= files@.take(i as int));
            assert(files@.take(i + 1).last() == files@[i as int]);
            lemma_managed_count(files@.take(i as int));
        }
        let mut line = owned("");
        let mut faulty = true;
        match &c.found {
            Found::ThroughLink => {
                line = owned("FAIL managed file reached through a symlink: ");
            },
            Found::Absent => {
                line = owned("FAIL missing managed file: ");
            },
            Found::Holds(d) => {
                if d.same(&c.recorded) {
                    faulty = false;
                } else {
                    line = owned("FAIL managed drift: ");
                }
            },
        }
        if faulty {
            append(&mut line, c.destination.as_str());
            report.managed_drift = report.managed_drift + 1;
            report.fail(line);
        }
        i += 1;
    }
    assert(files@.take(files.len() as int) =~= files@);
}

/// Hold every adopted file to the record: a link or an absence fails, and
/// changed bytes are a note that counts as drift, since the project owns
/// an adopted file.
pub fn check_adopted(report: &mut VerifyReport, files: &Vec<Checked>)
    requires
        old(report).failures + files@.len() <= usize::MAX,
        old(report).adopted_drift + files@.len() <= usize::MAX,
    ensures
        final(report).texts() == old(report).texts() + adopted_lines(files@),
        final(report).failures == old(report).failures + adopted_failures(files@),
        final(report).adopted_drift == old(report).adopted_drift + adopted_drifts(files@),
        final(report).managed_drift == old(report).managed_drift,
{
    let mut i: usize = 0;
    while i < files.len()
        invariant
            i <= files.len(),
            report.texts() == old(report).texts() + adopted_lines(files@.take(i as int)),
            report.failures == old(report).failures + adopted_failures(files@.take(i as int)),
            report.adopted_drift == old(report).adopted_drift + adopted_drifts(files@.take(i as int)),
            report.managed_drift == old(report).managed_drift,
            old(report).failures + files@.len() <= usize::MAX,
            old(report).adopted_drift + files@.len() <= usize::MAX,
        decreases files.len() - i,
    {
        let c = &files[i];
        proof {
            assert(files@.take(i + 1).drop_last() =~= files@.take(i as int));
            assert(files@.take(i + 1).last() == files@[i as int]);
            lemma_adopted_count(files@.take(i as int));
        }
        match &c.found {
            Found::ThroughLink => {
                let mut line = owned("FAIL adopted file reached through a symlink: ");
                append(&mut line, c.destination.as_str());
                report.fail(line);
            },
            Found::Absent => {
                let mut line = owned("FAIL missing adopted file: ");
                append(&mut line, c.destination.as_str());
                report.fail(line);
            },
            Found::Holds(d) => {
                if !d.same(&c.recorded) {
                    let mut line = owned("DRIFT adopted file requires reconciliation: ");
                    append(&mut line, c.destination.as_str());
                    report.adopted_drift = report.adopted_drift + 1;
                    report.note(line);
                }
            },
        }
        i += 1;
    }
    assert(files@.take(files.len() as int) =~= files@);
}


/// Where the word `w` first stands among `ws`, from `from` on.
pub open spec fn word_index(ws: Seq<Seq<char>>, w: Seq<char>, from: int) -> Option<int>
    decreases ws.len() - from,
{
    if from < 0 || from >= ws.len() {
        None
    } else if ws[from] == w {
        Some(from)
    } else {
        word_index(ws, w, from + 1)
    }
}

/// What one line of the managed block says about its entries.
pub enum EntryKind {
    /// Not an `entry:` line.
    NotEntry,
    /// An entry that runs something other than this tool.
    Foreign,
    /// An entry that runs this tool and names a known gate, or verifies.
    Wired,
    /// An entry that runs this tool's gate and names none this tool knows.
    Faulty(Seq<char>),
}

/// What one line of the managed block is: an `entry:` line counts as this
/// tool's when a word `gate` stands in it or its last word is `verify`,
/// and the word after `gate` must name a gate in `gates`.
pub open spec fn entry_kind(line: Seq<char>, gates: Seq<Seq<char>>) -> EntryKind {
    let t = trimmed_start(line);
    if !has_prefix(t, "entry: "@) {
        EntryKind::NotEntry
    } else {
        let entry = t.skip("entry: "@.len() as int);
        let ws = words(entry);
        match word_index(ws, "gate"@, 0) {
            None => if ws.len() > 0 && ws.last() == "verify"@ {
                EntryKind::Wired
            } else {
                EntryKind::Foreign
            },
            Some(p) => if p + 1 < ws.len() {
                if gates.contains(ws[p + 1]) {
                    EntryKind::Wired
                } else {
                    EntryKind::Faulty("FAIL managed block entry names an unknown gate: "@ + ws[p + 1])
                }
            } else {
                EntryKind::Faulty("FAIL managed block entry names no gate: "@ + entry)
            },
        }
    }
}

/// The failures the block's entry lines report, in order.
pub open spec fn entry_faults(ls: Seq<Seq<char>>, gates: Seq<Seq<char>>) -> Seq<Seq<char>>
    decreases ls.len(),
{
    if ls.len() == 0 {
        Seq::empty()
    } else {
        match entry_kind(ls.last(), gates) {
            EntryKind::Faulty(l) => entry_faults(ls.drop_last(), gates).push(l),
            _ => entry_faults(ls.drop_last(), gates),
        }
    }
}

/// How many of the block's lines are this tool's entries.
pub open spec fn wired_entries(ls: Seq<Seq<char>>, gates: Seq<Seq<char>>) -> nat
    decreases ls.len(),
{
    if ls.len() == 0 {
        0
    } else {
        wired_entries(ls.drop_last(), gates) + match entry_kind(ls.last(), gates) {
            EntryKind::Wired => 1nat,
            EntryKind::Faulty(_) => 1nat,
            _ => 0nat,
        }
    }
}

/// The failures a managed block reports: each entry of this tool's that
/// names no known gate, then, where no entry is this tool's at all, that
/// the block wires nothing.
pub open spec fn block_faults(block: Seq<char>, gates: Seq<Seq<char>>) -> Seq<Seq<char>> {
    let ls = lines_of(block);
    entry_faults(ls, gates) + if wired_entries(ls, gates) == 0 {
        seq!["FAIL managed block wires no sdd entry"@]
    } else {
        Seq::empty()
    }
}

proof fn lemma_entry_counts(ls: Seq<Seq<char>>, gates: Seq<Seq<char>>)
    ensures
        entry_faults(ls, gates).len() <= wired_entries(ls, gates),
        wired_entries(ls, gates) <= ls.len(),
    decreases ls.len(),
{
    if ls.len() > 0 {
        lemma_entry_counts(ls.drop_last(), gates);
    }
}

/// Whether a word names one of the gates.
fn names_gate(word: &Vec<char>, gates: &Vec<String>) -> (r: bool)
    ensures
        r == crate::text::views_of(gates@).contains(word@),
{
    let w = crate::text::string_of_all(word);
    let mut i: usize = 0;
    while i < gates.len()
        invariant
            i <= gates.len(),
            w@ == word@,
            forall|j: int| 0 <= j < i ==> gates@[j]@ != word@,
        decreases gates.len() - i,
    {
        if crate::text::same_text(gates[i].as_str(), w.as_str()) {
            assert(crate::text::views_of(gates@)[i as int] == word@);
            return true;
        }
        i += 1;
    }
    proof {
        if crate::text::views_of(gates@).contains(word@) {
            let j = choose|j: int| 0 <= j < crate::text::views_of(gates@).len() && crate::text::views_of(gates@)[j] == word@;
            assert(gates@[j]@ == word@);
        }
    }
    false
}

/// Where the word `w` first stands among `ws`.
fn find_word(ws: &Vec<Vec<char>>, w: &Vec<char>) -> (r: Option<usize>)
    ensures
        match r {
            Some(p) => word_index(ws@.map_values(|x: Vec<char>| x@), w@, 0) == Some(p as int) && p < ws@.len(),
            None => word_index(ws@.map_values(|x: Vec<char>| x@), w@, 0) is None,
        },
{
    let ghost m = ws@.map_values(|x: Vec<char>| x@);
    let mut i: usize = 0;
    while i < ws.len()
        invariant
            i <= ws.len(),
            m == ws@.map_values(|x: Vec<char>| x@),
            word_index(m, w@, 0) == word_index(m, w@, i as int),
        decreases ws.len() - i,
    {
        assert(m[i as int] == ws@[i as int]@);
        if crate::text::same_chars(&ws[i], w) {
            return Some(i);
        }
        i += 1;
    }
    None
}

/// What one line of the managed block is: whether it is this tool's
/// entry, and the failure it reports, where it reports one.
fn classify_entry(line: &Vec<char>, gates: &Vec<String>) -> (r: (bool, Option<String>))
    ensures
        r.0 == (entry_kind(line@, crate::text::views_of(gates@)) is Wired || entry_kind(
            line@,
            crate::text::views_of(gates@),
        ) is Faulty),
        match entry_kind(line@, crate::text::views_of(gates@)) {
            EntryKind::Faulty(l) => r.1 matches Some(s) && s@ == l,
            _ => r.1 is None,
        },
{
    proof {
        reveal_strlit("entry: ");
        reveal_strlit("gate");
        reveal_strlit("verify");
    }
    let t = crate::text::trim_start(crate::text::string_of_all(line).as_str());
    let tv = chars_of(t.as_str());
    let head = chars_of("entry: ");
    assert(tv@.subrange(0, tv@.len() as int) =~= tv@);
    if !crate::text::prefix_at(&tv, 0, &head) {
        return (false, None);
    }
    let entry = string_of(&tv, 7, tv.len());
    assert(entry@ =~= tv@.skip(7));
    let ev = chars_of(entry.as_str());
    let ws = split_words(&ev);
    let ghost m = ws@.map_values(|x: Vec<char>| x@);
    let gate = chars_of("gate");
    match find_word(&ws, &gate) {
        None => {
            let n = ws.len();
            if n > 0 {
                assert(m.last() == ws@[n - 1]@);
                let verify = chars_of("verify");
                (crate::text::same_chars(&ws[n - 1], &verify), None)
            } else {
                (false, None)
            }
        },
        Some(p) => {
            if p < ws.len() - 1 {
                assert(m[p + 1] == ws@[p + 1]@);
                if names_gate(&ws[p + 1], gates) {
                    (true, None)
                } else {
                    let mut line = owned("FAIL managed block entry names an unknown gate: ");
                    append(&mut line, string_of_all_chars(&ws[p + 1]).as_str());
                    (true, Some(line))
                }
            } else {
                let mut line = owned("FAIL managed block entry names no gate: ");
                append(&mut line, entry.as_str());
                (true, Some(line))
            }
        },
    }
}

/// The characters as a string.
fn string_of_all_chars(v: &Vec<char>) -> (s: String)
    ensures
        s@ == v@,
{
    crate::text::string_of_all(v)
}

proof fn lemma_pieces_bound(s: Seq<char>)
    ensures
        crate::self_depend::pin::split_newlines(s).len() <= s.len() + 1,
    decreases s.len(),
{
    match crate::text::first_index_from(s, '\n', 0) {
        None => {},
        Some(i) => if 0 <= i < s.len() {
            lemma_pieces_bound(s.skip(i + 1));
        },
    }
}

proof fn lemma_lines_bound(s: Seq<char>)
    ensures
        lines_of(s).len() <= s.len() + 1,
{
    lemma_pieces_bound(s);
}

/// Check the entries of the managed block: each of this tool's entries
/// must name a gate this tool knows, and at least one entry must be this
/// tool's.
pub fn check_block_entries(report: &mut VerifyReport, block: &str, gates: &Vec<String>)
    requires
        old(report).failures + block@.len() + 1 <= usize::MAX,
    ensures
        final(report).texts() == old(report).texts() + block_faults(block@, crate::text::views_of(gates@)),
        final(report).failures == old(report).failures + block_faults(
            block@,
            crate::text::views_of(gates@),
        ).len(),
        final(report).managed_drift == old(report).managed_drift,
        final(report).adopted_drift == old(report).adopted_drift,
{
    let ls = lines(block);
    let ghost lv = ls@.map_values(|l: Vec<char>| l@);
    let ghost g = crate::text::views_of(gates@);
    proof {
        lemma_lines_bound(block@);
    }
    let mut wired: usize = 0;
    let mut i: usize = 0;
    while i < ls.len()
        invariant
            i <= ls.len(),
            lv == ls@.map_values(|l: Vec<char>| l@),
            lv == lines_of(block@),
            lv.len() <= block@.len() + 1,
            g == crate::text::views_of(gates@),
            report.texts() == old(report).texts() + entry_faults(lv.take(i as int), g),
            report.failures == old(report).failures + entry_faults(lv.take(i as int), g).len(),
            wired == wired_entries(lv.take(i as int), g),
            report.managed_drift == old(report).managed_drift,
            report.adopted_drift == old(report).adopted_drift,
            old(report).failures + block@.len() + 1 <= usize::MAX,
        decreases ls.len() - i,
    {
        proof {
            assert(lv.take(i + 1).drop_last() =~= lv.take(i as int));
            assert(lv.take(i + 1).last() == lv[i as int]);
            assert(lv[i as int] == ls@[i as int]@);
            lemma_entry_counts(lv.take(i as int), g);
        }
        let (counted, fault) = classify_entry(&ls[i], gates);
        if counted {
            wired = wired + 1;
        }
        if let Some(line) = fault {
            report.fail(line);
        }
        i += 1;
    }
    assert(lv.take(ls.len() as int) =~= lv);
    proof {
        lemma_entry_counts(lv, g);
    }
    if wired == 0 {
        report.fail(owned("FAIL managed block wires no sdd entry"));
    }
    assert(report.texts() =~= old(report).texts() + block_faults(block@, g));
}

/// How many times `k` occurs in `s`.
pub open spec fn occurrences(s: Seq<Seq<char>>, k: Seq<char>) -> nat
    decreases s.len(),
{
    if s.len() == 0 {
        0
    } else {
        occurrences(s.drop_last(), k) + if s.last() == k {
            1nat
        } else {
            0nat
        }
    }
}

proof fn lemma_occurrences_bound(s: Seq<Seq<char>>, k: Seq<char>)
    ensures
        occurrences(s, k) <= s.len(),
        occurrences(s, k) > 0 <==> s.contains(k),
    decreases s.len(),
{
    if s.len() > 0 {
        lemma_occurrences_bound(s.drop_last(), k);
        if s.drop_last().contains(k) {
            let j = choose|j: int| 0 <= j < s.drop_last().len() && s.drop_last()[j] == k;
            assert(s[j] == k);
        }
        if s.contains(k) && s.last() != k {
            let j = choose|j: int| 0 <= j < s.len() && s[j] == k;
            assert(s.drop_last()[j] == k);
        }
    }
}

/// The keys of sorted entries whose count is above one, in order.
pub open spec fn repeated_keys(e: Seq<(String, usize)>) -> Seq<Seq<char>>
    decreases e.len(),
{
    if e.len() == 0 {
        Seq::empty()
    } else if e.last().1 > 1 {
        repeated_keys(e.drop_last()).push(e.last().0@)
    } else {
        repeated_keys(e.drop_last())
    }
}

proof fn lemma_repeated_keys(e: Seq<(String, usize)>)
    requires
        crate::sorted_map::sorted_keys(e),
    ensures
        forall|i: int, j: int| 0 <= i < j < repeated_keys(e).len() ==> crate::text::text_lt(
            #[trigger] repeated_keys(e)[i],
            #[trigger] repeated_keys(e)[j],
        ),
        forall|k: Seq<char>| repeated_keys(e).contains(k) <==> exists|i: int| 0 <= i < e.len() && (#[trigger] e[i]).0@ == k && e[i].1 > 1,
        forall|i: int| #![trigger repeated_keys(e)[i]] 0 <= i < repeated_keys(e).len() ==> exists|j: int| 0 <= j < e.len() && (#[trigger] e[j]).0@ == repeated_keys(e)[i],
    decreases e.len(),
{
    if e.len() > 0 {
        let d = e.drop_last();
        assert(crate::sorted_map::sorted_keys(d)) by {
            assert forall|i: int, j: int| 0 <= i < j < d.len() implies crate::text::text_lt(#[trigger] d[i].0@, #[trigger] d[j].0@) by {
                assert(d[i] == e[i] && d[j] == e[j]);
            }
        }
        lemma_repeated_keys(d);
        let r = repeated_keys(e);
        let rd = repeated_keys(d);
        assert forall|i: int| #![trigger rd[i]] 0 <= i < rd.len() implies exists|j: int| 0 <= j < e.len() && (#[trigger] e[j]).0@ == rd[i] by {
            let j = choose|j: int| 0 <= j < d.len() && (#[trigger] d[j]).0@ == rd[i];
            assert(e[j] == d[j]);
        }
        if e.last().1 > 1 {
            assert forall|i: int| 0 <= i < rd.len() implies crate::text::text_lt(rd[i], e.last().0@) by {
                let j = choose|j: int| 0 <= j < d.len() && (#[trigger] d[j]).0@ == rd[i];
                assert(e[j] == d[j]);
                assert(crate::text::text_lt(e[j].0@, e[e.len() - 1].0@));
            }
            assert forall|i: int, j: int| 0 <= i < j < r.len() implies crate::text::text_lt(#[trigger] r[i], #[trigger] r[j]) by {
                if j < rd.len() {
                    assert(r[i] == rd[i] && r[j] == rd[j]);
                } else {
                    assert(r[i] == rd[i]);
                }
            }
            assert forall|k: Seq<char>| r.contains(k) <== exists|i: int| 0 <= i < e.len() && (#[trigger] e[i]).0@ == k && e[i].1 > 1 by {
                if exists|i: int| 0 <= i < e.len() && (#[trigger] e[i]).0@ == k && e[i].1 > 1 {
                    let i = choose|i: int| 0 <= i < e.len() && (#[trigger] e[i]).0@ == k && e[i].1 > 1;
                    if i < e.len() - 1 {
                        assert(d[i] == e[i]);
                        assert(rd.contains(k));
                        let q = choose|q: int| 0 <= q < rd.len() && rd[q] == k;
                        assert(r[q] == k);
                    } else {
                        assert(r[r.len() - 1] == k);
                    }
                }
            }
            assert forall|k: Seq<char>| r.contains(k) implies exists|i: int| 0 <= i < e.len() && (#[trigger] e[i]).0@ == k && e[i].1 > 1 by {
                let q = choose|q: int| 0 <= q < r.len() && r[q] == k;
                if q < rd.len() {
                    assert(rd[q] == k);
                    assert(rd.contains(k));
                    let i = choose|i: int| 0 <= i < d.len() && (#[trigger] d[i]).0@ == k && d[i].1 > 1;
                    assert(e[i] == d[i]);
                } else {
                    assert(e[e.len() - 1].0@ == k);
                }
            }
        } else {
            assert forall|k: Seq<char>| r.contains(k) <== exists|i: int| 0 <= i < e.len() && (#[trigger] e[i]).0@ == k && e[i].1 > 1 by {
                if exists|i: int| 0 <= i < e.len() && (#[trigger] e[i]).0@ == k && e[i].1 > 1 {
                    let i = choose|i: int| 0 <= i < e.len() && (#[trigger] e[i]).0@ == k && e[i].1 > 1;
                    assert(i < e.len() - 1);
                    assert(d[i] == e[i]);
                }
            }
            assert forall|k: Seq<char>| r.contains(k) implies exists|i: int| 0 <= i < e.len() && (#[trigger] e[i]).0@ == k && e[i].1 > 1 by {
                let i = choose|i: int| 0 <= i < d.len() && (#[trigger] d[i]).0@ == k && d[i].1 > 1;
                assert(e[i] == d[i]);
            }
        }
    }
}

/// The identifiers that occur more than once, each once, in increasing
/// order: what counting them into a map sorted by key and keeping those
/// counted twice or more gives.
pub fn duplicated(ids: &Vec<String>) -> (r: Vec<String>)
    ensures
        forall|i: int, j: int| 0 <= i < j < r@.len() ==> crate::text::text_lt(#[trigger] r@[i]@, #[trigger] r@[j]@),
        forall|k: Seq<char>| crate::text::views_of(r@).contains(k) <==> occurrences(crate::text::views_of(ids@), k) > 1,
{
    let ghost v = crate::text::views_of(ids@);
    let mut counts: TextMap<usize> = TextMap::new();
    let mut i: usize = 0;
    while i < ids.len()
        invariant
            i <= ids.len(),
            v == crate::text::views_of(ids@),
            forall|k: Seq<char>| #[trigger] counts@.dom().contains(k) <==> occurrences(v.take(i as int), k) > 0,
            forall|k: Seq<char>| #[trigger] counts@.dom().contains(k) ==> counts@[k] == occurrences(v.take(i as int), k),
        decreases ids.len() - i,
    {
        let ghost t = v.take(i as int);
        assert(v.take(i + 1).drop_last() =~= t);
        assert(v.take(i + 1).last() == ids@[i as int]@);
        proof {
            lemma_occurrences_bound(t, ids@[i as int]@);
        }
        let key = ids[i].as_str();
        let n: usize = match counts.get(key) {
            Some(c) => *c,
            None => 0,
        };
        assert(n == occurrences(t, key@));
        counts.insert(key, n + 1);
        i += 1;
    }
    assert(v.take(ids.len() as int) =~= v);
    let e = counts.entries();
    let ghost ev = e@;
    let mut r: Vec<String> = Vec::new();
    let mut j: usize = 0;
    while j < e.len()
        invariant
            j <= e.len(),
            ev == e@,
            crate::text::views_of(r@) == repeated_keys(ev.take(j as int)),
        decreases e.len() - j,
    {
        assert(ev.take(j + 1).drop_last() =~= ev.take(j as int));
        assert(ev.take(j + 1).last() == ev[j as int]);
        if e[j].1 > 1 {
            let ghost before = r@;
            r.push(e[j].0.clone());
            assert(crate::text::views_of(r@) =~= crate::text::views_of(before).push(ev[j as int].0@));
        }
        j += 1;
    }
    assert(ev.take(e.len() as int) =~= ev);
    proof {
        lemma_repeated_keys(ev);
        let rv = crate::text::views_of(r@);
        assert forall|a: int, b: int| 0 <= a < b < r@.len() implies crate::text::text_lt(#[trigger] r@[a]@, #[trigger] r@[b]@) by {
            assert(rv[a] == r@[a]@ && rv[b] == r@[b]@);
        }
        assert forall|k: Seq<char>| rv.contains(k) <==> occurrences(v, k) > 1 by {
            lemma_occurrences_bound(v, k);
            if rv.contains(k) {
                let i = choose|i: int| 0 <= i < ev.len() && (#[trigger] ev[i]).0@ == k && ev[i].1 > 1;
                crate::sorted_map::lemma_map_at(ev, i);
            }
            if occurrences(v, k) > 1 {
                assert(counts@.dom().contains(k));
                let i = crate::sorted_map::index_of_key(ev, k);
                assert(crate::sorted_map::holds_key(ev, k));
                crate::sorted_map::lemma_map_at(ev, i);
            }
        }
    }
    r
}

/// The lines a duplicate-identifier check prints: a failure, then each
/// repeated identifier as a heading, where any repeats.
pub open spec fn duplicate_lines(dups: Seq<Seq<char>>) -> Seq<Seq<char>> {
    if dups.len() == 0 {
        Seq::empty()
    } else {
        seq!["FAIL duplicate rule ID in local specs"@] + dups.map_values(|id: Seq<char>| "### `"@ + id + "`"@)
    }
}

/// Check the local specifications: where they exist, `found` holds every
/// rule identifier each of them declares, and a repeated one fails and is
/// listed; where they do not, that fails. Returns the repeated
/// identifiers.
pub fn check_specs(report: &mut VerifyReport, docs_root: &str, found: Option<&Vec<String>>) -> (dups: Vec<String>)
    requires
        old(report).failures < usize::MAX,
    ensures
        forall|i: int, j: int| 0 <= i < j < dups@.len() ==> crate::text::text_lt(#[trigger] dups@[i]@, #[trigger] dups@[j]@),
        match found {
            Some(ids) => forall|k: Seq<char>| crate::text::views_of(dups@).contains(k) <==> occurrences(crate::text::views_of(ids@), k) > 1,
            None => dups@.len() == 0,
        },
        final(report).texts() == old(report).texts() + match found {
            Some(_) => duplicate_lines(crate::text::views_of(dups@)),
            None => seq!["FAIL missing local specs: "@ + docs_root@ + "/specs"@],
        },
        final(report).failures == old(report).failures + if found is None || dups@.len() > 0 { 1int } else { 0int },
        final(report).managed_drift == old(report).managed_drift,
        final(report).adopted_drift == old(report).adopted_drift,
{
    match found {
        None => {
            let mut line = owned("FAIL missing local specs: ");
            append(&mut line, docs_root);
            append(&mut line, "/specs");
            report.fail(line);
            Vec::new()
        },
        Some(ids) => {
            let dups = duplicated(ids);
            if dups.len() > 0 {
                report.fail(owned("FAIL duplicate rule ID in local specs"));
                let mut k: usize = 0;
                let ghost base = report.texts();
                while k < dups.len()
                    invariant
                        k <= dups.len(),
                        report.texts() == base + crate::text::views_of(dups@).take(k as int).map_values(
                            |id: Seq<char>| "### `"@ + id + "`"@,
                        ),
                        report.failures == old(report).failures + 1,
                        report.managed_drift == old(report).managed_drift,
                        report.adopted_drift == old(report).adopted_drift,
                    decreases dups.len() - k,
                {
                    let mut line = owned("### `");
                    append(&mut line, dups[k].as_str());
                    append(&mut line, "`");
                    report.note(line);
                    assert(crate::text::views_of(dups@).take(k + 1) =~= crate::text::views_of(dups@).take(k as int).push(dups@[k as int]@));
                    assert(report.texts() =~= base + crate::text::views_of(dups@).take(k + 1).map_values(
                        |id: Seq<char>| "### `"@ + id + "`"@,
                    ));
                    k += 1;
                }
                assert(crate::text::views_of(dups@).take(dups.len() as int) =~= crate::text::views_of(dups@));
                assert(report.texts() =~= old(report).texts() + duplicate_lines(crate::text::views_of(dups@)));
            } else {
                assert(report.texts() =~= old(report).texts() + duplicate_lines(crate::text::views_of(dups@)));
            }
            dups
        },
    }
}

/// The line the version comparison prints, where it prints one, and
/// whether it is a failure: an instance newer than this tool fails, one
/// older is a note.
pub open spec fn version_line(installed: CanonVersion, current: CanonVersion) -> Option<(Seq<char>, bool)> {
    if version_lt(current, installed) {
        Some(("FAIL sdd "@ + current.text() + " is older than the installed canon "@ + installed.text() + "; upgrade sdd"@, true))
    } else if version_lt(installed, current) {
        Some(("note: sdd "@ + current.text() + " is newer than the installed canon "@ + installed.text() + "; run 'sdd upgrade'"@, false))
    } else {
        None
    }
}

/// Close a verification: compare the installed canon's version with this
/// tool's, and, where nothing failed, say the instance is sound.
pub fn conclude(report: &mut VerifyReport, installed: &CanonVersion, current: &CanonVersion, target: &str)
    requires
        old(report).failures < usize::MAX,
    ensures
        final(report).texts() == old(report).texts() + match version_line(*installed, *current) {
            Some((l, _)) => seq![l],
            None => Seq::empty(),
        } + if final(report).failures == 0 {
            seq!["OK spec-driven-docs "@ + installed.text() + " at "@ + target@]
        } else {
            Seq::empty()
        },
        final(report).failures == old(report).failures + match version_line(*installed, *current) {
            Some((_, true)) => 1int,
            _ => 0int,
        },
        final(report).managed_drift == old(report).managed_drift,
        final(report).adopted_drift == old(report).adopted_drift,
{
    let ghost base = report.texts();
    if current.precedes(installed) {
        let mut line = owned("FAIL sdd ");
        append(&mut line, current.to_text().as_str());
        append(&mut line, " is older than the installed canon ");
        append(&mut line, installed.to_text().as_str());
        append(&mut line, "; upgrade sdd");
        report.fail(line);
    } else if installed.precedes(current) {
        let mut line = owned("note: sdd ");
        append(&mut line, current.to_text().as_str());
        append(&mut line, " is newer than the installed canon ");
        append(&mut line, installed.to_text().as_str());
        append(&mut line, "; run 'sdd upgrade'");
        report.note(line);
    }
    let ghost mid = report.texts();
    assert(mid =~= base + match version_line(*installed, *current) {
        Some((l, _)) => seq![l],
        None => Seq::<Seq<char>>::empty(),
    });
    if report.failures == 0 {
        let mut line = owned("OK spec-driven-docs ");
        append(&mut line, installed.to_text().as_str());
        append(&mut line, " at ");
        append(&mut line, target);
        report.note(line);
    } else {
        assert(report.texts() =~= mid + Seq::<Seq<char>>::empty());
    }
}

/// The version comparison fails exactly when this tool is older than the
/// installed canon by the whole triple, a patch behind included; it says
/// nothing exactly when the two are the same release.
pub proof fn law_an_older_tool_fails_by_the_whole_triple(installed: CanonVersion, current: CanonVersion)
    ensures
        (version_line(installed, current) matches Some((_, failed)) && failed) <==> crate::plan::compatibility::triple_before(
            current,
            installed,
        ),
        version_line(installed, current) is None <==> installed == current,
{
}

} // verus!
