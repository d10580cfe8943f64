//! What a predecessor bump mechanism left, and what a clean never touches.
//!
//! One target runs one mover. A file a predecessor mechanism left beside
//! the sync line is a second mover, so `status` reports it and `clean`
//! removes it. No release of this tool shipped a mover before the sync
//! verb, so the catalog of known predecessors is empty and a leftover is
//! only ever one the operator names. Which files exist is the command
//! layer's to find out; it hands the answers in.

use vstd::prelude::*;

use crate::self_depend::manager::Manager;
use crate::self_depend::{ENVRC, SYNC_LINE};
use crate::text::{chars_of, decimal, find_text, first_occurrence, owned, push_decimal, same_text};

verus! {

/// Files a predecessor mechanism is known to have left, relative to a
/// project root: none.
pub fn catalog() -> (r: Vec<&'static str>)
    ensures
        r@.len() == 0,
{
    Vec::new()
}

/// One file a clean removes.
#[derive(Debug)]
pub struct Leftover {
    /// The file, relative to the project root.
    pub file: String,
    /// Why it is a leftover.
    pub reason: String,
}

/// One file a clean names and leaves byte-identical.
#[derive(Debug)]
pub struct Kept {
    /// The file, relative to the project root.
    pub file: String,
    /// The line inside it that a scan must not touch, where one is meant.
    pub line: Option<String>,
    /// Why it stays.
    pub reason: String,
}

/// One manager the project wires, as found: its file where it has one,
/// the line its pin stands on where it records one, and whether the lock
/// beside it exists.
#[derive(Debug)]
pub struct Wired {
    /// The manager.
    pub manager: Manager,
    /// Its file, relative to the project root.
    pub file: Option<String>,
    /// The line the pin stands on, counted from one.
    pub pin_line: Option<usize>,
    /// Whether the manager's lock file exists.
    pub lock_present: bool,
}

/// A leftover as plain values.
pub open spec fn leftover_view(l: Leftover) -> (Seq<char>, Seq<char>) {
    (l.file@, l.reason@)
}

/// A kept file as plain values.
pub open spec fn kept_view(k: Kept) -> (Seq<char>, Option<Seq<char>>, Seq<char>) {
    (
        k.file@,
        match k.line {
            Some(l) => Some(l@),
            None => None,
        },
        k.reason@,
    )
}

/// The leftovers among the files the operator names, in order and each
/// once: those that exist.
pub open spec fn named_leftovers(named: Seq<Seq<char>>, existing: Set<Seq<char>>) -> Seq<(Seq<char>, Seq<char>)>
    decreases named.len(),
{
    if named.len() == 0 {
        Seq::empty()
    } else {
        let before = named_leftovers(named.drop_last(), existing);
        let f = named.last();
        if existing.contains(f) && !before.map_values(|l: (Seq<char>, Seq<char>)| l.0).contains(f) {
            before.push((f, "named by the operator as a predecessor's file"@))
        } else {
            before
        }
    }
}

fn already(found: &Vec<Leftover>, file: &str) -> (r: bool)
    ensures
        r == found@.map_values(|l: Leftover| leftover_view(l)).map_values(|l: (Seq<char>, Seq<char>)| l.0).contains(
            file@,
        ),
{
    let ghost fs = found@.map_values(|l: Leftover| leftover_view(l)).map_values(|l: (Seq<char>, Seq<char>)| l.0);
    let mut i: usize = 0;
    while i < found.len()
        invariant
            i <= found.len(),
            fs == found@.map_values(|l: Leftover| leftover_view(l)).map_values(|l: (Seq<char>, Seq<char>)| l.0),
            forall|j: int| 0 <= j < i ==> fs[j] != file@,
        decreases found.len() - i,
    {
        assert(fs[i as int] == found@[i as int].file@);
        if same_text(found[i].file.as_str(), file) {
            return true;
        }
        i += 1;
    }
    false
}

/// Every leftover the target carries: the catalog's, which is empty, and
/// each file the operator names that exists, once. `existing` lists the
/// files the command layer found on disk.
pub fn find(named: &Vec<String>, existing: &Vec<String>) -> (r: Vec<Leftover>)
    ensures
        r@.map_values(|l: Leftover| leftover_view(l)) == named_leftovers(
            named@.map_values(|s: String| s@),
            existing@.map_values(|s: String| s@).to_set(),
        ),
{
    let ghost nv = named@.map_values(|s: String| s@);
    let ghost ex = existing@.map_values(|s: String| s@).to_set();
    let mut found: Vec<Leftover> = Vec::new();
    let mut i: usize = 0;
    assert(nv.take(0) =~= Seq::<Seq<char>>::empty());
    assert(found@.map_values(|l: Leftover| leftover_view(l)) =~= Seq::<(Seq<char>, Seq<char>)>::empty());
    while i < named.len()
        invariant
            i <= named.len(),
            nv == named@.map_values(|s: String| s@),
            ex == existing@.map_values(|s: String| s@).to_set(),
            found@.map_values(|l: Leftover| leftover_view(l)) == named_leftovers(nv.take(i as int), ex),
        decreases named.len() - i,
    {
        assert(nv.take(i + 1).drop_last() =~= nv.take(i as int));
        assert(nv.take(i + 1).last() == named@[i as int]@);
        let file = named[i].as_str();
        let present = is_listed(existing, file);
        let ghost before = found@;
        if present && !already(&found, file) {
            found.push(Leftover { file: owned(file), reason: owned("named by the operator as a predecessor's file") });
            assert(found@.map_values(|l: Leftover| leftover_view(l)) =~= before.map_values(
                |l: Leftover| leftover_view(l),
            ).push((file@, "named by the operator as a predecessor's file"@)));
        }
        i += 1;
    }
    assert(nv.take(named.len() as int) =~= nv);
    found
}

fn is_listed(existing: &Vec<String>, file: &str) -> (r: bool)
    ensures
        r == existing@.map_values(|s: String| s@).to_set().contains(file@),
{
    let ghost ev = existing@.map_values(|s: String| s@);
    let mut i: usize = 0;
    while i < existing.len()
        invariant
            i <= existing.len(),
            ev == existing@.map_values(|s: String| s@),
            forall|j: int| 0 <= j < i ==> ev[j] != file@,
        decreases existing.len() - i,
    {
        if same_text(existing[i].as_str(), file) {
            assert(ev.contains(ev[i as int]));
            return true;
        }
        i += 1;
    }
    assert(!ev.contains(file@));
    false
}

/// What a clean keeps for one wired manager: its file, naming the line of
/// its pin where it records one, and its lock where one exists.
pub open spec fn kept_for(w: Wired) -> Seq<(Seq<char>, Option<Seq<char>>, Seq<char>)> {
    (match w.file {
        Some(f) => seq![
            (
                f@,
                match w.pin_line {
                    Some(n) => Some("line "@ + decimal(n as nat)),
                    None => None,
                },
                "the manager file the project owns; the pin moves in place"@,
            ),
        ],
        None => Seq::empty(),
    }) + if w.manager is Flake && w.lock_present {
        seq![("flake.lock"@, None::<Seq<char>>, "the lock the manager owns; it moves with the pin"@)]
    } else {
        Seq::empty()
    }
}

/// What a clean keeps for every wired manager, in order.
pub open spec fn kept_all(ws: Seq<Wired>) -> Seq<(Seq<char>, Option<Seq<char>>, Seq<char>)>
    decreases ws.len(),
{
    if ws.len() == 0 {
        Seq::empty()
    } else {
        kept_all(ws.drop_last()) + kept_for(ws.last())
    }
}

/// What a clean never touches: each wired manager's file and lock, and
/// the shell loader where its text (`envrc`, where it reads) carries the
/// sync line.
pub open spec fn kept_spec(ws: Seq<Wired>, envrc: Option<Seq<char>>) -> Seq<(Seq<char>, Option<Seq<char>>, Seq<char>)> {
    kept_all(ws) + match envrc {
        Some(text) => if first_occurrence(text, SYNC_LINE@) is Some {
            seq![(ENVRC@, Some(SYNC_LINE@), "the one mover; a scan for a predecessor must not match it"@)]
        } else {
            Seq::empty()
        },
        None => Seq::empty(),
    }
}

/// What a clean never touches: the wired managers' files, their locks,
/// and the sync line in the shell loader.
pub fn kept(wired: &Vec<Wired>, envrc: Option<&str>) -> (r: Vec<Kept>)
    ensures
        r@.map_values(|k: Kept| kept_view(k)) == kept_spec(
            wired@,
            match envrc {
                Some(t) => Some(t@),
                None => None,
            },
        ),
{
    let mut held: Vec<Kept> = Vec::new();
    let mut i: usize = 0;
    assert(wired@.take(0) =~= Seq::<Wired>::empty());
    assert(held@.map_values(|k: Kept| kept_view(k)) =~= kept_all(wired@.take(0)));
    while i < wired.len()
        invariant
            i <= wired.len(),
            held@.map_values(|k: Kept| kept_view(k)) == kept_all(wired@.take(i as int)),
        decreases wired.len() - i,
    {
        let w = &wired[i];
        let ghost start = held@.map_values(|k: Kept| kept_view(k));
        let ghost before = held@;
        match &w.file {
            Some(f) => {
                let line = match w.pin_line {
                    Some(n) => {
                        let mut t = owned("line ");
                        push_decimal(&mut t, n as u64);
                        Some(t)
                    },
                    None => None,
                };
                held.push(
                    Kept {
                        file: owned(f.as_str()),
                        line,
                        reason: owned("the manager file the project owns; the pin moves in place"),
                    },
                );
                assert(held@.map_values(|k: Kept| kept_view(k)) =~= before.map_values(|k: Kept| kept_view(k)).push(
                    kept_view(held@.last()),
                ));
            },
            None => {},
        }
        let ghost mid = held@;
        match w.manager.lock_file() {
            Some(lock) => {
                if w.lock_present {
                    held.push(
                        Kept {
                            file: owned(lock),
                            line: None,
                            reason: owned("the lock the manager owns; it moves with the pin"),
                        },
                    );
                    assert(held@.map_values(|k: Kept| kept_view(k)) =~= mid.map_values(|k: Kept| kept_view(k)).push(
                        kept_view(held@.last()),
                    ));
                }
            },
            None => {},
        }
        proof {
            assert(wired@.take(i + 1).drop_last() =~= wired@.take(i as int));
            assert(wired@.take(i + 1).last() == wired@[i as int]);
            assert(held@.map_values(|k: Kept| kept_view(k)) =~= start + kept_for(wired@[i as int]));
        }
        i += 1;
    }
    assert(wired@.take(wired.len() as int) =~= wired@);
    let ghost body = held@;
    match envrc {
        Some(text) => {
            let v = chars_of(text);
            let needle = chars_of(SYNC_LINE);
            if find_text(&v, &needle).is_some() {
                held.push(
                    Kept {
                        file: owned(ENVRC),
                        line: Some(owned(SYNC_LINE)),
                        reason: owned("the one mover; a scan for a predecessor must not match it"),
                    },
                );
                assert(held@.map_values(|k: Kept| kept_view(k)) =~= body.map_values(|k: Kept| kept_view(k)).push(
                    kept_view(held@.last()),
                ));
            }
        },
        None => {},
    }
    held
}

} // verus!
