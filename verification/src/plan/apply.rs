//! What an apply decides before it writes anything, and how it reports.
//!
//! An apply that recomputed its intent from the tree could act on
//! something the operator never saw. So it compares the plan that was
//! reviewed with the same plan computed again, just now; a difference is a
//! refusal that names what moved, never a silent re-plan. The writing
//! itself, staging, journaling, and replacing, is the command layer's.

use vstd::prelude::*;

use crate::digest::Sha256;
use crate::error::{AppError, Fault};
use crate::landing::observe::digest_view;
use crate::plan::classify::classification_word;
use crate::plan::decision::Decision;
use crate::plan::operation::{path_of, shares_destination, Class, Operation};
use crate::plan::planner::writes::{operation_model, operation_models};
use crate::plan::Plan;
use crate::sorted_map::{entries_map, lemma_map_at, lemma_sorted_entries_canonical, sorted_keys, TextMap};
use crate::plan::readiness::{Evaluation, Precondition, Readiness, Requirement};
use crate::plan::store::{Disposition, PostconditionOutcome, Result as ApplyResult, RESULT_SCHEMA};
use crate::text::{append, decimal, join_texts, joined, owned, push_char, push_decimal, same_text, views_of};

verus! {

/// Whether an operation writes the record.
pub open spec fn is_record(op: Operation) -> bool {
    op is WriteRecord
}

/// The operations but the record's, in order.
pub open spec fn without_record(ops: Seq<Operation>) -> Seq<Operation>
    decreases ops.len(),
{
    if ops.len() == 0 {
        Seq::empty()
    } else if is_record(ops.last()) {
        without_record(ops.drop_last())
    } else {
        without_record(ops.drop_last()).push(ops.last())
    }
}

/// The record operations alone, in order.
pub open spec fn records_only(ops: Seq<Operation>) -> Seq<Operation>
    decreases ops.len(),
{
    if ops.len() == 0 {
        Seq::empty()
    } else if is_record(ops.last()) {
        records_only(ops.drop_last()).push(ops.last())
    } else {
        records_only(ops.drop_last())
    }
}

/// The order the apply writes in: every other operation in plan order,
/// then the record, because it is the claim that the rest landed.
pub fn ordered(plan: &Plan) -> (r: Vec<&Operation>)
    ensures
        r@.map_values(|o: &Operation| *o) == without_record(plan.operations@) + records_only(
            plan.operations@,
        ),
{
    let ops = &plan.operations;
    let mut first: Vec<&Operation> = Vec::new();
    let mut last: Vec<&Operation> = Vec::new();
    let mut i: usize = 0;
    while i < ops.len()
        invariant
            i <= ops.len(),
            first@.map_values(|o: &Operation| *o) == without_record(ops@.take(i as int)),
            last@.map_values(|o: &Operation| *o) == records_only(ops@.take(i as int)),
        decreases ops.len() - i,
    {
        assert(ops@.take(i + 1).drop_last() =~= ops@.take(i as int));
        assert(ops@.take(i + 1).last() == ops@[i as int]);
        let ghost f0 = first@;
        let ghost l0 = last@;
        if matches!(ops[i], Operation::WriteRecord { .. }) {
            last.push(&ops[i]);
            assert(last@.map_values(|o: &Operation| *o) =~= l0.map_values(|o: &Operation| *o).push(
                ops@[i as int],
            ));
        } else {
            first.push(&ops[i]);
            assert(first@.map_values(|o: &Operation| *o) =~= f0.map_values(|o: &Operation| *o).push(
                ops@[i as int],
            ));
        }
        i += 1;
    }
    assert(ops@.take(ops.len() as int) =~= ops@);
    let ghost f1 = first@;
    let mut k: usize = 0;
    while k < last.len()
        invariant
            k <= last.len(),
            first@ == f1 + last@.take(k as int),
        decreases last.len() - k,
    {
        first.push(last[k]);
        assert(last@.take(k + 1) =~= last@.take(k as int).push(last@[k as int]));
        k += 1;
    }
    assert(last@.take(last.len() as int) =~= last@);
    assert(first@.map_values(|o: &Operation| *o) =~= f1.map_values(|o: &Operation| *o)
        + last@.map_values(|o: &Operation| *o));
    first
}

/// The index of the first operation writing a path, where one does.
pub open spec fn first_at_path(ops: Seq<Operation>, path: Seq<char>) -> Option<int>
    decreases ops.len(),
{
    if ops.len() == 0 {
        None
    } else if path_of(ops[0])@ == path {
        Some(0)
    } else {
        match first_at_path(ops.drop_first(), path) {
            Some(k) => Some(k + 1),
            None => None,
        }
    }
}

/// What each reviewed operation no longer matches, in order.
pub open spec fn stored_moves(ops: Seq<Operation>, now: Seq<Operation>) -> Seq<Seq<char>>
    decreases ops.len(),
{
    if ops.len() == 0 {
        Seq::empty()
    } else {
        let before = stored_moves(ops.drop_last(), now);
        let op = ops.last();
        if is_record(op) {
            before
        } else {
            match first_at_path(now, path_of(op)@) {
                Some(k) => if operation_model(now[k]) == operation_model(op) {
                    before
                } else {
                    before.push(path_of(op)@ + " no longer needs what the plan described"@)
                },
                None => before.push(path_of(op)@ + " is no longer part of the plan"@),
            }
        }
    }
}

/// Every operation computed just now at a path the reviewed plan never
/// wrote, in order.
pub open spec fn added_moves(now: Seq<Operation>, ops: Seq<Operation>) -> Seq<Seq<char>>
    decreases now.len(),
{
    if now.len() == 0 {
        Seq::empty()
    } else {
        let before = added_moves(now.drop_last(), ops);
        let op = now.last();
        if is_record(op) || first_at_path(ops, path_of(op)@) is Some {
            before
        } else {
            before.push(path_of(op)@ + " is newly part of the plan"@)
        }
    }
}

/// What the operator answered, by decision, a later answer to one
/// decision replacing an earlier one.
pub open spec fn answers_of(ds: Seq<Decision>) -> Map<Seq<char>, Seq<char>>
    decreases ds.len(),
{
    if ds.len() == 0 {
        Map::empty()
    } else {
        match ds.last().selected {
            Some(a) => answers_of(ds.drop_last()).insert(ds.last().id@, a@),
            None => answers_of(ds.drop_last()),
        }
    }
}

/// The record digest a plan observed, where it observed a record.
pub open spec fn record_seen(p: Plan) -> Option<Seq<char>> {
    match p.observed_state.installation {
        Some(i) => Some(i.record_sha256@),
        None => None,
    }
}

/// The declaration digest a plan observed, where it observed one.
pub open spec fn declaration_seen(p: Plan) -> Option<Seq<char>> {
    match p.observed_state.installation {
        Some(i) => digest_view(i.declaration_sha256),
        None => None,
    }
}

/// One difference, where a condition holds.
pub open spec fn when(condition: bool, line: Seq<char>) -> Seq<Seq<char>> {
    if condition {
        seq![line]
    } else {
        Seq::empty()
    }
}

/// Every semantic input that moved between the plan and the apply, in
/// order: the classification, the release, the record, the declaration,
/// each reviewed operation, each new one, and the answers.
pub open spec fn moved_spec(stored: Plan, recomputed: Plan) -> Seq<Seq<char>> {
    when(
        stored.classification != recomputed.classification,
        "the target is now "@ + classification_word(recomputed.classification)
            + " and the plan described "@ + classification_word(stored.classification),
    ) + when(
        stored.desired_state.release_sha256@ != recomputed.desired_state.release_sha256@,
        "the release the plan resolved is no longer the one it resolved"@,
    ) + when(record_seen(stored) != record_seen(recomputed), "the instance record changed"@) + when(
        declaration_seen(stored) != declaration_seen(recomputed),
        "the project's declaration changed"@,
    ) + stored_moves(stored.operations@, recomputed.operations@) + added_moves(
        recomputed.operations@,
        stored.operations@,
    ) + when(
        answers_of(stored.decisions@) != answers_of(recomputed.decisions@),
        "a selected decision changed"@,
    )
}

/// Whether two optional digests spell the same digest or are both absent.
fn same_maybe(a: &Option<Sha256>, b: &Option<Sha256>) -> (r: bool)
    ensures
        r == (digest_view(*a) == digest_view(*b)),
{
    match (a, b) {
        (Some(x), Some(y)) => x.same(y),
        (None, None) => true,
        _ => false,
    }
}

/// Whether two operations are the same operation.
fn same_operation(a: &Operation, b: &Operation) -> (r: bool)
    ensures
        r == (operation_model(*a) == operation_model(*b)),
{
    match (a, b) {
        (
            Operation::WriteFile { path: p1, class: c1, before: b1, after: a1 },
            Operation::WriteFile { path: p2, class: c2, before: b2, after: a2 },
        ) => p1.same(p2) && *c1 == *c2 && same_maybe(b1, b2) && a1.same(a2),
        (
            Operation::KeepFile { path: p1, held: h1, baseline_before: b1, baseline_after: a1 },
            Operation::KeepFile { path: p2, held: h2, baseline_before: b2, baseline_after: a2 },
        ) => p1.same(p2) && h1.same(h2) && b1.same(b2) && a1.same(a2),
        (
            Operation::SpliceBlock { path: p1, marker: m1, before: b1, after: a1 },
            Operation::SpliceBlock { path: p2, marker: m2, before: b2, after: a2 },
        ) => p1.same(p2) && same_text(m1.as_str(), m2.as_str()) && same_maybe(b1, b2) && a1.same(a2),
        (
            Operation::RemoveOwnedFile { path: p1, before: b1 },
            Operation::RemoveOwnedFile { path: p2, before: b2 },
        ) => p1.same(p2) && b1.same(b2),
        (
            Operation::WriteDebt { path: p1, before: b1, after: a1 },
            Operation::WriteDebt { path: p2, before: b2, after: a2 },
        ) => p1.same(p2) && same_maybe(b1, b2) && a1.same(a2),
        (
            Operation::WriteRecord { path: p1, before: b1, after: a1 },
            Operation::WriteRecord { path: p2, before: b2, after: a2 },
        ) => p1.same(p2) && same_maybe(b1, b2) && a1.same(a2),
        _ => false,
    }
}

/// The first operation writing a path.
fn find_at_path(ops: &Vec<Operation>, path: &crate::landing::path::TargetPath) -> (r: Option<usize>)
    ensures
        match r {
            Some(k) => first_at_path(ops@, path@) == Some(k as int) && k < ops@.len(),
            None => first_at_path(ops@, path@) is None,
        },
{
    let mut i: usize = 0;
    assert(ops@.skip(0) =~= ops@);
    while i < ops.len()
        invariant
            i <= ops.len(),
            first_at_path(ops@, path@) == match first_at_path(ops@.skip(i as int), path@) {
                Some(k) => Some(k + i),
                None => None,
            },
        decreases ops.len() - i,
    {
        assert(ops@.skip(i as int)[0] == ops@[i as int]);
        assert(ops@.skip(i as int).drop_first() =~= ops@.skip(i + 1));
        if ops[i].path().same(path) {
            return Some(i);
        }
        i += 1;
    }
    None
}

/// What the operator answered, by decision, as a map.
fn answers_map(decisions: &Vec<Decision>) -> (m: TextMap<String>)
    ensures
        m@ == answers_of(decisions@),
{
    let mut m: TextMap<String> = TextMap::new();
    let mut i: usize = 0;
    while i < decisions.len()
        invariant
            i <= decisions.len(),
            m@ == answers_of(decisions@.take(i as int)),
        decreases decisions.len() - i,
    {
        assert(decisions@.take(i + 1).drop_last() =~= decisions@.take(i as int));
        assert(decisions@.take(i + 1).last() == decisions@[i as int]);
        if let Some(answer) = &decisions[i].selected {
            m.insert(decisions[i].id.as_str(), answer.clone());
        }
        i += 1;
    }
    assert(decisions@.take(decisions.len() as int) =~= decisions@);
    m
}

/// Entries with the same keys and values stand for the same map.
proof fn lemma_same_entries_same_map(a: Seq<(String, String)>, b: Seq<(String, String)>)
    requires
        sorted_keys(a),
        sorted_keys(b),
        a.len() == b.len(),
        forall|i: int| 0 <= i < a.len() ==> (#[trigger] a[i]).0@ == b[i].0@ && a[i].1@ == b[i].1@,
    ensures
        entries_map(a) == entries_map(b),
{
    let ma = entries_map(a);
    let mb = entries_map(b);
    assert forall|k: Seq<char>| #[trigger] ma.dom().contains(k) <==> mb.dom().contains(k) by {
        if ma.dom().contains(k) {
            let c = crate::sorted_map::index_of_key(a, k);
            assert(b[c].0@ == k);
        }
        if mb.dom().contains(k) {
            let c = crate::sorted_map::index_of_key(b, k);
            assert(a[c].0@ == k);
        }
    }
    assert forall|k: Seq<char>| #[trigger] ma.dom().contains(k) implies ma[k] == mb[k] by {
        let c = crate::sorted_map::index_of_key(a, k);
        lemma_map_at(a, c);
        lemma_map_at(b, c);
    }
    assert(ma =~= mb);
}

/// Whether two answer maps hold the same answers.
fn same_answers(x: &TextMap<String>, y: &TextMap<String>) -> (r: bool)
    ensures
        r == (x@ == y@),
{
    let a = x.entries();
    let b = y.entries();
    if a.len() != b.len() {
        proof {
            if x@ == y@ {
                lemma_sorted_entries_canonical(a@, b@);
            }
        }
        return false;
    }
    let mut i: usize = 0;
    while i < a.len()
        invariant
            i <= a.len(),
            a.len() == b.len(),
            sorted_keys(a@),
            sorted_keys(b@),
            entries_map(a@) == x@,
            entries_map(b@) == y@,
            forall|j: int| 0 <= j < i ==> (#[trigger] a@[j]).0@ == b@[j].0@ && a@[j].1@ == b@[j].1@,
        decreases a.len() - i,
    {
        if !same_text(a[i].0.as_str(), b[i].0.as_str()) || !same_text(a[i].1.as_str(), b[i].1.as_str()) {
            proof {
                if x@ == y@ {
                    lemma_sorted_entries_canonical(a@, b@);
                    assert(a@[i as int].0@ == b@[i as int].0@);
                }
            }
            return false;
        }
        i += 1;
    }
    proof {
        lemma_same_entries_same_map(a@, b@);
    }
    true
}

/// A fresh string holding `a` then `b`.
fn text2(a: &str, b: &str) -> (out: String)
    ensures
        out@ == a@ + b@,
{
    let mut out = owned(a);
    append(&mut out, b);
    out
}

/// Every semantic input that moved between the plan and the apply.
///
/// Collected in one pass rather than reported one at a time, so an
/// operator learns the whole difference from one refusal.
pub fn moved(stored: &Plan, recomputed: &Plan) -> (r: Vec<String>)
    ensures
        crate::text::views_of(r@) == moved_spec(*stored, *recomputed),
{
    let mut moved: Vec<String> = Vec::new();
    let ghost mut expected: Seq<Seq<char>> = Seq::empty();
    if stored.classification != recomputed.classification {
        let mut line = owned("the target is now ");
        append(&mut line, recomputed.classification.as_str());
        append(&mut line, " and the plan described ");
        append(&mut line, stored.classification.as_str());
        moved.push(line);
    }
    if !stored.desired_state.release_sha256.same(&recomputed.desired_state.release_sha256) {
        moved.push(owned("the release the plan resolved is no longer the one it resolved"));
    }
    let record_same = match (&stored.observed_state.installation, &recomputed.observed_state.installation) {
        (Some(a), Some(b)) => a.record_sha256.same(&b.record_sha256),
        (None, None) => true,
        _ => false,
    };
    if !record_same {
        moved.push(owned("the instance record changed"));
    }
    let declaration_same = match (
        &stored.observed_state.installation,
        &recomputed.observed_state.installation,
    ) {
        (Some(a), Some(b)) => same_maybe(&a.declaration_sha256, &b.declaration_sha256),
        (Some(a), None) => a.declaration_sha256.is_none(),
        (None, Some(b)) => b.declaration_sha256.is_none(),
        (None, None) => true,
    };
    if !declaration_same {
        moved.push(owned("the project's declaration changed"));
    }
    let ghost head = crate::text::views_of(moved@);
    assert(head =~= when(
        stored.classification != recomputed.classification,
        "the target is now "@ + classification_word(recomputed.classification)
            + " and the plan described "@ + classification_word(stored.classification),
    ) + when(
        stored.desired_state.release_sha256@ != recomputed.desired_state.release_sha256@,
        "the release the plan resolved is no longer the one it resolved"@,
    ) + when(record_seen(*stored) != record_seen(*recomputed), "the instance record changed"@) + when(
        declaration_seen(*stored) != declaration_seen(*recomputed),
        "the project's declaration changed"@,
    ));
    let ops = &stored.operations;
    let now = &recomputed.operations;
    let mut i: usize = 0;
    while i < ops.len()
        invariant
            i <= ops.len(),
            ops@ == stored.operations@,
            now@ == recomputed.operations@,
            crate::text::views_of(moved@) == head + stored_moves(ops@.take(i as int), now@),
        decreases ops.len() - i,
    {
        let op = &ops[i];
        assert(ops@.take(i + 1).drop_last() =~= ops@.take(i as int));
        assert(ops@.take(i + 1).last() == ops@[i as int]);
        let ghost before = moved@;
        // The record restates the others and carries the moment of
        // installation, so a difference in it alone is not the world
        // moving. The operations it summarizes are checked here.
        if !matches!(op, Operation::WriteRecord { .. }) {
            match find_at_path(now, op.path()) {
                Some(k) => {
                    if !same_operation(&now[k], op) {
                        let line = text2(op.path().as_str(), " no longer needs what the plan described");
                        moved.push(line);
                        assert(crate::text::views_of(moved@) =~= crate::text::views_of(before).push(
                            path_of(*op)@ + " no longer needs what the plan described"@,
                        ));
                    }
                },
                None => {
                    let line = text2(op.path().as_str(), " is no longer part of the plan");
                    moved.push(line);
                    assert(crate::text::views_of(moved@) =~= crate::text::views_of(before).push(
                        path_of(*op)@ + " is no longer part of the plan"@,
                    ));
                },
            }
        }
        assert(crate::text::views_of(moved@) =~= head + stored_moves(ops@.take(i + 1), now@));
        i += 1;
    }
    assert(ops@.take(ops.len() as int) =~= ops@);
    let ghost middle = crate::text::views_of(moved@);
    let mut j: usize = 0;
    while j < now.len()
        invariant
            j <= now.len(),
            ops@ == stored.operations@,
            now@ == recomputed.operations@,
            crate::text::views_of(moved@) == middle + added_moves(now@.take(j as int), ops@),
        decreases now.len() - j,
    {
        let op = &now[j];
        assert(now@.take(j + 1).drop_last() =~= now@.take(j as int));
        assert(now@.take(j + 1).last() == now@[j as int]);
        let ghost before = moved@;
        if !matches!(op, Operation::WriteRecord { .. }) && find_at_path(ops, op.path()).is_none() {
            let line = text2(op.path().as_str(), " is newly part of the plan");
            moved.push(line);
            assert(crate::text::views_of(moved@) =~= crate::text::views_of(before).push(
                path_of(*op)@ + " is newly part of the plan"@,
            ));
        }
        assert(crate::text::views_of(moved@) =~= middle + added_moves(now@.take(j + 1), ops@));
        j += 1;
    }
    assert(now@.take(now.len() as int) =~= now@);
    let ghost tail = crate::text::views_of(moved@);
    let one = answers_map(&stored.decisions);
    let two = answers_map(&recomputed.decisions);
    if !same_answers(&one, &two) {
        moved.push(owned("a selected decision changed"));
    }
    assert(crate::text::views_of(moved@) =~= tail + when(
        answers_of(stored.decisions@) != answers_of(recomputed.decisions@),
        "a selected decision changed"@,
    ));
    moved
}


/// What an apply does with a reviewed plan before it writes anything.
#[derive(Debug)]
pub enum Admission {
    /// The plan no longer describes the target; the reason names what moved.
    Invalidated(String),
    /// The plan waits on a decision; the reason names each unanswered one.
    Waits(String),
    /// Something must change first; the reason names each blocking gate.
    Blocked(String),
    /// The plan writes nothing, and its postconditions are still proved.
    NothingToWrite,
    /// Stage, journal, replace, and prove.
    Execute,
}

/// The identifiers of the decisions nobody answered, in order.
pub open spec fn unanswered(ds: Seq<Decision>) -> Seq<Seq<char>>
    decreases ds.len(),
{
    if ds.len() == 0 {
        Seq::empty()
    } else if ds.last().selected is None {
        unanswered(ds.drop_last()).push(ds.last().id@)
    } else {
        unanswered(ds.drop_last())
    }
}

/// The identifiers of the required preconditions that do not hold, in
/// order.
pub open spec fn blocking(ps: Seq<Precondition>) -> Seq<Seq<char>>
    decreases ps.len(),
{
    if ps.len() == 0 {
        Seq::empty()
    } else if ps.last().requirement is Required && !(ps.last().evaluation is Satisfied) {
        blocking(ps.drop_last()).push(ps.last().id@)
    } else {
        blocking(ps.drop_last())
    }
}

/// What the moved inputs say, or that the identity alone changed.
pub open spec fn differences(stored: Plan, recomputed: Plan) -> Seq<Seq<char>> {
    let found = moved_spec(stored, recomputed);
    if found.len() > 0 {
        found
    } else {
        seq!["the plan's inputs no longer hash to "@ + stored.identity.plan_id@]
    }
}

/// The reason an invalidated plan refuses with.
pub open spec fn invalidated_reason(stored: Plan, recomputed: Plan) -> Seq<char> {
    "the plan no longer describes the target: "@ + joined(differences(stored, recomputed), "; "@)
}

/// The reason a plan waiting on decisions refuses with.
pub open spec fn waits_reason(stored: Plan) -> Seq<char> {
    "the plan waits on a decision: "@ + joined(unanswered(stored.decisions@), ", "@)
        + "; answer it with --set and plan again"@
}

/// The reason a blocked plan refuses with.
pub open spec fn blocked_reason(stored: Plan) -> Seq<char> {
    "the plan is blocked by "@ + joined(blocking(stored.preconditions@), ", "@)
}

/// What an apply does with a reviewed plan: the fingerprint decides
/// whether the world moved, and the moved inputs only explain it; then the
/// reviewed plan's readiness decides, and a ready plan with nothing to
/// write still proves its postconditions.
pub open spec fn admission_holds(r: Admission, stored: Plan, recomputed: Plan) -> bool {
    if stored.input_fingerprint@ != recomputed.input_fingerprint@ {
        r matches Admission::Invalidated(reason) && reason@ == invalidated_reason(stored, recomputed)
    } else {
        match stored.readiness {
            Readiness::NeedsDecision => r matches Admission::Waits(reason) && reason@ == waits_reason(
                stored,
            ),
            Readiness::Blocked => r matches Admission::Blocked(reason) && reason@ == blocked_reason(
                stored,
            ),
            Readiness::Ready => if stored.operations@.len() == 0 {
                r is NothingToWrite
            } else {
                r is Execute
            },
        }
    }
}

/// The identifiers of the decisions nobody answered.
fn unanswered_ids(decisions: &Vec<Decision>) -> (r: Vec<String>)
    ensures
        views_of(r@) == unanswered(decisions@),
{
    let mut r: Vec<String> = Vec::new();
    let mut i: usize = 0;
    while i < decisions.len()
        invariant
            i <= decisions.len(),
            views_of(r@) == unanswered(decisions@.take(i as int)),
        decreases decisions.len() - i,
    {
        assert(decisions@.take(i + 1).drop_last() =~= decisions@.take(i as int));
        assert(decisions@.take(i + 1).last() == decisions@[i as int]);
        if decisions[i].selected.is_none() {
            r.push(decisions[i].id.clone());
        }
        assert(views_of(r@) =~= unanswered(decisions@.take(i + 1)));
        i += 1;
    }
    assert(decisions@.take(decisions.len() as int) =~= decisions@);
    r
}

/// The identifiers of the required preconditions that do not hold.
fn blocking_ids(preconditions: &Vec<Precondition>) -> (r: Vec<String>)
    ensures
        views_of(r@) == blocking(preconditions@),
{
    let mut r: Vec<String> = Vec::new();
    let mut i: usize = 0;
    while i < preconditions.len()
        invariant
            i <= preconditions.len(),
            views_of(r@) == blocking(preconditions@.take(i as int)),
        decreases preconditions.len() - i,
    {
        assert(preconditions@.take(i + 1).drop_last() =~= preconditions@.take(i as int));
        assert(preconditions@.take(i + 1).last() == preconditions@[i as int]);
        let p = &preconditions[i];
        if matches!(p.requirement, Requirement::Required) && !p.evaluation.is_satisfied() {
            r.push(p.id.clone());
        }
        assert(views_of(r@) =~= blocking(preconditions@.take(i + 1)));
        i += 1;
    }
    assert(preconditions@.take(preconditions.len() as int) =~= preconditions@);
    r
}

/// Decide what an apply does with a reviewed plan and the same plan
/// computed again just now.
///
/// The fingerprint is the identity an approval bound to, so it decides.
/// The moved inputs only explain a difference the digest already proved:
/// a projection field they do not restate, the target's own path among
/// them, would otherwise let a plan approved for one repository execute
/// against another.
pub fn admission(stored: &Plan, recomputed: &Plan) -> (r: Admission)
    ensures
        admission_holds(r, *stored, *recomputed),
{
    if !stored.input_fingerprint.same(&recomputed.input_fingerprint) {
        let mut found = moved(stored, recomputed);
        if found.len() == 0 {
            let mut line = owned("the plan's inputs no longer hash to ");
            append(&mut line, stored.identity.plan_id.as_str());
            found.push(line);
            assert(views_of(found@) =~= differences(*stored, *recomputed));
        }
        let mut reason = owned("the plan no longer describes the target: ");
        append(&mut reason, join_texts(&found, "; ").as_str());
        return Admission::Invalidated(reason);
    }
    match stored.readiness {
        Readiness::NeedsDecision => {
            let ids = unanswered_ids(&stored.decisions);
            let mut reason = owned("the plan waits on a decision: ");
            append(&mut reason, join_texts(&ids, ", ").as_str());
            append(&mut reason, "; answer it with --set and plan again");
            Admission::Waits(reason)
        },
        Readiness::Blocked => {
            let ids = blocking_ids(&stored.preconditions);
            let mut reason = owned("the plan is blocked by ");
            append(&mut reason, join_texts(&ids, ", ").as_str());
            Admission::Blocked(reason)
        },
        Readiness::Ready => {
            if stored.operations.len() == 0 {
                Admission::NothingToWrite
            } else {
                Admission::Execute
            }
        },
    }
}

/// The word a disposition is written as in a result's identifier.
pub open spec fn disposition_word(d: Disposition) -> Seq<char> {
    match d {
        Disposition::Succeeded => "succeeded"@,
        Disposition::Invalidated => "invalidated"@,
        Disposition::Retryable => "retryable"@,
        Disposition::RecoveryRequired => "recovery-required"@,
    }
}

/// The word a disposition is written as in a result's identifier.
pub fn disposition_slug(d: Disposition) -> (r: &'static str)
    ensures
        r@ == disposition_word(d),
{
    match d {
        Disposition::Succeeded => "succeeded",
        Disposition::Invalidated => "invalidated",
        Disposition::Retryable => "retryable",
        Disposition::RecoveryRequired => "recovery-required",
    }
}

/// A moment with every `:` and `.` turned into `-`.
pub open spec fn dashed(now: Seq<char>) -> Seq<char> {
    now.map_values(|c: char| if c == ':' || c == '.' { '-' } else { c })
}

/// One result, with everything but the outcome lists filled in.
pub fn terminal(plan: &Plan, now: &str, disposition: Disposition, reason: &str) -> (r: ApplyResult)
    ensures
        r.schema@ == RESULT_SCHEMA@,
        r.plan_id@ == plan.identity.plan_id@,
        r.fingerprint@ == plan.input_fingerprint@,
        r.result_id@ == dashed(now@) + "-"@ + disposition_word(disposition),
        r.disposition == disposition,
        r.finished_at@ == now@,
        r.operations@.len() == 0,
        r.postconditions@.len() == 0,
        r.recovery_required == (disposition is RecoveryRequired),
        r.affected@.len() == 0,
        r.reason@ == reason@,
{
    let chars = crate::text::chars_of(now);
    let mut id = String::new();
    let mut i: usize = 0;
    while i < chars.len()
        invariant
            i <= chars.len(),
            chars@ == now@,
            id@ == dashed(now@.take(i as int)),
        decreases chars.len() - i,
    {
        let c = chars[i];
        push_char(&mut id, if c == ':' || c == '.' { '-' } else { c });
        assert(dashed(now@.take(i + 1)) =~= dashed(now@.take(i as int)).push(
            if c == ':' || c == '.' { '-' } else { c },
        ));
        i += 1;
    }
    assert(now@.take(i as int) =~= now@);
    append(&mut id, "-");
    append(&mut id, disposition_slug(disposition));
    ApplyResult {
        schema: owned(RESULT_SCHEMA),
        plan_id: plan.identity.plan_id.clone(),
        fingerprint: plan.input_fingerprint.copied(),
        result_id: id,
        disposition,
        finished_at: owned(now),
        operations: Vec::new(),
        postconditions: Vec::new(),
        recovery_required: matches!(disposition, Disposition::RecoveryRequired),
        affected: Vec::new(),
        reason: owned(reason),
    }
}

/// The reason an apply aborts with when a postcondition did not hold.
pub fn aborted_reason(first: &PostconditionOutcome) -> (r: String)
    ensures
        r@ == "apply aborted: the postcondition "@ + first.id@ + " did not hold: "@ + match first.detail {
            Some(d) => d@,
            None => Seq::<char>::empty(),
        },
{
    let mut r = owned("apply aborted: the postcondition ");
    append(&mut r, first.id.as_str());
    append(&mut r, " did not hold: ");
    if let Some(d) = &first.detail {
        append(&mut r, d.as_str());
    }
    r
}


/// What verifying the target reported, for the proof that it passes.
#[derive(Debug)]
pub enum Verified {
    /// The verification ran: how many failures, and every line it printed.
    Ran {
        /// How many lines are failures.
        failures: usize,
        /// Every line, in order.
        lines: Vec<String>,
    },
    /// The verification could not run, for this reason.
    CouldNotRun(String),
}

/// The destinations that do not hold what the plan said they would, in
/// plan order: each operation whose destination holds another digest than
/// the one it leaves, or any file where it leaves none.
pub open spec fn wrong_destinations(ops: Seq<Operation>, found: Seq<Option<Sha256>>) -> Seq<Seq<char>>
    decreases ops.len(),
{
    if ops.len() == 0 {
        Seq::empty()
    } else {
        let before = wrong_destinations(ops.drop_last(), found);
        let i = ops.len() - 1;
        if digest_view(found[i]) != digest_view(crate::plan::operation::after_of(ops[i])) {
            before.push(path_of(ops[i])@)
        } else {
            before
        }
    }
}

/// What one postcondition's check found.
pub open spec fn proof_of(id: Seq<char>, ops: Seq<Operation>, found: Seq<Option<Sha256>>, verified: Verified) -> (bool, Option<Seq<char>>) {
    if id == "record-matches-the-tree"@ {
        let wrong = wrong_destinations(ops, found);
        if wrong.len() == 0 {
            (true, None)
        } else {
            (false, Some("these destinations do not hold the plan's digest: "@ + joined(wrong, ", "@)))
        }
    } else if id == "verification-passes"@ {
        match verified {
            Verified::Ran { failures, lines } => if failures == 0 {
                (true, None)
            } else {
                (false, Some("sdd verify reports "@ + decimal(failures as nat) + " failure(s): "@ + joined(
                    views_of(lines@),
                    "; "@,
                )))
            },
            Verified::CouldNotRun(m) => (false, Some("sdd verify could not run: "@ + m@)),
        }
    } else {
        (false, Some(id + " has no check behind it in this engine"@))
    }
}

/// Whether an outcome is what a postcondition's check found.
pub open spec fn outcome_is(o: PostconditionOutcome, id: Seq<char>, found: (bool, Option<Seq<char>>)) -> bool {
    &&& o.id@ == id
    &&& o.held == found.0
    &&& match found.1 {
        Some(d) => o.detail matches Some(t) && t@ == d,
        None => o.detail is None,
    }
}

/// The destinations that do not hold what the plan said they would.
fn wrong_of(ops: &Vec<Operation>, found: &Vec<Option<Sha256>>) -> (r: Vec<String>)
    requires
        found@.len() == ops@.len(),
    ensures
        views_of(r@) == wrong_destinations(ops@, found@),
{
    let mut r: Vec<String> = Vec::new();
    let mut i: usize = 0;
    while i < ops.len()
        invariant
            i <= ops.len(),
            found@.len() == ops@.len(),
            views_of(r@) == wrong_destinations(ops@.take(i as int), found@),
        decreases ops.len() - i,
    {
        assert(ops@.take(i + 1).drop_last() =~= ops@.take(i as int));
        assert(ops@.take(i + 1)[i as int] == ops@[i as int]);
        let after = ops[i].after();
        let same = match (&found[i], after) {
            (Some(x), Some(y)) => x.same(y),
            (None, None) => true,
            _ => false,
        };
        if !same {
            let ghost before = views_of(r@);
            let p = owned(ops[i].path().as_str());
            r.push(p);
            assert(views_of(r@) =~= before.push(p@));
        }
        i += 1;
    }
    assert(ops@.take(ops.len() as int) =~= ops@);
    r
}

/// Check every postcondition the plan claims, from what each destination
/// holds now, in plan order, and what verifying the target reported. A
/// postcondition nothing checks is not one that held.
pub fn prove(plan: &Plan, found: &Vec<Option<Sha256>>, verified: &Verified) -> (r: Vec<PostconditionOutcome>)
    requires
        found@.len() == plan.operations@.len(),
    ensures
        r@.len() == plan.postconditions@.len(),
        forall|k: int| 0 <= k < r@.len() ==> outcome_is(
            #[trigger] r@[k],
            plan.postconditions@[k].id@,
            proof_of(plan.postconditions@[k].id@, plan.operations@, found@, *verified),
        ),
{
    proof {
        reveal_strlit("record-matches-the-tree");
        reveal_strlit("verification-passes");
    }
    let mut r: Vec<PostconditionOutcome> = Vec::new();
    let mut k: usize = 0;
    while k < plan.postconditions.len()
        invariant
            k <= plan.postconditions.len(),
            found@.len() == plan.operations@.len(),
            r@.len() == k,
            forall|q: int| 0 <= q < k ==> outcome_is(
                #[trigger] r@[q],
                plan.postconditions@[q].id@,
                proof_of(plan.postconditions@[q].id@, plan.operations@, found@, *verified),
            ),
        decreases plan.postconditions.len() - k,
    {
        let id = plan.postconditions[k].id.as_str();
        let outcome = if same_text(id, "record-matches-the-tree") {
            let wrong = wrong_of(&plan.operations, found);
            if wrong.len() == 0 {
                PostconditionOutcome { id: owned(id), held: true, detail: None }
            } else {
                let mut d = owned("these destinations do not hold the plan's digest: ");
                append(&mut d, join_texts(&wrong, ", ").as_str());
                PostconditionOutcome { id: owned(id), held: false, detail: Some(d) }
            }
        } else if same_text(id, "verification-passes") {
            match verified {
                Verified::Ran { failures, lines } => {
                    if *failures == 0 {
                        PostconditionOutcome { id: owned(id), held: true, detail: None }
                    } else {
                        let mut d = owned("sdd verify reports ");
                        push_decimal(&mut d, *failures as u64);
                        append(&mut d, " failure(s): ");
                        append(&mut d, join_texts(lines, "; ").as_str());
                        PostconditionOutcome { id: owned(id), held: false, detail: Some(d) }
                    }
                },
                Verified::CouldNotRun(m) => {
                    let mut d = owned("sdd verify could not run: ");
                    append(&mut d, m.as_str());
                    PostconditionOutcome { id: owned(id), held: false, detail: Some(d) }
                },
            }
        } else {
            let mut d = owned(id);
            append(&mut d, " has no check behind it in this engine");
            PostconditionOutcome { id: owned(id), held: false, detail: Some(d) }
        };
        r.push(outcome);
        k += 1;
    }
    r
}

/// The first postcondition that did not hold, where one did not.
pub open spec fn first_failed(os: Seq<PostconditionOutcome>) -> Option<int>
    decreases os.len(),
{
    if os.len() == 0 {
        None
    } else {
        match first_failed(os.drop_last()) {
            Some(i) => Some(i),
            None => if !os.last().held {
                Some(os.len() - 1)
            } else {
                None
            },
        }
    }
}

/// How an apply with nothing to write ends: succeeded where every
/// postcondition held, and retryable, naming the first that did not,
/// otherwise.
pub fn settle(outcomes: &Vec<PostconditionOutcome>) -> (r: (Disposition, String))
    ensures
        match first_failed(outcomes@) {
            None => r.0 == Disposition::Succeeded && r.1@ == "the target already holds what the plan describes"@,
            Some(i) => r.0 == Disposition::Retryable && r.1@ == "apply aborted: the postcondition "@
                + outcomes@[i].id@ + " did not hold: "@ + match outcomes@[i].detail {
                Some(d) => d@,
                None => Seq::<char>::empty(),
            },
        },
{
    let mut i: usize = 0;
    while i < outcomes.len()
        invariant
            i <= outcomes.len(),
            first_failed(outcomes@.take(i as int)) is None,
        decreases outcomes.len() - i,
    {
        assert(outcomes@.take(i + 1).drop_last() =~= outcomes@.take(i as int));
        if !outcomes[i].held {
            proof {
                assert(first_failed(outcomes@.take(i + 1)) == Some(i as int));
                lemma_failed_prefix(outcomes@, i + 1);
            }
            return (Disposition::Retryable, aborted_reason(&outcomes[i]));
        }
        i += 1;
    }
    assert(outcomes@.take(outcomes.len() as int) =~= outcomes@);
    (Disposition::Succeeded, owned("the target already holds what the plan describes"))
}

proof fn lemma_failed_prefix(os: Seq<PostconditionOutcome>, n: int)
    requires
        0 <= n <= os.len(),
        first_failed(os.take(n)) is Some,
    ensures
        first_failed(os) == first_failed(os.take(n)),
    decreases os.len(),
{
    if n == os.len() {
        assert(os.take(n) =~= os);
    } else {
        assert(os.drop_last().take(n) =~= os.take(n));
        lemma_failed_prefix(os.drop_last(), n);
    }
}

/// An operation writing a path is found, at its own index where no
/// earlier operation writes the path.
proof fn lemma_first_at_path(s: Seq<Operation>, i: int)
    requires
        0 <= i < s.len(),
    ensures
        first_at_path(s, path_of(s[i])@) is Some,
        (forall|j: int| 0 <= j < i ==> path_of(#[trigger] s[j])@ != path_of(s[i])@)
            ==> first_at_path(s, path_of(s[i])@) == Some(i),
    decreases i,
{
    if i > 0 {
        if path_of(s[0])@ != path_of(s[i])@ {
            let t = s.drop_first();
            assert(t[i - 1] == s[i]);
            lemma_first_at_path(t, i - 1);
            if forall|j: int| 0 <= j < i ==> path_of(#[trigger] s[j])@ != path_of(s[i])@ {
                assert forall|j: int| 0 <= j < i - 1 implies path_of(#[trigger] t[j])@ != path_of(
                    t[i - 1],
                )@ by {
                    assert(t[j] == s[j + 1]);
                }
            }
        }
    }
}

/// The reviewed operations, checked against themselves, report nothing.
proof fn lemma_no_stored_moves(ops: Seq<Operation>, all: Seq<Operation>, n: int)
    requires
        0 <= n <= all.len(),
        ops == all.take(n),
        forall|a: int, b: int| !#[trigger] shares_destination(all, a, b),
    ensures
        stored_moves(ops, all).len() == 0,
    decreases n,
{
    if n > 0 {
        assert(ops.drop_last() =~= all.take(n - 1));
        lemma_no_stored_moves(ops.drop_last(), all, n - 1);
        let i = n - 1;
        assert(ops.last() == all[i]);
        lemma_first_at_path(all, i);
        assert forall|j: int| 0 <= j < i implies path_of(all[j])@ != path_of(all[i])@ by {
            assert(!shares_destination(all, j, i));
        }
    }
}

/// The operations computed just now, checked against themselves, are none
/// of them new.
proof fn lemma_no_added_moves(now: Seq<Operation>, all: Seq<Operation>, n: int)
    requires
        0 <= n <= all.len(),
        now == all.take(n),
    ensures
        added_moves(now, all).len() == 0,
    decreases n,
{
    if n > 0 {
        assert(now.drop_last() =~= all.take(n - 1));
        lemma_no_added_moves(now.drop_last(), all, n - 1);
        assert(now.last() == all[n - 1]);
        lemma_first_at_path(all, n - 1);
    }
}

/// Nothing moved between a plan and itself: an apply re-checking a plan
/// whose destinations are each written once finds no difference to report.
pub proof fn law_nothing_moved(p: Plan)
    requires
        forall|a: int, b: int| !#[trigger] shares_destination(p.operations@, a, b),
    ensures
        moved_spec(p, p).len() == 0,
{
    assert(p.operations@.take(p.operations@.len() as int) =~= p.operations@);
    lemma_no_stored_moves(p.operations@, p.operations@, p.operations@.len() as int);
    lemma_no_added_moves(p.operations@, p.operations@, p.operations@.len() as int);
}

/// Why a write stopped the run: the destination and the cause.
pub open spec fn write_failure(path: Seq<char>, cause: Seq<char>) -> Seq<char> {
    path + " could not be written: "@ + cause
}

/// What a write that failed leaves, once the journal was rolled back: a
/// target put back can take the same plan again, and one that could not
/// be put back must be recovered first. The recorded reason names the
/// destination and the cause; the refusal adds whether the target was put
/// back and, where not, why.
pub fn after_failed_write(path: &str, cause: &str, restored: Result<(), String>) -> (r: (Disposition, String, AppError))
    ensures
        r.1@ == write_failure(path@, cause@),
        match restored {
            Ok(()) => r.0 == Disposition::Retryable && r.2@ == Fault::Refused(
                write_failure(path@, cause@) + "; the target was put back"@,
            ),
            Err(failure) => r.0 == Disposition::RecoveryRequired && r.2@ == Fault::Unrecovered(
                write_failure(path@, cause@) + "; the target could not be put back: "@ + failure@,
            ),
        },
{
    let mut reason = owned(path);
    append(&mut reason, " could not be written: ");
    append(&mut reason, cause);
    let mut said = owned(reason.as_str());
    match restored {
        Ok(()) => {
            append(&mut said, "; the target was put back");
            (Disposition::Retryable, reason, AppError::Refused(said))
        },
        Err(failure) => {
            append(&mut said, "; the target could not be put back: ");
            append(&mut said, failure.as_str());
            (Disposition::RecoveryRequired, reason, AppError::Unrecovered(said))
        },
    }
}

/// Whether the digest found at a destination is the one an operation
/// leaves there: both present and spelled alike, or both absent.
pub open spec fn holds_what_it_leaves(found: Option<Sha256>, leaves: Option<Sha256>) -> bool {
    match (found, leaves) {
        (Some(x), Some(y)) => x@ == y@,
        (None, None) => true,
        _ => false,
    }
}

proof fn lemma_wrong_empty(ops: Seq<Operation>, found: Seq<Option<Sha256>>)
    requires
        found.len() == ops.len(),
    ensures
        wrong_destinations(ops, found).len() == 0 <==> forall|i: int|
            0 <= i < ops.len() ==> holds_what_it_leaves(#[trigger] found[i], crate::plan::operation::after_of(ops[i])),
    decreases ops.len(),
{
    if ops.len() > 0 {
        let shorter = found.drop_last();
        lemma_wrong_prefix(ops, found);
        lemma_wrong_empty(ops.drop_last(), shorter);
        let n = ops.len() - 1;
        assert(holds_what_it_leaves(found[n], crate::plan::operation::after_of(ops[n])) == (digest_view(found[n])
            == digest_view(crate::plan::operation::after_of(ops[n]))));
        if wrong_destinations(ops, found).len() == 0 {
            assert forall|i: int| 0 <= i < ops.len() implies holds_what_it_leaves(
                #[trigger] found[i],
                crate::plan::operation::after_of(ops[i]),
            ) by {
                if i < n {
                    assert(shorter[i] == found[i]);
                    assert(ops.drop_last()[i] == ops[i]);
                }
            }
        } else {
            if forall|i: int|
                0 <= i < ops.len() ==> holds_what_it_leaves(#[trigger] found[i], crate::plan::operation::after_of(ops[i])) {
                assert forall|i: int| 0 <= i < ops.drop_last().len() implies holds_what_it_leaves(
                    #[trigger] shorter[i],
                    crate::plan::operation::after_of(ops.drop_last()[i]),
                ) by {
                    assert(shorter[i] == found[i]);
                    assert(ops.drop_last()[i] == ops[i]);
                }
                assert(holds_what_it_leaves(found[n], crate::plan::operation::after_of(ops[n])));
            }
        }
    }
}

proof fn lemma_wrong_prefix(ops: Seq<Operation>, found: Seq<Option<Sha256>>)
    requires
        found.len() == ops.len(),
        ops.len() > 0,
    ensures
        wrong_destinations(ops.drop_last(), found) == wrong_destinations(ops.drop_last(), found.drop_last()),
{
    lemma_wrong_reads_prefix(ops.drop_last(), found, found.drop_last());
}

proof fn lemma_wrong_reads_prefix(ops: Seq<Operation>, a: Seq<Option<Sha256>>, b: Seq<Option<Sha256>>)
    requires
        ops.len() <= a.len(),
        ops.len() <= b.len(),
        forall|i: int| 0 <= i < ops.len() ==> a[i] == b[i],
    ensures
        wrong_destinations(ops, a) == wrong_destinations(ops, b),
    decreases ops.len(),
{
    if ops.len() > 0 {
        lemma_wrong_reads_prefix(ops.drop_last(), a, b);
    }
}

/// The record matches the tree exactly when every destination holds the
/// digest its operation leaves there: a destination that is absent where
/// the operation leaves bytes, or that holds other bytes, fails it, and
/// the failure names each such destination in plan order.
pub proof fn law_the_record_matches_only_a_tree_that_holds_every_digest(
    ops: Seq<Operation>,
    found: Seq<Option<Sha256>>,
    verified: Verified,
)
    requires
        found.len() == ops.len(),
    ensures
        proof_of("record-matches-the-tree"@, ops, found, verified).0 <==> forall|i: int|
            0 <= i < ops.len() ==> holds_what_it_leaves(#[trigger] found[i], crate::plan::operation::after_of(ops[i])),
        forall|i: int|
            0 <= i < ops.len() && !holds_what_it_leaves(#[trigger] found[i], crate::plan::operation::after_of(ops[i]))
                ==> wrong_destinations(ops, found).contains(path_of(ops[i])@),
{
    lemma_wrong_empty(ops, found);
    lemma_wrong_names(ops, found);
}

proof fn lemma_wrong_names(ops: Seq<Operation>, found: Seq<Option<Sha256>>)
    requires
        found.len() == ops.len(),
    ensures
        forall|i: int|
            0 <= i < ops.len() && !holds_what_it_leaves(#[trigger] found[i], crate::plan::operation::after_of(ops[i]))
                ==> wrong_destinations(ops, found).contains(path_of(ops[i])@),
    decreases ops.len(),
{
    if ops.len() > 0 {
        let n = ops.len() - 1;
        lemma_wrong_prefix(ops, found);
        lemma_wrong_names(ops.drop_last(), found.drop_last());
        let before = wrong_destinations(ops.drop_last(), found);
        assert forall|i: int|
            0 <= i < ops.len() && !holds_what_it_leaves(#[trigger] found[i], crate::plan::operation::after_of(ops[i]))
                implies wrong_destinations(ops, found).contains(path_of(ops[i])@) by {
            if i < n {
                assert(found.drop_last()[i] == found[i]);
                assert(ops.drop_last()[i] == ops[i]);
                let j = choose|j: int| 0 <= j < before.len() && before[j] == path_of(ops[i])@;
                if digest_view(found[n]) != digest_view(crate::plan::operation::after_of(ops[n])) {
                    assert(before.push(path_of(ops[n])@)[j] == before[j]);
                }
            } else {
                let w = before.push(path_of(ops[n])@);
                assert(w[w.len() - 1] == path_of(ops[n])@);
            }
        }
    }
}

} // verus!
