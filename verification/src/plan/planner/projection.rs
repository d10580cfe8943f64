//! Exactly the parts of a plan that decide what the apply would do, and
//! what the plan observed.
//!
//! Timestamps, presentation text, and advisory evidence are out of the
//! projection: a plan recomputed a second later must carry the same
//! identity, or an approval could never survive the moment it was given.

use vstd::prelude::*;

use crate::digest::Sha256;
use crate::landing::observe::{digest_view, Installation};
use crate::plan::classify::{classification_word, Classification};
use crate::plan::decision::Decision;
use crate::plan::evidence::{Evidence, Ledger, Producer};
use crate::plan::fingerprint::{
    canonical_text, law_map_order_irrelevant, entries_assoc, keys_strictly_sorted, lemma_model_entries, lemma_model_list, model, model_list,
    Json, Value,
};
use crate::plan::operation::{after_of, before_of, kind_of, path_of, Operation};
use crate::plan::readiness::{Evaluation, Precondition, Requirement};
use crate::plan::PLAN_SCHEMA;
use crate::text::{owned, views_of};

verus! {

/// A digest, or null where there is none.
pub open spec fn digest_json(d: Option<Sha256>) -> Json {
    match d {
        Some(x) => Json::Text(x@),
        None => Json::Null,
    }
}

/// A text, or null where there is none.
pub open spec fn text_json(t: Option<Seq<char>>) -> Json {
    match t {
        Some(x) => Json::Text(x),
        None => Json::Null,
    }
}

/// One operation as the projection reads it: its digests, kind, and path.
pub open spec fn op_json(op: Operation) -> Json {
    Json::Object(
        seq![
            ("after"@, digest_json(after_of(op))),
            ("before"@, digest_json(before_of(op))),
            ("kind"@, Json::Text(kind_of(op))),
            ("path"@, Json::Text(path_of(op)@)),
        ],
    )
}

/// Every operation but the record's, as the projection reads it. The
/// record is a function of every other operation plus the moment of
/// installation, and the moment is exactly what the fingerprint excludes.
pub open spec fn ops_json(ops: Seq<Operation>) -> Seq<Json>
    decreases ops.len(),
{
    if ops.len() == 0 {
        Seq::empty()
    } else if ops.last() is WriteRecord {
        ops_json(ops.drop_last())
    } else {
        ops_json(ops.drop_last()).push(op_json(ops.last()))
    }
}

/// The word an evaluation's state is written as.
pub open spec fn state_word(e: Evaluation) -> Seq<char> {
    match e {
        Evaluation::Satisfied => "satisfied"@,
        Evaluation::NotObserved { .. } => "not-observed"@,
        Evaluation::Unsatisfied { .. } => "unsatisfied"@,
    }
}

/// Every precondition that can change readiness or operations, as the
/// projection reads it: its identifier and state. An advisory one cannot.
pub open spec fn gates_json(ps: Seq<Precondition>) -> Seq<Json>
    decreases ps.len(),
{
    if ps.len() == 0 {
        Seq::empty()
    } else if ps.last().requirement is Advisory {
        gates_json(ps.drop_last())
    } else {
        gates_json(ps.drop_last()).push(
            Json::Object(
                seq![
                    ("id"@, Json::Text(ps.last().id@)),
                    ("state"@, Json::Text(state_word(ps.last().evaluation))),
                ],
            ),
        )
    }
}

/// Every answered decision's answer, by identifier, a later decision with
/// the same identifier replacing an earlier one.
pub open spec fn answers_json(ds: Seq<Decision>) -> Map<Seq<char>, Json>
    decreases ds.len(),
{
    if ds.len() == 0 {
        Map::empty()
    } else {
        match ds.last().selected {
            Some(a) => answers_json(ds.drop_last()).insert(ds.last().id@, Json::Text(a@)),
            None => answers_json(ds.drop_last()),
        }
    }
}

/// Whether `v` is the projection of a plan with these parts: an object
/// holding, in key order, the classification, the answered decisions, the
/// declaration digest, the operations, the gating preconditions, the record
/// digest, the release and its digest, the schema, and the target.
pub open spec fn projection_is(
    v: Value,
    classification: Classification,
    release: Seq<char>,
    release_sha256: Seq<char>,
    target: Seq<char>,
    installation: Option<Installation>,
    ops: Seq<Operation>,
    ps: Seq<Precondition>,
    ds: Seq<Decision>,
) -> bool {
    &&& v is Object
    &&& {
        let es = v->Object_0@;
        &&& es.len() == 10
        &&& es[0].0@ == "classification"@ && model(es[0].1) == Json::Text(
            classification_word(classification),
        )
        &&& es[1].0@ == "decisions"@ && es[1].1 is Object && keys_strictly_sorted(es[1].1->Object_0@)
            && entries_assoc(es[1].1->Object_0@) == answers_json(ds)
        &&& es[2].0@ == "declaration"@ && model(es[2].1) == text_json(
            match installation {
                Some(i) => digest_view(i.declaration_sha256),
                None => None,
            },
        )
        &&& es[3].0@ == "operations"@ && model(es[3].1) == Json::List(ops_json(ops))
        &&& es[4].0@ == "preconditions"@ && model(es[4].1) == Json::List(gates_json(ps))
        &&& es[5].0@ == "record"@ && model(es[5].1) == text_json(
            match installation {
                Some(i) => Some(i.record_sha256@),
                None => None,
            },
        )
        &&& es[6].0@ == "release"@ && model(es[6].1) == Json::Text(release)
        &&& es[7].0@ == "release_sha256"@ && model(es[7].1) == Json::Text(release_sha256)
        &&& es[8].0@ == "schema"@ && model(es[8].1) == Json::Text(PLAN_SCHEMA@)
        &&& es[9].0@ == "target"@ && model(es[9].1) == Json::Text(target)
    }
}

/// A list's model grows by the model of what is pushed.
proof fn lemma_list_push(before: Seq<Value>, x: Value)
    ensures
        model_list(before.push(x)) == model_list(before).push(model(x)),
{
    lemma_model_list(before);
    lemma_model_list(before.push(x));
    assert(model_list(before.push(x)) =~= model_list(before).push(model(x)));
}

/// A digest as a value, or null.
fn digest_value(d: Option<&Sha256>) -> (v: Value)
    ensures
        model(v) == match d {
            Some(x) => Json::Text(x@),
            None => Json::Null,
        },
{
    match d {
        Some(x) => Value::text(x.as_str()),
        None => Value::Null,
    }
}

/// One operation as the projection reads it.
fn op_value(op: &Operation) -> (v: Value)
    ensures
        model(v) == op_json(*op),
{
    let entries = vec![
        (owned("after"), digest_value(op.after())),
        (owned("before"), digest_value(op.before())),
        (owned("kind"), Value::text(op.kind())),
        (owned("path"), Value::text(op.path().as_str())),
    ];
    let v = Value::Object(entries);
    proof {
        lemma_model_entries(entries@);
        assert(crate::plan::fingerprint::model_entries(entries@) =~= seq![
            ("after"@, digest_json(after_of(*op))),
            ("before"@, digest_json(before_of(*op))),
            ("kind"@, Json::Text(kind_of(*op))),
            ("path"@, Json::Text(path_of(*op)@)),
        ]);
    }
    v
}

/// Every operation but the record's.
fn ops_value(operations: &[Operation]) -> (v: Value)
    ensures
        model(v) == Json::List(ops_json(operations@)),
{
    let mut items: Vec<Value> = Vec::new();
    let mut i: usize = 0;
    while i < operations.len()
        invariant
            i <= operations.len(),
            model_list(items@) == ops_json(operations@.take(i as int)),
        decreases operations.len() - i,
    {
        assert(operations@.take(i + 1).drop_last() =~= operations@.take(i as int));
        assert(operations@.take(i + 1).last() == operations@[i as int]);
        if !matches!(operations[i], Operation::WriteRecord { .. }) {
            let ghost before = items@;
            items.push(op_value(&operations[i]));
            proof {
                lemma_list_push(before, items@.last());
                assert(items@ == before.push(items@.last()));
            }
        }
        i += 1;
    }
    assert(operations@.take(operations.len() as int) =~= operations@);
    Value::List(items)
}

/// One gating precondition as the projection reads it.
fn gate_value(p: &Precondition) -> (v: Value)
    ensures
        model(v) == Json::Object(
            seq![("id"@, Json::Text(p.id@)), ("state"@, Json::Text(state_word(p.evaluation)))],
        ),
{
    let state = match &p.evaluation {
        Evaluation::Satisfied => "satisfied",
        Evaluation::NotObserved { .. } => "not-observed",
        Evaluation::Unsatisfied { .. } => "unsatisfied",
    };
    let entries = vec![(owned("id"), Value::text(p.id.as_str())), (owned("state"), Value::text(state))];
    let v = Value::Object(entries);
    proof {
        lemma_model_entries(entries@);
        assert(crate::plan::fingerprint::model_entries(entries@) =~= seq![
            ("id"@, Json::Text(p.id@)),
            ("state"@, Json::Text(state_word(p.evaluation))),
        ]);
    }
    v
}

/// Every precondition but the advisory ones.
fn gates_value(preconditions: &[Precondition]) -> (v: Value)
    ensures
        model(v) == Json::List(gates_json(preconditions@)),
{
    let mut items: Vec<Value> = Vec::new();
    let mut i: usize = 0;
    while i < preconditions.len()
        invariant
            i <= preconditions.len(),
            model_list(items@) == gates_json(preconditions@.take(i as int)),
        decreases preconditions.len() - i,
    {
        assert(preconditions@.take(i + 1).drop_last() =~= preconditions@.take(i as int));
        assert(preconditions@.take(i + 1).last() == preconditions@[i as int]);
        if !matches!(preconditions[i].requirement, Requirement::Advisory) {
            let ghost before = items@;
            items.push(gate_value(&preconditions[i]));
            proof {
                lemma_list_push(before, items@.last());
                assert(items@ == before.push(items@.last()));
            }
        }
        i += 1;
    }
    assert(preconditions@.take(preconditions.len() as int) =~= preconditions@);
    Value::List(items)
}

/// Every answered decision's answer, by identifier.
fn answers_value(decisions: &[Decision]) -> (v: Value)
    ensures
        v is Object,
        keys_strictly_sorted(v->Object_0@),
        entries_assoc(v->Object_0@) == answers_json(decisions@),
{
    let mut pairs: Vec<(&str, Value)> = Vec::new();
    let mut i: usize = 0;
    while i < decisions.len()
        invariant
            i <= decisions.len(),
            crate::plan::fingerprint::pairs_assoc(pairs@) == answers_json(decisions@.take(i as int)),
        decreases decisions.len() - i,
    {
        assert(decisions@.take(i + 1).drop_last() =~= decisions@.take(i as int));
        assert(decisions@.take(i + 1).last() == decisions@[i as int]);
        if let Some(answer) = &decisions[i].selected {
            let ghost before = pairs@;
            pairs.push((decisions[i].id.as_str(), Value::text(answer.as_str())));
            assert(pairs@.drop_last() == before);
        }
        i += 1;
    }
    assert(decisions@.take(decisions.len() as int) =~= decisions@);
    Value::map(pairs)
}

/// Exactly the parts that decide what the apply would do.
pub fn inputs_projection(
    classification: Classification,
    release: &str,
    release_sha256: &Sha256,
    target: &str,
    installation: &Option<Installation>,
    operations: &[Operation],
    preconditions: &[Precondition],
    decisions: &[Decision],
) -> (v: Value)
    ensures
        projection_is(
            v,
            classification,
            release@,
            release_sha256@,
            target@,
            *installation,
            operations@,
            preconditions@,
            decisions@,
        ),
{
    let (record, declaration) = match installation {
        Some(i) => (Value::text(i.record_sha256.as_str()), digest_value(i.declaration_sha256.as_ref())),
        None => (Value::Null, Value::Null),
    };
    let entries = vec![
        (owned("classification"), Value::text(classification.as_str())),
        (owned("decisions"), answers_value(decisions)),
        (owned("declaration"), declaration),
        (owned("operations"), ops_value(operations)),
        (owned("preconditions"), gates_value(preconditions)),
        (owned("record"), record),
        (owned("release"), Value::text(release)),
        (owned("release_sha256"), Value::text(release_sha256.as_str())),
        (owned("schema"), Value::text(PLAN_SCHEMA)),
        (owned("target"), Value::text(target)),
    ];
    Value::Object(entries)
}

/// One observation read as plain values: its reference, subject, producer,
/// moment, digest, and method.
pub type EvidenceModel = (Seq<char>, Seq<char>, Producer, Seq<char>, Option<Seq<char>>, Seq<char>);

/// One observation read as plain values.
pub open spec fn evidence_model(e: Evidence) -> EvidenceModel {
    (e.id@, e.about@, e.producer, e.observed_at@, digest_view(e.sha256), e.method@)
}

/// What a plan observed, in the order it observed it: the working tree,
/// the record and the project's declaration where they exist, the
/// release, and the host.
pub open spec fn ledger_spec(installation: Option<Installation>, now: Seq<char>, release_sha256: Seq<char>) -> Seq<
    EvidenceModel,
> {
    let tree = seq![
        (
            "target"@,
            "the target's working tree"@,
            Producer::Disk,
            now,
            None,
            "walked, skipping version control and build output"@,
        ),
    ];
    let record = match installation {
        Some(i) => seq![
            (
                "record"@,
                "the instance record"@,
                Producer::Record,
                now,
                Some(i.record_sha256@),
                "read and parsed"@,
            ),
        ] + match i.declaration_sha256 {
            Some(d) => seq![
                (
                    "declaration"@,
                    "the project's own declaration"@,
                    Producer::Declaration,
                    now,
                    Some(d@),
                    "read from the target"@,
                ),
            ],
            None => Seq::empty(),
        },
        None => Seq::empty(),
    };
    tree + record + seq![
        (
            "release"@,
            "the destination release"@,
            Producer::Bundle,
            now,
            Some(release_sha256),
            "read through the release seam"@,
        ),
        (
            "host"@,
            "the resolved user-scope paths"@,
            Producer::Host,
            now,
            None,
            "read from the environment"@,
        ),
    ]
}

/// The references the observed state cites: every observation but the
/// release's, which the release section cites.
pub open spec fn refs_spec(installation: Option<Installation>) -> Seq<Seq<char>> {
    seq!["target"@] + match installation {
        Some(i) => seq!["record"@] + match i.declaration_sha256 {
            Some(_) => seq!["declaration"@],
            None => Seq::empty(),
        },
        None => Seq::empty(),
    } + seq!["host"@]
}

/// A copy of an optional digest.
fn copied_digest(d: &Option<Sha256>) -> (r: Option<Sha256>)
    ensures
        digest_view(r) == digest_view(*d),
{
    match d {
        Some(x) => Some(x.copied()),
        None => None,
    }
}

/// Everything the plan observed, the references its observed state cites,
/// and the reference its release section cites.
pub fn ledger_of(installation: &Option<Installation>, now: &str, release_sha256: &Sha256) -> (r: (
    Ledger,
    Vec<String>,
    String,
))
    ensures
        r.0.items@.map_values(|e: Evidence| evidence_model(e)) == ledger_spec(
            *installation,
            now@,
            release_sha256@,
        ),
        views_of(r.1@) == refs_spec(*installation),
        r.2@ == "release"@,
{
    let mut ledger = Ledger::new();
    let mut refs: Vec<String> = Vec::new();
    let ghost mut expected: Seq<EvidenceModel> = Seq::empty();
    let ghost mut cited: Seq<Seq<char>> = Seq::empty();
    refs.push(
        ledger.record(
            "target",
            "the target's working tree",
            Producer::Disk,
            now,
            None,
            "walked, skipping version control and build output",
        ),
    );
    proof {
        expected = expected.push(
            (
                "target"@,
                "the target's working tree"@,
                Producer::Disk,
                now@,
                None,
                "walked, skipping version control and build output"@,
            ),
        );
        cited = cited.push("target"@);
        assert(ledger.items@.map_values(|e: Evidence| evidence_model(e)) =~= expected);
        assert(views_of(refs@) =~= cited);
    }
    if let Some(installed) = installation {
        let ghost items0 = ledger.items@;
        refs.push(
            ledger.record(
                "record",
                "the instance record",
                Producer::Record,
                now,
                Some(installed.record_sha256.copied()),
                "read and parsed",
            ),
        );
        proof {
            expected = expected.push(
                (
                    "record"@,
                    "the instance record"@,
                    Producer::Record,
                    now@,
                    Some(installed.record_sha256@),
                    "read and parsed"@,
                ),
            );
            cited = cited.push("record"@);
            assert(ledger.items@ == items0.push(ledger.items@.last()));
            assert(ledger.items@.map_values(|e: Evidence| evidence_model(e)) =~= expected);
            assert(views_of(refs@) =~= cited);
        }
        if let Some(digest) = &installed.declaration_sha256 {
            let ghost items1 = ledger.items@;
            refs.push(
                ledger.record(
                    "declaration",
                    "the project's own declaration",
                    Producer::Declaration,
                    now,
                    Some(digest.copied()),
                    "read from the target",
                ),
            );
            proof {
                expected = expected.push(
                    (
                        "declaration"@,
                        "the project's own declaration"@,
                        Producer::Declaration,
                        now@,
                        Some(digest@),
                        "read from the target"@,
                    ),
                );
                cited = cited.push("declaration"@);
                assert(ledger.items@ == items1.push(ledger.items@.last()));
                assert(ledger.items@.map_values(|e: Evidence| evidence_model(e)) =~= expected);
                assert(views_of(refs@) =~= cited);
            }
        }
    }
    let ghost items2 = ledger.items@;
    let release_ref = ledger.record(
        "release",
        "the destination release",
        Producer::Bundle,
        now,
        Some(release_sha256.copied()),
        "read through the release seam",
    );
    proof {
        expected = expected.push(
            (
                "release"@,
                "the destination release"@,
                Producer::Bundle,
                now@,
                Some(release_sha256@),
                "read through the release seam"@,
            ),
        );
        assert(ledger.items@ == items2.push(ledger.items@.last()));
        assert(ledger.items@.map_values(|e: Evidence| evidence_model(e)) =~= expected);
    }
    let ghost items3 = ledger.items@;
    refs.push(
        ledger.record(
            "host",
            "the resolved user-scope paths",
            Producer::Host,
            now,
            None,
            "read from the environment",
        ),
    );
    proof {
        expected = expected.push(
            (
                "host"@,
                "the resolved user-scope paths"@,
                Producer::Host,
                now@,
                None,
                "read from the environment"@,
            ),
        );
        cited = cited.push("host"@);
        assert(ledger.items@ == items3.push(ledger.items@.last()));
        assert(ledger.items@.map_values(|e: Evidence| evidence_model(e)) =~= expected);
        assert(views_of(refs@) =~= cited);
        assert(expected =~= ledger_spec(*installation, now@, release_sha256@));
        assert(cited =~= refs_spec(*installation));
    }
    (ledger, refs, release_ref)
}


/// A plan's identity reads only what decides the apply: two projections
/// of the same classification, release, target, record, operations,
/// gating preconditions, and answers are the same value and encode to the
/// same text, whatever else differed between the two runs, the moment they
/// ran among it.
pub proof fn law_identity_reads_only_the_apply(
    v1: Value,
    v2: Value,
    classification: Classification,
    release: Seq<char>,
    release_sha256: Seq<char>,
    target: Seq<char>,
    installation: Option<Installation>,
    ops: Seq<Operation>,
    ps: Seq<Precondition>,
    ds: Seq<Decision>,
)
    requires
        projection_is(v1, classification, release, release_sha256, target, installation, ops, ps, ds),
        projection_is(v2, classification, release, release_sha256, target, installation, ops, ps, ds),
    ensures
        v1@ == v2@,
        canonical_text(v1) == canonical_text(v2),
{
    let e1 = v1->Object_0@;
    let e2 = v2->Object_0@;
    law_map_order_irrelevant(e1[1].1, e2[1].1);
    lemma_model_entries(e1);
    lemma_model_entries(e2);
    assert(crate::plan::fingerprint::model_entries(e1) =~= crate::plan::fingerprint::model_entries(e2)) by {
        assert forall|i: int| 0 <= i < e1.len() implies crate::plan::fingerprint::model_entries(e1)[i]
            == crate::plan::fingerprint::model_entries(e2)[i] by {
            assert(e1[i].0@ == e2[i].0@);
            assert(model(e1[i].1) == model(e2[i].1));
        }
    }
}

} // verus!
