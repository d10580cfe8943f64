//! Every decision a plan waits on, in dependency order.

use vstd::prelude::*;

use crate::landing::finding::{Finding, FindingKind};
use crate::plan::classify::Classification;
use crate::plan::decision::{id, AnswerSchema, Choice, Decision, Selections};
use crate::plan::planner::choice;
use crate::plan::planner::inputs::selected_in;
use crate::profile::ProfileId;
use crate::text::{append, owned, views_of};

verus! {

/// A choice read as its identifier and consequence.
pub type ChoiceModel = (Seq<char>, Seq<char>);

/// An answer schema read as its choices and, for an open one, its prefixes.
pub type SchemaModel = (Seq<ChoiceModel>, Option<Seq<Seq<char>>>);

/// A decision read as its identifier, question, schema, prerequisites, and
/// selected answer.
pub type DecisionModel = (Seq<char>, Seq<char>, SchemaModel, Seq<Seq<char>>, Option<Seq<char>>);

/// Choices read as plain values.
pub open spec fn choice_models(cs: Seq<Choice>) -> Seq<ChoiceModel> {
    cs.map_values(|c: Choice| (c.id@, c.consequence@))
}

/// A schema read as plain values.
pub open spec fn schema_model(s: AnswerSchema) -> SchemaModel {
    match s {
        AnswerSchema::Choice { choices } => (choice_models(choices@), None),
        AnswerSchema::ChoiceOrValue { choices, prefixes } => (
            choice_models(choices@),
            Some(views_of(prefixes@)),
        ),
    }
}

/// An optional text read as characters.
pub open spec fn opt_text(o: Option<String>) -> Option<Seq<char>> {
    match o {
        Some(s) => Some(s@),
        None => None,
    }
}

/// A decision read as plain values.
pub open spec fn decision_model(d: Decision) -> DecisionModel {
    (d.id@, d.question@, schema_model(d.schema), views_of(d.depends_on@), opt_text(d.selected))
}

/// Decisions read as plain values.
pub open spec fn decision_models(ds: Seq<Decision>) -> Seq<DecisionModel> {
    ds.map_values(|d: Decision| decision_model(d))
}

/// Which profile the repository takes.
pub open spec fn profile_offer(m: Map<Seq<char>, Seq<char>>) -> DecisionModel {
    (
        id::PROFILE@,
        "which profile does this repository take?"@,
        (
            seq![
                ("codebase"@, "records live under docs/"@),
                ("knowledge-base"@, "records live under _docs/"@),
            ],
            None,
        ),
        Seq::empty(),
        selected_in(m, id::PROFILE@),
    )
}

/// Where the planning tool writes its entry documents.
pub open spec fn plan_zone_offer(m: Map<Seq<char>, Seq<char>>, deps: Seq<Seq<char>>) -> DecisionModel {
    (
        id::PLAN_ZONE@,
        "where does the planning tool write its entry documents?"@,
        (
            seq![
                ("env"@, "wherever the plan-zone variable points"@),
                ("none"@, "the project keeps no plan zone"@),
            ],
            Some(seq!["project:"@, "untracked:"@]),
        ),
        deps,
        selected_in(m, id::PLAN_ZONE@),
    )
}

/// Where material that is not a statement yet stages.
pub open spec fn scratch_offer(m: Map<Seq<char>, Seq<char>>, deps: Seq<Seq<char>>) -> DecisionModel {
    (
        id::DOCS_SCRATCH@,
        "where does material that is not a statement yet stage?"@,
        (seq![("none"@, "the project stages nothing"@)], Some(seq!["project:"@, "external:"@])),
        deps,
        selected_in(m, id::DOCS_SCRATCH@),
    )
}

/// Which writing source the project selects.
pub open spec fn style_offer(m: Map<Seq<char>, Seq<char>>, deps: Seq<Seq<char>>) -> DecisionModel {
    (
        id::WRITING_STYLE@,
        "which writing source does the project select?"@,
        (
            seq![
                ("builtin"@, "this convention's own chapter, served offline"@),
                ("none"@, "no route and no conversion obligation"@),
            ],
            Some(seq!["project:"@]),
        ),
        deps,
        selected_in(m, id::WRITING_STYLE@),
    )
}

/// How much of the corpus moves: a sweep always, and an incremental move
/// only where nothing structural would make two conventions coexist.
pub open spec fn scope_offer(m: Map<Seq<char>, Seq<char>>, structural: nat) -> DecisionModel {
    let sweep = ("sweep"@, "every durable fact moves into its owner, and the old convention retires"@);
    let incremental = ("incremental"@, "each document converts the next time somebody edits it"@);
    (
        id::MIGRATION_SCOPE@,
        "how much of the corpus moves?"@,
        (
            if structural == 0 {
                seq![sweep, incremental]
            } else {
                seq![sweep]
            },
            None,
        ),
        seq![id::PROFILE@],
        selected_in(m, id::MIGRATION_SCOPE@),
    )
}

/// Whether the inherited violations are recorded as debt.
pub open spec fn debt_offer(m: Map<Seq<char>, Seq<char>>) -> DecisionModel {
    (
        id::DEBT_BASELINE@,
        "are the inherited violations recorded as debt?"@,
        (
            seq![
                ("record"@, "each inherited violation becomes a ceiling that only comes down"@),
                ("skip"@, "nothing is recorded, and each violation fails its gate"@),
            ],
            None,
        ),
        seq![id::MIGRATION_SCOPE@],
        selected_in(m, id::DEBT_BASELINE@),
    )
}

/// Whether a yanked release lands anyway.
pub open spec fn yanked_offer(m: Map<Seq<char>, Seq<char>>, release: Seq<char>) -> DecisionModel {
    (
        id::ACCEPT_YANKED@,
        "the registry marks "@ + release + " yanked; land it anyway?"@,
        (
            seq![
                ("accept"@, "the release lands, yanked and named as such"@),
                ("refuse"@, "nothing lands; name another release"@),
            ],
            None,
        ),
        Seq::empty(),
        selected_in(m, id::ACCEPT_YANKED@),
    )
}

/// Whether any finding is a measurement over a cap.
pub open spec fn any_budget(findings: Seq<Finding>) -> bool {
    exists|i: int| 0 <= i < findings.len() && (#[trigger] findings[i]).kind is Budget
}

/// What a migration asks before it moves anything.
pub open spec fn migration_offers(
    m: Map<Seq<char>, Seq<char>>,
    structural: nat,
    budget: bool,
) -> Seq<DecisionModel> {
    seq![scope_offer(m, structural)] + if budget {
        seq![debt_offer(m)]
    } else {
        Seq::empty()
    }
}

/// Every decision a plan waits on, in dependency order: the profile for a
/// first landing; once a profile is settled, the three placements for a
/// first landing and the migration's own questions; and acceptance of a
/// yanked release.
pub open spec fn offers_spec(
    installed: bool,
    classification: Classification,
    profile: Option<ProfileId>,
    structural: nat,
    budget: bool,
    yanked: bool,
    release: Seq<char>,
    m: Map<Seq<char>, Seq<char>>,
) -> Seq<DecisionModel> {
    let first = if !installed && (classification is Setup || classification is Migration) {
        seq![profile_offer(m)]
    } else {
        Seq::empty()
    };
    let deps = if first.len() > 0 {
        seq![id::PROFILE@]
    } else {
        Seq::empty()
    };
    let settled = if profile is Some {
        (if !installed {
            seq![plan_zone_offer(m, deps), scratch_offer(m, deps), style_offer(m, deps)]
        } else {
            Seq::empty()
        }) + (if classification is Migration {
            migration_offers(m, structural, budget)
        } else {
            Seq::empty()
        })
    } else {
        Seq::empty()
    };
    first + settled + if yanked {
        seq![yanked_offer(m, release)]
    } else {
        Seq::empty()
    }
}

/// The answer selected for a decision, as a fresh string.
fn pick(selections: &Selections, key: &str) -> (r: Option<String>)
    ensures
        opt_text(r) == selected_in(selections@, key@),
{
    match selections.get(key) {
        Some(answer) => Some(owned(answer)),
        None => None,
    }
}

/// Prerequisites as fresh strings.
fn texts(first: Option<&str>) -> (r: Vec<String>)
    ensures
        views_of(r@) == (match first {
            Some(f) => seq![f@],
            None => Seq::<Seq<char>>::empty(),
        }),
{
    let mut r: Vec<String> = Vec::new();
    if let Some(f) = first {
        r.push(owned(f));
        assert(views_of(r@) =~= seq![f@]);
    } else {
        assert(views_of(r@) =~= Seq::<Seq<char>>::empty());
    }
    r
}

/// Which profile the repository takes.
fn profile_decision(s: &Selections) -> (d: Decision)
    ensures
        decision_model(d) == profile_offer(s@),
{
    let choices = vec![
        choice("codebase", "records live under docs/"),
        choice("knowledge-base", "records live under _docs/"),
    ];
    let d = Decision {
        id: owned(id::PROFILE),
        question: owned("which profile does this repository take?"),
        schema: AnswerSchema::Choice { choices },
        depends_on: Vec::new(),
        selected: pick(s, id::PROFILE),
    };
    assert(decision_model(d) =~= profile_offer(s@));
    d
}

/// Where the planning tool writes its entry documents.
fn plan_zone_decision(s: &Selections, deps: Vec<String>) -> (d: Decision)
    ensures
        decision_model(d) == plan_zone_offer(s@, views_of(deps@)),
{
    let choices = vec![
        choice("env", "wherever the plan-zone variable points"),
        choice("none", "the project keeps no plan zone"),
    ];
    let prefixes = vec![owned("project:"), owned("untracked:")];
    let d = Decision {
        id: owned(id::PLAN_ZONE),
        question: owned("where does the planning tool write its entry documents?"),
        schema: AnswerSchema::ChoiceOrValue { choices, prefixes },
        depends_on: deps,
        selected: pick(s, id::PLAN_ZONE),
    };
    assert(decision_model(d) =~= plan_zone_offer(s@, views_of(d.depends_on@)));
    d
}

/// Where material that is not a statement yet stages.
fn scratch_decision(s: &Selections, deps: Vec<String>) -> (d: Decision)
    ensures
        decision_model(d) == scratch_offer(s@, views_of(deps@)),
{
    let choices = vec![choice("none", "the project stages nothing")];
    // A recorded scratch is a path. The variable overrides it at read
    // time, so there is no `env` to record.
    let prefixes = vec![owned("project:"), owned("external:")];
    let d = Decision {
        id: owned(id::DOCS_SCRATCH),
        question: owned("where does material that is not a statement yet stage?"),
        schema: AnswerSchema::ChoiceOrValue { choices, prefixes },
        depends_on: deps,
        selected: pick(s, id::DOCS_SCRATCH),
    };
    assert(decision_model(d) =~= scratch_offer(s@, views_of(d.depends_on@)));
    d
}

/// Which writing source the project selects.
fn style_decision(s: &Selections, deps: Vec<String>) -> (d: Decision)
    ensures
        decision_model(d) == style_offer(s@, views_of(deps@)),
{
    let choices = vec![
        choice("builtin", "this convention's own chapter, served offline"),
        choice("none", "no route and no conversion obligation"),
    ];
    let prefixes = vec![owned("project:")];
    let d = Decision {
        id: owned(id::WRITING_STYLE),
        question: owned("which writing source does the project select?"),
        schema: AnswerSchema::ChoiceOrValue { choices, prefixes },
        depends_on: deps,
        selected: pick(s, id::WRITING_STYLE),
    };
    assert(decision_model(d) =~= style_offer(s@, views_of(d.depends_on@)));
    d
}

/// How much of the corpus moves.
fn scope_decision(s: &Selections, structural: usize) -> (d: Decision)
    ensures
        decision_model(d) == scope_offer(s@, structural as nat),
{
    let mut choices = vec![
        choice("sweep", "every durable fact moves into its owner, and the old convention retires"),
    ];
    // Incremental is offered only where nothing structural would make two
    // conventions coexist.
    if structural == 0 {
        choices.push(choice("incremental", "each document converts the next time somebody edits it"));
    }
    let d = Decision {
        id: owned(id::MIGRATION_SCOPE),
        question: owned("how much of the corpus moves?"),
        schema: AnswerSchema::Choice { choices },
        depends_on: vec![owned(id::PROFILE)],
        selected: pick(s, id::MIGRATION_SCOPE),
    };
    assert(decision_model(d) =~= scope_offer(s@, structural as nat));
    d
}

/// Whether the inherited violations are recorded as debt.
fn debt_decision(s: &Selections) -> (d: Decision)
    ensures
        decision_model(d) == debt_offer(s@),
{
    let choices = vec![
        choice("record", "each inherited violation becomes a ceiling that only comes down"),
        choice("skip", "nothing is recorded, and each violation fails its gate"),
    ];
    let d = Decision {
        id: owned(id::DEBT_BASELINE),
        question: owned("are the inherited violations recorded as debt?"),
        schema: AnswerSchema::Choice { choices },
        depends_on: vec![owned(id::MIGRATION_SCOPE)],
        selected: pick(s, id::DEBT_BASELINE),
    };
    assert(decision_model(d) =~= debt_offer(s@));
    d
}

/// Whether a yanked release lands anyway.
fn yanked_decision(s: &Selections, release: &str) -> (d: Decision)
    ensures
        decision_model(d) == yanked_offer(s@, release@),
{
    let choices = vec![
        choice("accept", "the release lands, yanked and named as such"),
        choice("refuse", "nothing lands; name another release"),
    ];
    let mut question = owned("the registry marks ");
    append(&mut question, release);
    append(&mut question, " yanked; land it anyway?");
    let d = Decision {
        id: owned(id::ACCEPT_YANKED),
        question,
        schema: AnswerSchema::Choice { choices },
        depends_on: Vec::new(),
        selected: pick(s, id::ACCEPT_YANKED),
    };
    assert(decision_model(d) =~= yanked_offer(s@, release@));
    d
}

/// Whether any finding is a measurement over a cap.
fn has_budget(findings: &[Finding]) -> (r: bool)
    ensures
        r == any_budget(findings@),
{
    let mut i: usize = 0;
    while i < findings.len()
        invariant
            i <= findings.len(),
            forall|j: int| 0 <= j < i ==> !((#[trigger] findings@[j]).kind is Budget),
        decreases findings.len() - i,
    {
        if matches!(findings[i].kind, FindingKind::Budget) {
            return true;
        }
        i += 1;
    }
    false
}

/// Every decision the plan is waiting on, in dependency order.
pub fn decisions_of(
    installed: bool,
    classification: Classification,
    profile: Option<ProfileId>,
    structural: usize,
    findings: &[Finding],
    yanked: bool,
    release: &str,
    selections: &Selections,
) -> (r: Vec<Decision>)
    ensures
        decision_models(r@) == offers_spec(
            installed,
            classification,
            profile,
            structural as nat,
            any_budget(findings@),
            yanked,
            release@,
            selections@,
        ),
{
    let mut decisions: Vec<Decision> = Vec::new();
    let offered_profile = !installed && matches!(
        classification,
        Classification::Setup | Classification::Migration
    );
    if offered_profile {
        decisions.push(profile_decision(selections));
    }
    let ghost first = decision_models(decisions@);
    // Everything below is profile-relative, so it waits for the profile.
    if profile.is_some() {
        if !installed {
            let ghost deps = if offered_profile {
                seq![id::PROFILE@]
            } else {
                Seq::<Seq<char>>::empty()
            };
            let d1 = plan_zone_decision(
                selections,
                texts(if offered_profile { Some(id::PROFILE) } else { None }),
            );
            let d2 = scratch_decision(
                selections,
                texts(if offered_profile { Some(id::PROFILE) } else { None }),
            );
            let d3 = style_decision(
                selections,
                texts(if offered_profile { Some(id::PROFILE) } else { None }),
            );
            decisions.push(d1);
            decisions.push(d2);
            decisions.push(d3);
        }
        if matches!(classification, Classification::Migration) {
            decisions.push(scope_decision(selections, structural));
            if has_budget(findings) {
                decisions.push(debt_decision(selections));
            }
        }
    }
    if yanked {
        decisions.push(yanked_decision(selections, release));
    }
    proof {
        assert(decision_models(decisions@) =~= offers_spec(
            installed,
            classification,
            profile,
            structural as nat,
            any_budget(findings@),
            yanked,
            release@,
            selections@,
        ));
    }
    decisions
}

} // verus!
