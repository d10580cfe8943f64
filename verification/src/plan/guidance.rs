//! What a release asks of an instance that takes it.
//!
//! A changelog is written for a reader deciding whether to upgrade. A plan
//! is read by somebody who already decided. The two answer different
//! questions, so the bundle owes the second one as data a plan can filter
//! rather than prose an operator reads whole.
//!
//! One file per release that needs one, never per release. The index is
//! the complete coverage ledger from the capability floor onward, so a
//! missing prose file cannot strand an interval and a missing entry is a
//! release-time failure rather than a silent gap.

use vstd::prelude::*;

use crate::plan::decision::{AnswerSchema, Choice, Decision, Selections};
use crate::plan::readiness::{Evaluation, Precondition, Requirement};
use crate::text::{append, owned, same_text, views_of};
use crate::toml_doc::{
    bool_field, bool_field_of, lemma_toml_entries, lemma_toml_models, lookup, read_toml,
    read_utf8, stray, stray_key, stray_message, stray_refusal, text_field, text_field_of,
    text_list_field, text_list_field_of, toml_entries, toml_models, toml_read, utf8_refusal,
    version_field, version_field_of, Toml, TomlModel,
};
use crate::version::{version_lt, CanonVersion};

verus! {

/// Where the ledger sits inside a bundle.
pub const INDEX_PATH: &'static str = "guidance/index.toml";

/// The ledger schema this engine reads.
pub const INDEX_SCHEMA: &'static str = "sdd.guidance-index/1";

/// The step-file schema this engine reads.
pub const SCHEMA: &'static str = "sdd.guidance/1";

/// The word an index entry uses when a release asks nothing.
pub const NONE: &'static str = "none";

/// Guidance this engine cannot read.
#[derive(Debug, PartialEq, Eq)]
pub enum GuidanceError {
    /// The bytes are not the shape they claim.
    Malformed {
        /// Which file.
        path: String,
        /// What the parser found.
        reason: String,
    },
    /// The file is written in a schema this engine does not read.
    UnknownSchema {
        /// Which file.
        path: String,
        /// What it declares.
        found: String,
        /// What this engine reads.
        expected: String,
    },
    /// The file contradicts itself.
    Inconsistent {
        /// Which file.
        path: String,
        /// What is wrong.
        reason: String,
    },
}

/// A `GuidanceError` with its texts read as characters.
pub enum GuidanceFault {
    /// See `GuidanceError::Malformed`.
    Malformed(Seq<char>, Seq<char>),
    /// See `GuidanceError::UnknownSchema`.
    UnknownSchema(Seq<char>, Seq<char>, Seq<char>),
    /// See `GuidanceError::Inconsistent`.
    Inconsistent(Seq<char>, Seq<char>),
}

impl View for GuidanceError {
    type V = GuidanceFault;

    open spec fn view(&self) -> GuidanceFault {
        match self {
            GuidanceError::Malformed { path, reason } => GuidanceFault::Malformed(path@, reason@),
            GuidanceError::UnknownSchema { path, found, expected } => GuidanceFault::UnknownSchema(
                path@,
                found@,
                expected@,
            ),
            GuidanceError::Inconsistent { path, reason } => GuidanceFault::Inconsistent(
                path@,
                reason@,
            ),
        }
    }
}

impl GuidanceError {
    /// The refusal as a person reads it.
    pub fn message(&self) -> (m: String)
        ensures
            m@ == match *self {
                GuidanceError::Malformed { path, reason } => path@ + " does not parse: "@ + reason@,
                GuidanceError::UnknownSchema { path, found, expected } => path@
                    + " declares schema "@ + found@ + ", and this engine reads "@ + expected@,
                GuidanceError::Inconsistent { path, reason } => path@ + " is inconsistent: "@
                    + reason@,
            },
    {
        match self {
            GuidanceError::Malformed { path, reason } => {
                let mut m = owned(path.as_str());
                append(&mut m, " does not parse: ");
                append(&mut m, reason.as_str());
                m
            },
            GuidanceError::UnknownSchema { path, found, expected } => {
                let mut m = owned(path.as_str());
                append(&mut m, " declares schema ");
                append(&mut m, found.as_str());
                append(&mut m, ", and this engine reads ");
                append(&mut m, expected.as_str());
                m
            },
            GuidanceError::Inconsistent { path, reason } => {
                let mut m = owned(path.as_str());
                append(&mut m, " is inconsistent: ");
                append(&mut m, reason.as_str());
                m
            },
        }
    }
}

/// What one release asks, in kind.
#[derive(Debug, Clone, Copy, PartialEq, Eq, Structural)]
pub enum StepKind {
    /// An adopted seed the projection now lands.
    SeedAdded,
    /// A rule ID that no longer resolves.
    RuleRetired,
    /// A managed file whose bytes changed.
    ManagedChanged,
    /// A key the project can now set.
    DeclarationKeyAdded,
    /// A gate whose judged set grew.
    GateWidened,
}

/// Who takes one step.
#[derive(Debug, Clone, Copy, PartialEq, Eq, Structural)]
pub enum Actor {
    /// The plan's own operations already carry it.
    Plan,
    /// A person takes it.
    Operator,
}

/// The kind a kebab-case word names.
pub open spec fn kind_named(s: Seq<char>) -> Option<StepKind> {
    if s == "seed-added"@ {
        Some(StepKind::SeedAdded)
    } else if s == "rule-retired"@ {
        Some(StepKind::RuleRetired)
    } else if s == "managed-changed"@ {
        Some(StepKind::ManagedChanged)
    } else if s == "declaration-key-added"@ {
        Some(StepKind::DeclarationKeyAdded)
    } else if s == "gate-widened"@ {
        Some(StepKind::GateWidened)
    } else {
        None
    }
}

/// The actor a kebab-case word names.
pub open spec fn actor_named(s: Seq<char>) -> Option<Actor> {
    if s == "plan"@ {
        Some(Actor::Plan)
    } else if s == "operator"@ {
        Some(Actor::Operator)
    } else {
        None
    }
}

fn kind_of_word(s: &str) -> (r: Option<StepKind>)
    ensures
        r == kind_named(s@),
{
    if same_text(s, "seed-added") {
        Some(StepKind::SeedAdded)
    } else if same_text(s, "rule-retired") {
        Some(StepKind::RuleRetired)
    } else if same_text(s, "managed-changed") {
        Some(StepKind::ManagedChanged)
    } else if same_text(s, "declaration-key-added") {
        Some(StepKind::DeclarationKeyAdded)
    } else if same_text(s, "gate-widened") {
        Some(StepKind::GateWidened)
    } else {
        None
    }
}

fn actor_of_word(s: &str) -> (r: Option<Actor>)
    ensures
        r == actor_named(s@),
{
    if same_text(s, "plan") {
        Some(Actor::Plan)
    } else if same_text(s, "operator") {
        Some(Actor::Operator)
    } else {
        None
    }
}

/// The destination vocabulary a step filters against.
///
/// Closed, because a step naming a destination nothing recognizes cannot
/// be filtered and would reach every target.
pub open spec fn destinations() -> Seq<Seq<char>> {
    seq![
        "specs"@,
        "decisions"@,
        "reference"@,
        "guides"@,
        "declaration"@,
        "debt"@,
        "markdownlint"@,
        "hooks-config"@,
        "agents-digest"@,
        "plan-zone"@,
    ]
}

/// The destination vocabulary a step filters against.
pub fn destination_names() -> (r: Vec<&'static str>)
    ensures
        r@.map_values(|d: &str| d@) == destinations(),
{
    let r = vec![
        "specs",
        "decisions",
        "reference",
        "guides",
        "declaration",
        "debt",
        "markdownlint",
        "hooks-config",
        "agents-digest",
        "plan-zone",
    ];
    assert(r@.map_values(|d: &str| d@) =~= destinations());
    r
}

/// One thing a release asks.
#[derive(Debug, Clone, PartialEq, Eq)]
pub struct Step {
    /// A slug that stays put for the life of the release.
    pub id: String,
    /// What kind of change it is.
    pub kind: StepKind,
    /// Whether a target that ignores it fails a gate or loses a route.
    pub breaking: bool,
    /// Which destinations it applies to.
    pub destinations: Vec<String>,
    /// Who takes it.
    pub actor: Actor,
    /// The prose body, relative to the release's own directory.
    pub text: String,
}

/// A step read as plain values.
pub struct StepView {
    /// See `Step::id`.
    pub id: Seq<char>,
    /// See `Step::kind`.
    pub kind: StepKind,
    /// See `Step::breaking`.
    pub breaking: bool,
    /// See `Step::destinations`.
    pub destinations: Seq<Seq<char>>,
    /// See `Step::actor`.
    pub actor: Actor,
    /// See `Step::text`.
    pub text: Seq<char>,
}

impl View for Step {
    type V = StepView;

    open spec fn view(&self) -> StepView {
        StepView {
            id: self.id@,
            kind: self.kind,
            breaking: self.breaking,
            destinations: views_of(self.destinations@),
            actor: self.actor,
            text: self.text@,
        }
    }
}

/// The decision identifier a step carries in one release.
pub open spec fn step_decision_id(release: CanonVersion, id: Seq<char>) -> Seq<char> {
    "guidance:"@ + release.text() + ":"@ + id
}

impl Step {
    /// The decision identifier this step carries.
    ///
    /// Derived from the release and the step's own slug, never from
    /// display text, so a reworded body moves no plan's identity.
    pub fn decision_id(&self, release: &CanonVersion) -> (r: String)
        ensures
            r@ == step_decision_id(*release, self.id@),
    {
        let mut r = owned("guidance:");
        append(&mut r, release.to_text().as_str());
        append(&mut r, ":");
        append(&mut r, self.id.as_str());
        r
    }
}

/// The keys a step takes.
pub open spec fn step_keys() -> Seq<Seq<char>> {
    seq!["id"@, "kind"@, "breaking"@, "destinations"@, "actor"@, "text"@]
}

/// What one step's table reads as, or why it does not.
pub open spec fn step_read(m: TomlModel) -> Result<StepView, Seq<char>> {
    match m {
        TomlModel::Table(e) => match stray_key(e, step_keys()) {
            Some(k) => Err(stray_message(k)),
            None => match text_field_of(lookup(e, "id"@), "id"@) {
                Err(x) => Err(x),
                Ok(id) => match text_field_of(lookup(e, "kind"@), "kind"@) {
                    Err(x) => Err(x),
                    Ok(kind_word) => match kind_named(kind_word) {
                        None => Err("unknown variant `"@ + kind_word + "` for `"@ + "kind"@ + "`"@),
                        Some(kind) => match bool_field_of(lookup(e, "breaking"@), "breaking"@) {
                            Err(x) => Err(x),
                            Ok(breaking) => match text_list_field_of(
                                lookup(e, "destinations"@),
                                "destinations"@,
                            ) {
                                Err(x) => Err(x),
                                Ok(destinations) => match text_field_of(
                                    lookup(e, "actor"@),
                                    "actor"@,
                                ) {
                                    Err(x) => Err(x),
                                    Ok(actor_word) => match actor_named(actor_word) {
                                        None => Err(
                                            "unknown variant `"@ + actor_word + "` for `"@ + "actor"@ + "`"@,
                                        ),
                                        Some(actor) => match text_field_of(
                                            lookup(e, "text"@),
                                            "text"@,
                                        ) {
                                            Err(x) => Err(x),
                                            Ok(text) => Ok(
                                                StepView {
                                                    id,
                                                    kind,
                                                    breaking,
                                                    destinations,
                                                    actor,
                                                    text,
                                                },
                                            ),
                                        },
                                    },
                                },
                            },
                        },
                    },
                },
            },
        },
        _ => Err("a step is not a table"@),
    }
}

fn unknown_variant(word: &str, key: &str) -> (m: String)
    ensures
        m@ == "unknown variant `"@ + word@ + "` for `"@ + key@ + "`"@,
{
    let mut m = owned("unknown variant `");
    append(&mut m, word);
    append(&mut m, "` for `");
    append(&mut m, key);
    append(&mut m, "`");
    m
}

fn read_step(t: &Toml) -> (r: Result<Step, String>)
    ensures
        match r {
            Ok(s) => step_read(t@) == Ok::<StepView, Seq<char>>(s@),
            Err(m) => step_read(t@) == Err::<StepView, Seq<char>>(m@),
        },
{
    let entries = match t {
        Toml::Table(entries) => entries,
        _ => {
            return Err(owned("a step is not a table"));
        },
    };
    let allowed: Vec<&str> = vec!["id", "kind", "breaking", "destinations", "actor", "text"];
    assert(allowed@.map_values(|a: &str| a@) =~= step_keys());
    if let Some(k) = stray(entries, &allowed) {
        return Err(stray_refusal(k));
    }
    let id = match text_field(entries, "id") {
        Ok(x) => x,
        Err(m) => {
            return Err(m);
        },
    };
    let kind_word = match text_field(entries, "kind") {
        Ok(x) => x,
        Err(m) => {
            return Err(m);
        },
    };
    let kind = match kind_of_word(kind_word.as_str()) {
        Some(k) => k,
        None => {
            return Err(unknown_variant(kind_word.as_str(), "kind"));
        },
    };
    let breaking = match bool_field(entries, "breaking") {
        Ok(x) => x,
        Err(m) => {
            return Err(m);
        },
    };
    let destinations = match text_list_field(entries, "destinations") {
        Ok(x) => x,
        Err(m) => {
            return Err(m);
        },
    };
    let actor_word = match text_field(entries, "actor") {
        Ok(x) => x,
        Err(m) => {
            return Err(m);
        },
    };
    let actor = match actor_of_word(actor_word.as_str()) {
        Some(a) => a,
        None => {
            return Err(unknown_variant(actor_word.as_str(), "actor"));
        },
    };
    let text = match text_field(entries, "text") {
        Ok(x) => x,
        Err(m) => {
            return Err(m);
        },
    };
    Ok(Step { id, kind, breaking, destinations, actor, text })
}

/// What one release asks, whole.
#[derive(Debug, Clone, PartialEq, Eq)]
pub struct Guidance {
    /// Always [`SCHEMA`] once parsed.
    pub schema: String,
    /// The release this describes.
    pub release: CanonVersion,
    /// Every step, in the order the release wrote them.
    pub steps: Vec<Step>,
}

/// The steps of a document read in order; the first that does not read
/// decides the refusal.
pub open spec fn steps_read(items: Seq<TomlModel>) -> Result<Seq<StepView>, Seq<char>>
    decreases items.len(),
{
    if items.len() == 0 {
        Ok(Seq::empty())
    } else {
        match steps_read(items.drop_last()) {
            Err(m) => Err(m),
            Ok(done) => match step_read(items.last()) {
                Err(m) => Err(m),
                Ok(v) => Ok(done.push(v)),
            },
        }
    }
}

/// The keys a step file takes.
pub open spec fn guidance_keys() -> Seq<Seq<char>> {
    seq!["schema"@, "release"@, "steps"@]
}

/// What a step file's bytes read as: its schema, its release's spelling
/// and its steps, or why they do not read.
pub open spec fn guidance_decode(bytes: Seq<u8>) -> Result<(Seq<char>, Seq<char>, Seq<StepView>), Seq<char>> {
    if !vstd::utf8::valid_utf8(bytes) {
        Err(utf8_refusal(bytes))
    } else {
        match toml_read(vstd::utf8::decode_utf8(bytes)) {
            Err(m) => Err(m),
            Ok(TomlModel::Table(e)) => match stray_key(e, guidance_keys()) {
                Some(k) => Err(stray_message(k)),
                None => match text_field_of(lookup(e, "schema"@), "schema"@) {
                    Err(m) => Err(m),
                    Ok(schema) => match version_field_of(lookup(e, "release"@), "release"@) {
                        Err(m) => Err(m),
                        Ok(release) => match lookup(e, "steps"@) {
                            None => Err(crate::toml_doc::missing_message("steps"@)),
                            Some(TomlModel::Array(items)) => match steps_read(items) {
                                Err(m) => Err(m),
                                Ok(steps) => Ok((schema, release, steps)),
                            },
                            Some(_) => Err(
                                crate::toml_doc::shape_message("steps"@, "a list of tables"@),
                            ),
                        },
                    },
                },
            },
            Ok(_) => Err("the document is not a table"@),
        }
    }
}

/// The first destination at or after `from` outside the vocabulary.
pub open spec fn first_outside(ds: Seq<Seq<char>>, from: int) -> Option<Seq<char>>
    decreases ds.len() - from,
{
    if from < 0 || from >= ds.len() {
        None
    } else if !destinations().contains(ds[from]) {
        Some(ds[from])
    } else {
        first_outside(ds, from + 1)
    }
}

/// Where a step's body sits inside the bundle.
pub open spec fn body_path(release: Seq<char>, text: Seq<char>) -> Seq<char> {
    "guidance/"@ + release + "/"@ + text
}

/// The identifiers of the steps, in order.
pub open spec fn step_ids(steps: Seq<StepView>) -> Seq<Seq<char>> {
    steps.map_values(|p: StepView| p.id)
}

/// What is wrong with one step given the steps before it, if anything.
pub open spec fn step_problem(
    prior: Seq<StepView>,
    step: StepView,
    release: Seq<char>,
    bodies: Seq<Seq<char>>,
) -> Option<Seq<char>> {
    if step_ids(prior).contains(step.id) {
        Some(step.id + " appears twice"@)
    } else if step.destinations.len() == 0 {
        Some(step.id + " names no destination"@)
    } else {
        match first_outside(step.destinations, 0) {
            Some(d) => Some(
                step.id + " names the destination "@ + d
                    + ", which is not one this engine filters against"@,
            ),
            None => if !bodies.contains(body_path(release, step.text)) {
                Some(
                    step.id + " names the body "@ + body_path(release, step.text)
                        + ", which the bundle does not carry"@,
                )
            } else {
                None
            },
        }
    }
}

/// The first inconsistency among the steps, in order.
pub open spec fn guidance_problem(
    steps: Seq<StepView>,
    release: Seq<char>,
    bodies: Seq<Seq<char>>,
) -> Option<Seq<char>>
    decreases steps.len(),
{
    if steps.len() == 0 {
        None
    } else {
        match guidance_problem(steps.drop_last(), release, bodies) {
            Some(r) => Some(r),
            None => step_problem(steps.drop_last(), steps.last(), release, bodies),
        }
    }
}

/// What reading one step file gives: its schema, release and steps, or
/// the refusal naming the file.
pub open spec fn guidance_outcome(path: Seq<char>, bytes: Seq<u8>, bodies: Seq<Seq<char>>) -> Result<
    (Seq<char>, Seq<char>, Seq<StepView>),
    GuidanceFault,
> {
    match guidance_decode(bytes) {
        Err(m) => Err(GuidanceFault::Malformed(path, m)),
        Ok((schema, release, steps)) => if schema != SCHEMA@ {
            Err(GuidanceFault::UnknownSchema(path, schema, SCHEMA@))
        } else {
            match guidance_problem(steps, release, bodies) {
                Some(reason) => Err(GuidanceFault::Inconsistent(path, reason)),
                None => Ok((schema, release, steps)),
            }
        },
    }
}

proof fn lemma_problem_persists(
    steps: Seq<StepView>,
    release: Seq<char>,
    bodies: Seq<Seq<char>>,
    n: int,
    k: int,
)
    requires
        0 <= k < n <= steps.len(),
        guidance_problem(steps.take(k + 1), release, bodies) is Some,
    ensures
        guidance_problem(steps.take(n), release, bodies) == guidance_problem(
            steps.take(k + 1),
            release,
            bodies,
        ),
    decreases n - k,
{
    if n > k + 1 {
        lemma_problem_persists(steps, release, bodies, n - 1, k);
        assert(steps.take(n).drop_last() =~= steps.take(n - 1));
    }
}

/// The first step with a problem decides the refusal.
proof fn lemma_first_problem(
    steps: Seq<StepView>,
    release: Seq<char>,
    bodies: Seq<Seq<char>>,
    k: int,
)
    requires
        0 <= k < steps.len(),
        guidance_problem(steps.take(k), release, bodies) is None,
        step_problem(steps.take(k), steps[k], release, bodies) is Some,
    ensures
        guidance_problem(steps, release, bodies) == step_problem(
            steps.take(k),
            steps[k],
            release,
            bodies,
        ),
{
    assert(steps.take(k + 1).drop_last() =~= steps.take(k));
    assert(steps.take(k + 1).last() == steps[k]);
    lemma_problem_persists(steps, release, bodies, steps.len() as int, k);
    assert(steps.take(steps.len() as int) =~= steps);
}

fn malformed(path: &str, reason: String) -> (e: GuidanceError)
    ensures
        e@ == GuidanceFault::Malformed(path@, reason@),
{
    GuidanceError::Malformed { path: owned(path), reason }
}

fn inconsistent(path: &str, reason: String) -> (e: GuidanceError)
    ensures
        e@ == GuidanceFault::Inconsistent(path@, reason@),
{
    GuidanceError::Inconsistent { path: owned(path), reason }
}

fn outside_vocabulary(ds: &Vec<String>, vocabulary: &Vec<&str>) -> (r: Option<usize>)
    requires
        vocabulary@.map_values(|d: &str| d@) == destinations(),
    ensures
        match r {
            Some(q) => q < ds@.len() && first_outside(views_of(ds@), 0) == Some(ds@[q as int]@),
            None => first_outside(views_of(ds@), 0) is None,
        },
{
    let ghost names = views_of(ds@);
    let mut q: usize = 0;
    while q < ds.len()
        invariant
            q <= ds.len(),
            names == views_of(ds@),
            vocabulary@.map_values(|d: &str| d@) == destinations(),
            first_outside(names, 0) == first_outside(names, q as int),
        decreases ds.len() - q,
    {
        let d = ds[q].as_str();
        let mut known = false;
        let mut w: usize = 0;
        while w < vocabulary.len()
            invariant
                w <= vocabulary.len(),
                vocabulary@.map_values(|d: &str| d@) == destinations(),
                known ==> destinations().contains(d@),
                !known ==> forall|x: int| 0 <= x < w ==> #[trigger] destinations()[x] != d@,
            decreases vocabulary.len() - w,
        {
            if same_text(vocabulary[w], d) {
                known = true;
                assert(destinations()[w as int] == d@);
            }
            w += 1;
        }
        assert(names[q as int] == d@);
        if !known {
            return Some(q);
        }
        q += 1;
    }
    None
}

fn listed(items: &[String], wanted: &str) -> (r: bool)
    ensures
        r == views_of(items@).contains(wanted@),
{
    let mut i: usize = 0;
    while i < items.len()
        invariant
            i <= items.len(),
            forall|j: int| 0 <= j < i ==> #[trigger] items@[j]@ != wanted@,
        decreases items.len() - i,
    {
        if same_text(items[i].as_str(), wanted) {
            assert(views_of(items@)[i as int] == wanted@);
            return true;
        }
        i += 1;
    }
    assert forall|j: int| 0 <= j < items@.len() implies #[trigger] views_of(items@)[j] != wanted@ by {
        assert(items@[j]@ != wanted@);
    }
    false
}

fn read_steps(items: &Vec<Toml>) -> (r: Result<Vec<Step>, String>)
    ensures
        match r {
            Ok(v) => steps_read(toml_models(items@)) == Ok::<Seq<StepView>, Seq<char>>(v@.map_values(|s: Step| s@)),
            Err(m) => steps_read(toml_models(items@)) == Err::<Seq<StepView>, Seq<char>>(m@),
        },
{
    proof {
        lemma_toml_models(items@);
    }
    let ghost models = toml_models(items@);
    let mut out: Vec<Step> = Vec::new();
    let mut i: usize = 0;
    assert(models.take(0) =~= Seq::<TomlModel>::empty());
    assert(out@.map_values(|s: Step| s@) =~= Seq::<StepView>::empty());
    while i < items.len()
        invariant
            i <= items.len(),
            models == toml_models(items@),
            models.len() == items@.len(),
            forall|j: int| 0 <= j < items@.len() ==> #[trigger] models[j] == items@[j]@,
            steps_read(models.take(i as int)) == Ok::<Seq<StepView>, Seq<char>>(out@.map_values(|s: Step| s@)),
        decreases items.len() - i,
    {
        let ghost t = models.take(i + 1);
        assert(t.drop_last() =~= models.take(i as int));
        assert(t.last() == items@[i as int]@);
        match read_step(&items[i]) {
            Ok(step) => {
                let ghost before = out@;
                out.push(step);
                assert(out@.map_values(|s: Step| s@) =~= before.map_values(|s: Step| s@).push(out@.last()@));
            },
            Err(m) => {
                proof {
                    lemma_steps_read_stops(models, i as int);
                }
                return Err(m);
            },
        }
        i += 1;
    }
    assert(models.take(i as int) =~= models);
    Ok(out)
}

proof fn lemma_steps_read_stops(models: Seq<TomlModel>, i: int)
    requires
        0 <= i < models.len(),
        steps_read(models.take(i + 1)) is Err,
    ensures
        steps_read(models) == steps_read(models.take(i + 1)),
    decreases models.len() - i,
{
    if i + 1 < models.len() {
        lemma_steps_read_stops_at(models, models.len() as int, i);
    } else {
        assert(models.take(i + 1) =~= models);
    }
}

proof fn lemma_steps_read_stops_at(models: Seq<TomlModel>, n: int, i: int)
    requires
        0 <= i < n <= models.len(),
        steps_read(models.take(i + 1)) is Err,
    ensures
        steps_read(models.take(n)) == steps_read(models.take(i + 1)),
        n == models.len() ==> steps_read(models) == steps_read(models.take(i + 1)),
    decreases n - i,
{
    if n > i + 1 {
        lemma_steps_read_stops_at(models, n - 1, i);
        assert(models.take(n).drop_last() =~= models.take(n - 1));
    }
    if n == models.len() {
        assert(models.take(n) =~= models);
    }
}

impl Guidance {
    /// Read one release's steps.
    ///
    /// Refused: bytes that do not parse or do not have the file's shape, a
    /// schema this engine does not read, and then, step by step in order, a
    /// duplicate step identifier, a step with no destination or with one
    /// outside the vocabulary, and a body the bundle does not carry.
    pub fn parse(path: &str, bytes: &[u8], bodies: &[String]) -> (r: Result<Guidance, GuidanceError>)
        ensures
            match r {
                Ok(g) => guidance_outcome(path@, bytes@, views_of(bodies@)) == Ok::<
                    (Seq<char>, Seq<char>, Seq<StepView>),
                    GuidanceFault,
                >((g.schema@, g.release.text(), g.steps@.map_values(|s: Step| s@))),
                Err(e) => guidance_outcome(path@, bytes@, views_of(bodies@))
                    == Err::<(Seq<char>, Seq<char>, Seq<StepView>), GuidanceFault>(e@),
            },
    {
        let text = match read_utf8(bytes) {
            Ok(t) => t,
            Err(m) => {
                return Err(malformed(path, m));
            },
        };
        let doc = match read_toml(text.as_str()) {
            Ok(d) => d,
            Err(m) => {
                return Err(malformed(path, m));
            },
        };
        let entries = match &doc {
            Toml::Table(entries) => entries,
            _ => {
                return Err(malformed(path, owned("the document is not a table")));
            },
        };
        let allowed: Vec<&str> = vec!["schema", "release", "steps"];
        assert(allowed@.map_values(|a: &str| a@) =~= guidance_keys());
        if let Some(k) = stray(entries, &allowed) {
            return Err(malformed(path, stray_refusal(k)));
        }
        let schema = match text_field(entries, "schema") {
            Ok(x) => x,
            Err(m) => {
                return Err(malformed(path, m));
            },
        };
        let release = match version_field(entries, "release") {
            Ok(x) => x,
            Err(m) => {
                return Err(malformed(path, m));
            },
        };
        let steps = match crate::toml_doc::field(entries, "steps") {
            None => {
                let mut m = owned("missing field `");
                append(&mut m, "steps");
                append(&mut m, "`");
                return Err(malformed(path, m));
            },
            Some(Toml::Array(items)) => match read_steps(items) {
                Ok(v) => v,
                Err(m) => {
                    return Err(malformed(path, m));
                },
            },
            Some(_) => {
                let mut m = owned("field `");
                append(&mut m, "steps");
                append(&mut m, "` is not ");
                append(&mut m, "a list of tables");
                return Err(malformed(path, m));
            },
        };
        if !same_text(schema.as_str(), SCHEMA) {
            return Err(
                GuidanceError::UnknownSchema {
                    path: owned(path),
                    found: schema,
                    expected: owned(SCHEMA),
                },
            );
        }
        let ghost views = steps@.map_values(|s: Step| s@);
        let ghost bodies_v = views_of(bodies@);
        assert(guidance_decode(bytes@) == Ok::<(Seq<char>, Seq<char>, Seq<StepView>), Seq<char>>(
            (schema@, release.text(), views),
        ));
        let release_text = release.to_text();
        let vocabulary = destination_names();
        let mut k: usize = 0;
        while k < steps.len()
            invariant
                k <= steps.len(),
                views == steps@.map_values(|s: Step| s@),
                bodies_v == views_of(bodies@),
                release_text@ == release.text(),
                vocabulary@.map_values(|d: &str| d@) == destinations(),
                guidance_decode(bytes@) == Ok::<(Seq<char>, Seq<char>, Seq<StepView>), Seq<char>>(
                    (schema@, release.text(), views),
                ),
                schema@ == SCHEMA@,
                guidance_problem(views.take(k as int), release.text(), bodies_v) is None,
            decreases steps.len() - k,
        {
            let step = &steps[k];
            let ghost prior = views.take(k as int);
            let ghost t = views.take(k + 1);
            assert(t.drop_last() =~= prior);
            assert(t.last() == step@);
            let mut seen = false;
            let mut p: usize = 0;
            while p < k
                invariant
                    p <= k < steps.len(),
                    views == steps@.map_values(|s: Step| s@),
                    prior == views.take(k as int),
                    !seen ==> forall|q: int| 0 <= q < p ==> #[trigger] prior[q].id != step.id@,
                    seen ==> step_ids(prior).contains(step.id@),
                decreases k - p,
            {
                if same_text(steps[p].id.as_str(), step.id.as_str()) {
                    seen = true;
                    assert(step_ids(prior)[p as int] == step.id@);
                }
                p += 1;
            }
            if seen {
                let mut m = owned(step.id.as_str());
                append(&mut m, " appears twice");
                proof {
                    lemma_first_problem(views, release.text(), bodies_v, k as int);
                }
                return Err(inconsistent(path, m));
            }
            assert(!step_ids(prior).contains(step.id@)) by {
                assert forall|q: int| 0 <= q < prior.len() implies #[trigger] step_ids(prior)[q] != step.id@ by {
                    assert(prior[q].id != step.id@);
                }
            }
            if step.destinations.len() == 0 {
                let mut m = owned(step.id.as_str());
                append(&mut m, " names no destination");
                proof {
                    assert(step@.destinations.len() == 0);
                    lemma_first_problem(views, release.text(), bodies_v, k as int);
                }
                return Err(inconsistent(path, m));
            }
            match outside_vocabulary(&step.destinations, &vocabulary) {
                Some(q) => {
                    let d = step.destinations[q].as_str();
                    let mut m = owned(step.id.as_str());
                    append(&mut m, " names the destination ");
                    append(&mut m, d);
                    append(&mut m, ", which is not one this engine filters against");
                    proof {
                        lemma_first_problem(views, release.text(), bodies_v, k as int);
                    }
                    return Err(inconsistent(path, m));
                },
                None => {},
            }
            let mut body = owned("guidance/");
            append(&mut body, release_text.as_str());
            append(&mut body, "/");
            append(&mut body, step.text.as_str());
            if !listed(bodies, body.as_str()) {
                let mut m = owned(step.id.as_str());
                append(&mut m, " names the body ");
                append(&mut m, body.as_str());
                append(&mut m, ", which the bundle does not carry");
                proof {
                    lemma_first_problem(views, release.text(), bodies_v, k as int);
                }
                return Err(inconsistent(path, m));
            }
            k += 1;
        }
        assert(views.take(k as int) =~= views);
        Ok(Guidance { schema, release, steps })
    }
}

/// Whether a step names one of the destinations a target holds.
pub open spec fn reaches(step: Step, held: Seq<String>) -> bool {
    exists|i: int, j: int|
        0 <= i < step.destinations@.len() && 0 <= j < held.len() && #[trigger] step.destinations@[i]@
            == #[trigger] held[j]@
}

fn reaches_any(step: &Step, held: &[String]) -> (r: bool)
    ensures
        r == reaches(*step, held@),
{
    let mut i: usize = 0;
    while i < step.destinations.len()
        invariant
            i <= step.destinations.len(),
            forall|a: int, b: int| 0 <= a < i && 0 <= b < held@.len() ==> #[trigger] step.destinations@[a]@ != #[trigger] held@[b]@,
        decreases step.destinations.len() - i,
    {
        if listed(held, step.destinations[i].as_str()) {
            let ghost b = choose|b: int| 0 <= b < held@.len() && views_of(held@)[b] == step.destinations@[i as int]@;
            assert(held@[b]@ == step.destinations@[i as int]@);
            return true;
        }
        proof {
            assert forall|b: int| 0 <= b < held@.len() implies step.destinations@[i as int]@ != #[trigger] held@[b]@ by {
                assert(views_of(held@)[b] == held@[b]@);
            }
        }
        i += 1;
    }
    false
}

impl Guidance {
    /// Every step that reaches one target's destinations, in order.
    pub fn filtered(&self, held: &[String]) -> (r: Vec<&Step>)
        ensures
            r@.map_values(|s: &Step| *s) == self.steps@.filter(|s: Step| reaches(s, held@)),
    {
        let ghost pred = |s: Step| reaches(s, held@);
        let mut out: Vec<&Step> = Vec::new();
        let mut i: usize = 0;
        while i < self.steps.len()
            invariant
                i <= self.steps.len(),
                pred == (|s: Step| reaches(s, held@)),
                out@.map_values(|s: &Step| *s) == self.steps@.take(i as int).filter(pred),
            decreases self.steps.len() - i,
        {
            let step = &self.steps[i];
            proof {
                assert(self.steps@.take(i + 1) =~= self.steps@.take(i as int).push(*step));
                self.steps@.take(i as int).lemma_filter_push(*step, pred);
            }
            if reaches_any(step, held) {
                let ghost before = out@;
                out.push(step);
                assert(out@.map_values(|s: &Step| *s) =~= before.map_values(|s: &Step| *s).push(*step));
            }
            i += 1;
        }
        assert(self.steps@.take(i as int) =~= self.steps@);
        out
    }
}

/// One release's coverage.
#[derive(Debug, Clone, PartialEq, Eq)]
pub struct IndexEntry {
    /// Which release.
    pub version: CanonVersion,
    /// The file that carries its steps, or [`NONE`].
    pub guidance: String,
}

/// The complete coverage ledger.
#[derive(Debug, Clone, PartialEq, Eq)]
pub struct Index {
    /// Always [`INDEX_SCHEMA`] once parsed.
    pub schema: String,
    /// The lowest release this ledger covers.
    pub capability_floor: CanonVersion,
    /// One entry per covered release.
    pub releases: Vec<IndexEntry>,
}

/// The keys an index entry takes.
pub open spec fn entry_keys() -> Seq<Seq<char>> {
    seq!["version"@, "guidance"@]
}

/// The keys the index takes.
pub open spec fn index_keys() -> Seq<Seq<char>> {
    seq!["schema"@, "capability_floor"@, "releases"@]
}

/// What one index entry's table reads as: its release's spelling and its
/// file, or why it does not read.
pub open spec fn entry_read(m: TomlModel) -> Result<(Seq<char>, Seq<char>), Seq<char>> {
    match m {
        TomlModel::Table(e) => match stray_key(e, entry_keys()) {
            Some(k) => Err(stray_message(k)),
            None => match version_field_of(lookup(e, "version"@), "version"@) {
                Err(x) => Err(x),
                Ok(version) => match text_field_of(lookup(e, "guidance"@), "guidance"@) {
                    Err(x) => Err(x),
                    Ok(guidance) => Ok((version, guidance)),
                },
            },
        },
        _ => Err("an index entry is not a table"@),
    }
}

/// The entries of an index read in order; the first that does not read
/// decides the refusal.
pub open spec fn entries_read(items: Seq<TomlModel>) -> Result<Seq<(Seq<char>, Seq<char>)>, Seq<char>>
    decreases items.len(),
{
    if items.len() == 0 {
        Ok(Seq::empty())
    } else {
        match entries_read(items.drop_last()) {
            Err(m) => Err(m),
            Ok(done) => match entry_read(items.last()) {
                Err(m) => Err(m),
                Ok(v) => Ok(done.push(v)),
            },
        }
    }
}

/// What the index's bytes read as: its schema, its floor's spelling and
/// its entries, or why they do not read.
pub open spec fn index_decode(bytes: Seq<u8>) -> Result<(Seq<char>, Seq<char>, Seq<(Seq<char>, Seq<char>)>), Seq<char>> {
    if !vstd::utf8::valid_utf8(bytes) {
        Err(utf8_refusal(bytes))
    } else {
        match toml_read(vstd::utf8::decode_utf8(bytes)) {
            Err(m) => Err(m),
            Ok(TomlModel::Table(e)) => match stray_key(e, index_keys()) {
                Some(k) => Err(stray_message(k)),
                None => match text_field_of(lookup(e, "schema"@), "schema"@) {
                    Err(m) => Err(m),
                    Ok(schema) => match version_field_of(lookup(e, "capability_floor"@), "capability_floor"@) {
                        Err(m) => Err(m),
                        Ok(floor) => match lookup(e, "releases"@) {
                            None => Err(crate::toml_doc::missing_message("releases"@)),
                            Some(TomlModel::Array(items)) => match entries_read(items) {
                                Err(m) => Err(m),
                                Ok(entries) => Ok((schema, floor, entries)),
                            },
                            Some(_) => Err(
                                crate::toml_doc::shape_message("releases"@, "a list of tables"@),
                            ),
                        },
                    },
                },
            },
            Ok(_) => Err("the document is not a table"@),
        }
    }
}

/// The release spellings of the entries, in order.
pub open spec fn entry_versions(entries: Seq<(Seq<char>, Seq<char>)>) -> Seq<Seq<char>> {
    entries.map_values(|e: (Seq<char>, Seq<char>)| e.0)
}

/// The first release listed twice, in order.
pub open spec fn index_problem(entries: Seq<(Seq<char>, Seq<char>)>) -> Option<Seq<char>>
    decreases entries.len(),
{
    if entries.len() == 0 {
        None
    } else {
        match index_problem(entries.drop_last()) {
            Some(r) => Some(r),
            None => if entry_versions(entries.drop_last()).contains(entries.last().0) {
                Some(entries.last().0 + " appears twice"@)
            } else {
                None
            },
        }
    }
}

/// What reading the index gives, or the refusal naming its file.
pub open spec fn index_outcome(bytes: Seq<u8>) -> Result<
    (Seq<char>, Seq<char>, Seq<(Seq<char>, Seq<char>)>),
    GuidanceFault,
> {
    match index_decode(bytes) {
        Err(m) => Err(GuidanceFault::Malformed(INDEX_PATH@, m)),
        Ok((schema, floor, entries)) => if schema != INDEX_SCHEMA@ {
            Err(GuidanceFault::UnknownSchema(INDEX_PATH@, schema, INDEX_SCHEMA@))
        } else {
            match index_problem(entries) {
                Some(reason) => Err(GuidanceFault::Inconsistent(INDEX_PATH@, reason)),
                None => Ok((schema, floor, entries)),
            }
        },
    }
}

/// An entry read as plain values.
pub open spec fn entry_view(e: IndexEntry) -> (Seq<char>, Seq<char>) {
    (e.version.text(), e.guidance@)
}

fn read_entry(t: &Toml) -> (r: Result<IndexEntry, String>)
    ensures
        match r {
            Ok(e) => entry_read(t@) == Ok::<(Seq<char>, Seq<char>), Seq<char>>(entry_view(e)),
            Err(m) => entry_read(t@) == Err::<(Seq<char>, Seq<char>), Seq<char>>(m@),
        },
{
    let entries = match t {
        Toml::Table(entries) => entries,
        _ => {
            return Err(owned("an index entry is not a table"));
        },
    };
    let allowed: Vec<&str> = vec!["version", "guidance"];
    assert(allowed@.map_values(|a: &str| a@) =~= entry_keys());
    if let Some(k) = stray(entries, &allowed) {
        return Err(stray_refusal(k));
    }
    let version = match version_field(entries, "version") {
        Ok(x) => x,
        Err(m) => {
            return Err(m);
        },
    };
    let guidance = match text_field(entries, "guidance") {
        Ok(x) => x,
        Err(m) => {
            return Err(m);
        },
    };
    Ok(IndexEntry { version, guidance })
}

proof fn lemma_entries_read_stops_at(models: Seq<TomlModel>, n: int, i: int)
    requires
        0 <= i < n <= models.len(),
        entries_read(models.take(i + 1)) is Err,
    ensures
        entries_read(models.take(n)) == entries_read(models.take(i + 1)),
    decreases n - i,
{
    if n > i + 1 {
        lemma_entries_read_stops_at(models, n - 1, i);
        assert(models.take(n).drop_last() =~= models.take(n - 1));
    }
}

fn read_entries(items: &Vec<Toml>) -> (r: Result<Vec<IndexEntry>, String>)
    ensures
        match r {
            Ok(v) => entries_read(toml_models(items@)) == Ok::<Seq<(Seq<char>, Seq<char>)>, Seq<char>>(v@.map_values(|e: IndexEntry| entry_view(e))),
            Err(m) => entries_read(toml_models(items@)) == Err::<Seq<(Seq<char>, Seq<char>)>, Seq<char>>(m@),
        },
{
    proof {
        lemma_toml_models(items@);
    }
    let ghost models = toml_models(items@);
    let mut out: Vec<IndexEntry> = Vec::new();
    let mut i: usize = 0;
    assert(models.take(0) =~= Seq::<TomlModel>::empty());
    assert(out@.map_values(|e: IndexEntry| entry_view(e)) =~= Seq::<(Seq<char>, Seq<char>)>::empty());
    while i < items.len()
        invariant
            i <= items.len(),
            models == toml_models(items@),
            models.len() == items@.len(),
            forall|j: int| 0 <= j < items@.len() ==> #[trigger] models[j] == items@[j]@,
            entries_read(models.take(i as int)) == Ok::<Seq<(Seq<char>, Seq<char>)>, Seq<char>>(out@.map_values(|e: IndexEntry| entry_view(e))),
        decreases items.len() - i,
    {
        let ghost t = models.take(i + 1);
        assert(t.drop_last() =~= models.take(i as int));
        assert(t.last() == items@[i as int]@);
        match read_entry(&items[i]) {
            Ok(entry) => {
                let ghost before = out@;
                out.push(entry);
                assert(out@.map_values(|e: IndexEntry| entry_view(e)) =~= before.map_values(|e: IndexEntry| entry_view(e)).push(entry_view(out@.last())));
            },
            Err(m) => {
                proof {
                    lemma_entries_read_stops_at(models, models.len() as int, i as int);
                    assert(models.take(models.len() as int) =~= models);
                }
                return Err(m);
            },
        }
        i += 1;
    }
    assert(models.take(i as int) =~= models);
    Ok(out)
}

proof fn lemma_index_problem_persists(entries: Seq<(Seq<char>, Seq<char>)>, n: int, k: int)
    requires
        0 <= k < n <= entries.len(),
        index_problem(entries.take(k + 1)) is Some,
    ensures
        index_problem(entries.take(n)) == index_problem(entries.take(k + 1)),
    decreases n - k,
{
    if n > k + 1 {
        lemma_index_problem_persists(entries, n - 1, k);
        assert(entries.take(n).drop_last() =~= entries.take(n - 1));
    }
}

impl Index {
    /// Read the ledger.
    ///
    /// Refused: bytes that do not parse or do not have the ledger's shape,
    /// a schema this engine does not read, and a release listed twice.
    pub fn parse(bytes: &[u8]) -> (r: Result<Index, GuidanceError>)
        ensures
            match r {
                Ok(x) => index_outcome(bytes@) == Ok::<
                    (Seq<char>, Seq<char>, Seq<(Seq<char>, Seq<char>)>),
                    GuidanceFault,
                >((x.schema@, x.capability_floor.text(), x.releases@.map_values(|e: IndexEntry| entry_view(e)))),
                Err(e) => index_outcome(bytes@) == Err::<
                    (Seq<char>, Seq<char>, Seq<(Seq<char>, Seq<char>)>),
                    GuidanceFault,
                >(e@),
            },
    {
        let text = match read_utf8(bytes) {
            Ok(t) => t,
            Err(m) => {
                return Err(malformed(INDEX_PATH, m));
            },
        };
        let doc = match read_toml(text.as_str()) {
            Ok(d) => d,
            Err(m) => {
                return Err(malformed(INDEX_PATH, m));
            },
        };
        let entries = match &doc {
            Toml::Table(entries) => entries,
            _ => {
                return Err(malformed(INDEX_PATH, owned("the document is not a table")));
            },
        };
        let allowed: Vec<&str> = vec!["schema", "capability_floor", "releases"];
        assert(allowed@.map_values(|a: &str| a@) =~= index_keys());
        if let Some(k) = stray(entries, &allowed) {
            return Err(malformed(INDEX_PATH, stray_refusal(k)));
        }
        let schema = match text_field(entries, "schema") {
            Ok(x) => x,
            Err(m) => {
                return Err(malformed(INDEX_PATH, m));
            },
        };
        let capability_floor = match version_field(entries, "capability_floor") {
            Ok(x) => x,
            Err(m) => {
                return Err(malformed(INDEX_PATH, m));
            },
        };
        let releases = match crate::toml_doc::field(entries, "releases") {
            None => {
                let mut m = owned("missing field `");
                append(&mut m, "releases");
                append(&mut m, "`");
                return Err(malformed(INDEX_PATH, m));
            },
            Some(Toml::Array(items)) => match read_entries(items) {
                Ok(v) => v,
                Err(m) => {
                    return Err(malformed(INDEX_PATH, m));
                },
            },
            Some(_) => {
                let mut m = owned("field `");
                append(&mut m, "releases");
                append(&mut m, "` is not ");
                append(&mut m, "a list of tables");
                return Err(malformed(INDEX_PATH, m));
            },
        };
        if !same_text(schema.as_str(), INDEX_SCHEMA) {
            return Err(
                GuidanceError::UnknownSchema {
                    path: owned(INDEX_PATH),
                    found: schema,
                    expected: owned(INDEX_SCHEMA),
                },
            );
        }
        let ghost views = releases@.map_values(|e: IndexEntry| entry_view(e));
        assert(index_decode(bytes@) == Ok::<(Seq<char>, Seq<char>, Seq<(Seq<char>, Seq<char>)>), Seq<char>>(
            (schema@, capability_floor.text(), views),
        ));
        let mut k: usize = 0;
        while k < releases.len()
            invariant
                k <= releases.len(),
                views == releases@.map_values(|e: IndexEntry| entry_view(e)),
                index_decode(bytes@) == Ok::<(Seq<char>, Seq<char>, Seq<(Seq<char>, Seq<char>)>), Seq<char>>(
                    (schema@, capability_floor.text(), views),
                ),
                schema@ == INDEX_SCHEMA@,
                index_problem(views.take(k as int)) is None,
            decreases releases.len() - k,
        {
            let ghost prior = views.take(k as int);
            let mut p: usize = 0;
            let mut seen = false;
            while p < k
                invariant
                    p <= k < releases.len(),
                    views == releases@.map_values(|e: IndexEntry| entry_view(e)),
                    prior == views.take(k as int),
                    !seen ==> forall|q: int| 0 <= q < p ==> #[trigger] releases@[q].version != releases@[k as int].version,
                    seen ==> entry_versions(prior).contains(releases@[k as int].version.text()),
                decreases k - p,
            {
                if releases[p].version.same(&releases[k].version) {
                    seen = true;
                    assert(entry_versions(prior)[p as int] == releases@[k as int].version.text());
                }
                p += 1;
            }
            proof {
                let t = views.take(k + 1);
                assert(t.drop_last() =~= prior);
                assert(t.last() == entry_view(releases@[k as int]));
            }
            if seen {
                let mut m = releases[k].version.to_text();
                append(&mut m, " appears twice");
                proof {
                    lemma_index_problem_persists(views, views.len() as int, k as int);
                    assert(views.take(views.len() as int) =~= views);
                }
                return Err(inconsistent(INDEX_PATH, m));
            }
            proof {
                assert forall|q: int| 0 <= q < prior.len() implies #[trigger] entry_versions(prior)[q] != releases@[k as int].version.text() by {
                    assert(releases@[q].version != releases@[k as int].version);
                    crate::version::lemma_text_injective(releases@[q].version, releases@[k as int].version);
                }
            }
            k += 1;
        }
        assert(views.take(k as int) =~= views);
        Ok(Index { schema, capability_floor, releases })
    }

    /// What the ledger says about one release: its first entry.
    pub fn entry(&self, version: CanonVersion) -> (r: Option<&IndexEntry>)
        ensures
            match r {
                Some(e) => exists|i: int| {
                    &&& 0 <= i < self.releases@.len()
                    &&& self.releases@[i] == *e
                    &&& e.version == version
                    &&& forall|j: int| 0 <= j < i ==> #[trigger] self.releases@[j].version != version
                },
                None => forall|i: int| 0 <= i < self.releases@.len() ==> #[trigger] self.releases@[i].version != version,
            },
    {
        let mut i: usize = 0;
        while i < self.releases.len()
            invariant
                i <= self.releases.len(),
                forall|j: int| 0 <= j < i ==> #[trigger] self.releases@[j].version != version,
            decreases self.releases.len() - i,
        {
            if self.releases[i].version.same(&version) {
                return Some(&self.releases[i]);
            }
            i += 1;
        }
        None
    }
}

/// Whether a release falls in the half-open interval after `from` (or
/// from the beginning) up to and including `to`.
pub open spec fn in_interval(e: IndexEntry, from: Option<CanonVersion>, to: CanonVersion) -> bool {
    (from matches Some(held) ==> version_lt(held, e.version)) && !version_lt(to, e.version)
}

/// Entries in release order, equal releases in any order.
pub open spec fn release_ordered(s: Seq<IndexEntry>) -> bool {
    forall|a: int, b: int| 0 <= a < b < s.len() ==> !version_lt(#[trigger] s[b].version, #[trigger] s[a].version)
}

impl Index {
    /// Every release in the half-open interval, in release order.
    pub fn interval(&self, from: Option<CanonVersion>, to: CanonVersion) -> (r: Vec<&IndexEntry>)
        ensures
            r@.map_values(|e: &IndexEntry| *e).to_multiset() == self.releases@.filter(
                |e: IndexEntry| in_interval(e, from, to),
            ).to_multiset(),
            release_ordered(r@.map_values(|e: &IndexEntry| *e)),
    {
        let ghost pred = |e: IndexEntry| in_interval(e, from, to);
        let mut found: Vec<&IndexEntry> = Vec::new();
        let ghost mut model: Seq<IndexEntry> = Seq::empty();
        let mut i: usize = 0;
        proof {
            reveal(Seq::filter);
            assert(self.releases@.take(0) =~= Seq::<IndexEntry>::empty());
            assert(self.releases@.take(0).filter(pred) =~= Seq::<IndexEntry>::empty());
            assert(model =~= found@.map_values(|e: &IndexEntry| *e));
        }
        while i < self.releases.len()
            invariant
                i <= self.releases.len(),
                pred == (|e: IndexEntry| in_interval(e, from, to)),
                model == found@.map_values(|e: &IndexEntry| *e),
                model.to_multiset() == self.releases@.take(i as int).filter(pred).to_multiset(),
                release_ordered(model),
            decreases self.releases.len() - i,
        {
            let entry = &self.releases[i];
            proof {
                assert(self.releases@.take(i + 1) =~= self.releases@.take(i as int).push(*entry));
                self.releases@.take(i as int).lemma_filter_push(*entry, pred);
            }
            let after_from = match from {
                Some(held) => held.precedes(&entry.version),
                None => true,
            };
            if after_from && !to.precedes(&entry.version) {
                let mut p: usize = 0;
                while p < found.len() && !entry.version.precedes(&found[p].version)
                    invariant
                        p <= found.len(),
                        model == found@.map_values(|e: &IndexEntry| *e),
                        release_ordered(model),
                        forall|j: int| 0 <= j < p ==> !version_lt(entry.version, #[trigger] model[j].version),
                    decreases found.len() - p,
                {
                    p += 1;
                }
                let ghost old_model = model;
                found.insert(p, entry);
                proof {
                    model = old_model.insert(p as int, *entry);
                    assert(model =~= found@.map_values(|e: &IndexEntry| *e));
                    vstd::seq_lib::to_multiset_insert(old_model, p as int, *entry);
                    vstd::seq_lib::to_multiset_build(self.releases@.take(i as int).filter(pred), *entry);
                    assert forall|a: int, b: int| 0 <= a < b < model.len() implies !version_lt(#[trigger] model[b].version, #[trigger] model[a].version) by {
                        if b < p {
                            assert(model[a] == old_model[a]);
                            assert(model[b] == old_model[b]);
                        } else if b == p {
                            assert(model[a] == old_model[a]);
                        } else if a < p {
                            assert(model[a] == old_model[a]);
                            assert(model[b] == old_model[b - 1]);
                            assert(version_lt(entry.version, old_model[p as int].version));
                        } else if a == p {
                            assert(model[b] == old_model[b - 1]);
                            assert(version_lt(entry.version, old_model[p as int].version));
                        } else {
                            assert(model[a] == old_model[a - 1]);
                            assert(model[b] == old_model[b - 1]);
                        }
                    }
                }
            }
            i += 1;
        }
        assert(self.releases@.take(i as int) =~= self.releases@);
        found
    }
}

/// How much of an interval the ledger covers.
#[derive(Debug, Clone, Copy, PartialEq, Eq, Structural)]
pub enum Coverage {
    /// Every release in the interval has an entry.
    Complete,
    /// The recorded release predates the floor.
    Partial,
}

/// Whether the ledger covers an interval starting after `from`: only a
/// recorded release below the floor leaves a gap.
pub open spec fn coverage_of(floor: CanonVersion, from: Option<CanonVersion>) -> Coverage {
    match from {
        Some(recorded) => if version_lt(recorded, floor) {
            Coverage::Partial
        } else {
            Coverage::Complete
        },
        None => Coverage::Complete,
    }
}

/// What the ledger says about one interval.
pub fn coverage(index: &Index, from: Option<CanonVersion>) -> (c: Coverage)
    ensures
        c == coverage_of(index.capability_floor, from),
{
    match from {
        Some(recorded) => if recorded.precedes(&index.capability_floor) {
            Coverage::Partial
        } else {
            Coverage::Complete
        },
        None => Coverage::Complete,
    }
}

/// The preconditions and decisions one interval's guidance carries.
#[derive(Debug, Clone)]
pub struct Briefing {
    /// Everything that must hold first.
    pub preconditions: Vec<Precondition>,
    /// Everything the operator accepts knowingly.
    pub decisions: Vec<Decision>,
    /// Every step that reaches this target, as `<release>:<id>`.
    pub applicable: Vec<String>,
    /// How many steps the target's destinations excluded.
    pub excluded: usize,
}

impl Default for Briefing {
    fn default() -> (b: Briefing)
        ensures
            b.preconditions@.len() == 0,
            b.decisions@.len() == 0,
            b.applicable@.len() == 0,
            b.excluded == 0,
    {
        Briefing {
            preconditions: Vec::new(),
            decisions: Vec::new(),
            applicable: Vec::new(),
            excluded: 0,
        }
    }
}

/// The steps of one release that reach the held destinations, each with
/// its release.
pub open spec fn reached_in(release: CanonVersion, g: Guidance, held: Seq<String>) -> Seq<(CanonVersion, Step)> {
    g.steps@.filter(|s: Step| reaches(s, held)).map_values(|s: Step| (release, s))
}

/// Every step of the interval's files that reaches the held destinations,
/// file by file, each with its release.
pub open spec fn reached(files: Seq<(CanonVersion, Guidance)>, held: Seq<String>) -> Seq<(CanonVersion, Step)>
    decreases files.len(),
{
    if files.len() == 0 {
        Seq::empty()
    } else {
        reached(files.drop_last(), held) + reached_in(files.last().0, files.last().1, held)
    }
}

/// How many steps the held destinations exclude, over all the files.
pub open spec fn excluded_total(files: Seq<(CanonVersion, Guidance)>, held: Seq<String>) -> int
    decreases files.len(),
{
    if files.len() == 0 {
        0
    } else {
        excluded_total(files.drop_last(), held) + files.last().1.steps@.len()
            - files.last().1.steps@.filter(|s: Step| reaches(s, held)).len()
    }
}

/// The breaking ones among reached steps.
pub open spec fn breaking_of(r: Seq<(CanonVersion, Step)>) -> Seq<(CanonVersion, Step)> {
    r.filter(|p: (CanonVersion, Step)| p.1.breaking)
}

/// A slug with its dashes read as spaces.
pub open spec fn dashes_to_spaces(s: Seq<char>) -> Seq<char> {
    s.map_values(|c: char| if c == '-' { ' ' } else { c })
}

/// What the operator selected for a decision, where they selected.
pub open spec fn selected_for(sel: Map<Seq<char>, Seq<char>>, id: Seq<char>) -> Option<Seq<char>> {
    if sel.dom().contains(id) {
        Some(sel[id])
    } else {
        None
    }
}

/// A decision's selection is the operator's.
pub open spec fn selection_carried(d: Decision, sel: Map<Seq<char>, Seq<char>>) -> bool {
    match d.selected {
        Some(x) => selected_for(sel, d.id@) == Some(x@),
        None => selected_for(sel, d.id@) is None,
    }
}

/// The decision one breaking step asks the operator to accept.
pub open spec fn step_decision_ok(d: Decision, release: CanonVersion, step: Step, sel: Map<Seq<char>, Seq<char>>) -> bool {
    &&& d.id@ == step_decision_id(release, step.id@)
    &&& d.question@ == release.text() + " asks: "@ + dashes_to_spaces(step.id@)
    &&& d.schema matches AnswerSchema::Choice { choices } && choices@.len() == 2
        && choices@[0].id@ == "accepted"@
        && choices@[0].consequence@ == "read guidance/"@ + release.text() + "/"@ + step.text@ + " and take the step"@
        && choices@[1].id@ == "not-applicable"@
        && choices@[1].consequence@ == "this target does not carry what the step is about"@
    &&& d.depends_on@.len() == 0
    &&& selection_carried(d, sel)
}

/// The decision partial coverage asks the operator to accept.
pub open spec fn coverage_decision_ok(d: Decision, floor: CanonVersion, sel: Map<Seq<char>, Seq<char>>) -> bool {
    &&& d.id@ == "guidance-coverage"@
    &&& d.question@ == "guidance starts at "@ + floor.text() + "; proceed without what came before?"@
    &&& d.schema matches AnswerSchema::Choice { choices } && choices@.len() == 2
        && choices@[0].id@ == "accepted"@
        && choices@[0].consequence@ == "the plan proceeds with the guidance it has"@
        && choices@[1].id@ == "refuse"@
        && choices@[1].consequence@ == "nothing lands; read the changelog first"@
    &&& d.depends_on@.len() == 0
    &&& selection_carried(d, sel)
}

/// The precondition partial coverage raises.
pub open spec fn coverage_gate_ok(p: Precondition, floor: CanonVersion, sel: Map<Seq<char>, Seq<char>>) -> bool {
    &&& p.id@ == "guidance-is-covered"@
    &&& p.statement@ == "every release in the interval carries its guidance"@
    &&& p.requirement == Requirement::DecisionRequired
    &&& (sel.dom().contains("guidance-coverage"@) ==> p.evaluation is Satisfied)
    &&& (!sel.dom().contains("guidance-coverage"@) ==> (p.evaluation matches Evaluation::NotObserved { reason }
        && reason@ == "the target records a release below "@ + floor.text() + ", which this engine does not brief"@))
    &&& p.resolved_by matches Some(r) && r@ == "guidance-coverage"@
    &&& p.evidence_refs@.len() == 1 && p.evidence_refs@[0]@ == "release"@
}

/// The precondition one step decision raises.
pub open spec fn step_gate_ok(p: Precondition, d: Decision) -> bool {
    &&& p.id@ == "step:"@ + d.id@
    &&& p.statement@ == d.question@
    &&& p.requirement == Requirement::DecisionRequired
    &&& (d.selected is Some ==> p.evaluation is Satisfied)
    &&& (d.selected is None ==> (p.evaluation matches Evaluation::Unsatisfied { reason } && reason@
        == "the operator has not accepted this step"@))
    &&& p.resolved_by matches Some(r) && r@ == d.id@
    &&& p.evidence_refs@.len() == 1 && p.evidence_refs@[0]@ == "release"@
}

proof fn lemma_excluded_prefix(files: Seq<(CanonVersion, Guidance)>, held: Seq<String>, i: int)
    requires
        0 <= i <= files.len(),
    ensures
        0 <= excluded_total(files.take(i), held) <= excluded_total(files, held),
    decreases files.len() - i,
{
    if i < files.len() {
        lemma_excluded_prefix(files, held, i + 1);
        let t = files.take(i + 1);
        assert(t.drop_last() =~= files.take(i));
        t.last().1.steps@.lemma_filter_len(|s: Step| reaches(s, held));
    } else {
        assert(files.take(i) =~= files);
    }
    lemma_excluded_nonnegative(files.take(i), held);
}

proof fn lemma_excluded_nonnegative(files: Seq<(CanonVersion, Guidance)>, held: Seq<String>)
    ensures
        0 <= excluded_total(files, held),
    decreases files.len(),
{
    if files.len() > 0 {
        lemma_excluded_nonnegative(files.drop_last(), held);
        files.last().1.steps@.lemma_filter_len(|s: Step| reaches(s, held));
    }
}

fn replace_dashes(s: &str) -> (r: String)
    ensures
        r@ == dashes_to_spaces(s@),
{
    let v = crate::text::chars_of(s);
    let mut out = String::new();
    let mut i: usize = 0;
    while i < v.len()
        invariant
            i <= v.len(),
            v@ == s@,
            out@ == dashes_to_spaces(v@.take(i as int)),
        decreases v.len() - i,
    {
        if v[i] == '-' {
            crate::text::push_char(&mut out, ' ');
        } else {
            crate::text::push_char(&mut out, v[i]);
        }
        assert(dashes_to_spaces(v@.take(i + 1)) =~= dashes_to_spaces(v@.take(i as int)).push(
            if v@[i as int] == '-' {
                ' '
            } else {
                v@[i as int]
            },
        ));
        i += 1;
    }
    assert(v@.take(i as int) =~= v@);
    out
}

fn selected_copy(selections: &Selections, id: &str) -> (r: Option<String>)
    ensures
        match r {
            Some(x) => selected_for(selections@, id@) == Some(x@),
            None => selected_for(selections@, id@) is None,
        },
{
    match selections.get(id) {
        Some(a) => Some(owned(a)),
        None => None,
    }
}

fn release_refs() -> (r: Vec<String>)
    ensures
        r@.len() == 1,
        r@[0]@ == "release"@,
{
    let mut r = Vec::new();
    r.push(owned("release"));
    r
}

fn two_choices(first: &str, first_consequence: String, second: &str, second_consequence: &str) -> (s: AnswerSchema)
    ensures
        s matches AnswerSchema::Choice { choices } && choices@.len() == 2
            && choices@[0].id@ == first@
            && choices@[0].consequence@ == first_consequence@
            && choices@[1].id@ == second@
            && choices@[1].consequence@ == second_consequence@,
{
    let mut choices = Vec::new();
    choices.push(Choice { id: owned(first), consequence: first_consequence });
    choices.push(Choice { id: owned(second), consequence: owned(second_consequence) });
    AnswerSchema::Choice { choices }
}

/// Read one interval's guidance against one target.
///
/// A breaking step is a decision the operator accepts with the step's own
/// body in front of them. An additive step is reported and blocks nothing.
/// Partial coverage is a decision rather than a gap, because the operator
/// can still say they know what is missing. Each step decision raises a
/// precondition, after the coverage one.
pub fn brief(
    index: &Index,
    files: &[(CanonVersion, Guidance)],
    from: Option<CanonVersion>,
    destinations: &[String],
    selections: &Selections,
) -> (b: Briefing)
    requires
        excluded_total(files@, destinations@) <= usize::MAX,
    ensures
        views_of(b.applicable@) == reached(files@, destinations@).map_values(
            |p: (CanonVersion, Step)| step_decision_id(p.0, p.1.id@),
        ),
        b.excluded == excluded_total(files@, destinations@),
        ({
            let steps = breaking_of(reached(files@, destinations@));
            let partial = coverage_of(index.capability_floor, from) is Partial;
            let extra: int = if partial { 1 } else { 0 };
            &&& b.decisions@.len() == steps.len() + extra
            &&& forall|i: int| 0 <= i < steps.len() ==> step_decision_ok(#[trigger] b.decisions@[i], steps[i].0, steps[i].1, selections@)
            &&& partial ==> coverage_decision_ok(b.decisions@[steps.len() as int], index.capability_floor, selections@)
            &&& b.preconditions@.len() == extra + steps.len()
            &&& partial ==> coverage_gate_ok(b.preconditions@[0], index.capability_floor, selections@)
            &&& forall|i: int| 0 <= i < steps.len() ==> step_gate_ok(#[trigger] b.preconditions@[extra + i], b.decisions@[i])
        }),
{
    let ghost held = destinations@;
    let mut applicable: Vec<String> = Vec::new();
    let mut decisions: Vec<Decision> = Vec::new();
    let mut excluded: usize = 0;
    let mut i: usize = 0;
    proof {
        assert(files@.take(0) =~= Seq::<(CanonVersion, Guidance)>::empty());
        reveal(Seq::filter);
    }
    while i < files.len()
        invariant
            i <= files.len(),
            held == destinations@,
            excluded_total(files@, held) <= usize::MAX,
            excluded == excluded_total(files@.take(i as int), held),
            views_of(applicable@) == reached(files@.take(i as int), held).map_values(
                |p: (CanonVersion, Step)| step_decision_id(p.0, p.1.id@),
            ),
            decisions@.len() == breaking_of(reached(files@.take(i as int), held)).len(),
            forall|k: int| 0 <= k < decisions@.len() ==> step_decision_ok(#[trigger] decisions@[k], breaking_of(reached(files@.take(i as int), held))[k].0, breaking_of(reached(files@.take(i as int), held))[k].1, selections@),
        decreases files.len() - i,
    {
        let release = &files[i].0;
        let guidance = &files[i].1;
        let chosen = guidance.filtered(destinations);
        let ghost prior = reached(files@.take(i as int), held);
        let ghost here = reached_in(*release, *guidance, held);
        proof {
            let t = files@.take(i + 1);
            assert(t.drop_last() =~= files@.take(i as int));
            assert(t.last() == files@[i as int]);
            guidance.steps@.lemma_filter_len(|s: Step| reaches(s, held));
            lemma_excluded_prefix(files@, held, i + 1);
            assert(chosen@.len() == guidance.steps@.filter(|s: Step| reaches(s, held)).len()) by {
                assert(chosen@.map_values(|s: &Step| *s).len() == chosen@.len());
            }
        }
        excluded = excluded + (guidance.steps.len() - chosen.len());
        let mut j: usize = 0;
        while j < chosen.len()
            invariant
                j <= chosen.len(),
                i < files.len(),
                held == destinations@,
                *release == files@[i as int].0,
                *guidance == files@[i as int].1,
                chosen@.map_values(|s: &Step| *s) == guidance.steps@.filter(|s: Step| reaches(s, held)),
                here == reached_in(*release, *guidance, held),
                prior == reached(files@.take(i as int), held),
                views_of(applicable@) == (prior + here.take(j as int)).map_values(
                    |p: (CanonVersion, Step)| step_decision_id(p.0, p.1.id@),
                ),
                decisions@.len() == breaking_of(prior + here.take(j as int)).len(),
                forall|k: int| 0 <= k < decisions@.len() ==> step_decision_ok(#[trigger] decisions@[k], breaking_of(prior + here.take(j as int))[k].0, breaking_of(prior + here.take(j as int))[k].1, selections@),
            decreases chosen.len() - j,
        {
            let step = chosen[j];
            let id = step.decision_id(release);
            let ghost before_ids = applicable@;
            let ghost pair = (*release, *step);
            proof {
                assert(here[j as int] == pair) by {
                    assert(chosen@.map_values(|s: &Step| *s)[j as int] == *step);
                }
                assert(prior + here.take(j + 1) =~= (prior + here.take(j as int)).push(pair));
                (prior + here.take(j as int)).lemma_filter_push(pair, |p: (CanonVersion, Step)| p.1.breaking);
            }
            applicable.push(owned(id.as_str()));
            assert(views_of(applicable@) =~= views_of(before_ids).push(id@));
            if step.breaking {
                let ghost before = decisions@;
                let mut question = release.to_text();
                append(&mut question, " asks: ");
                append(&mut question, replace_dashes(step.id.as_str()).as_str());
                let mut read = owned("read guidance/");
                append(&mut read, release.to_text().as_str());
                append(&mut read, "/");
                append(&mut read, step.text.as_str());
                append(&mut read, " and take the step");
                let selected = selected_copy(selections, id.as_str());
                decisions.push(
                    Decision {
                        id,
                        question,
                        schema: two_choices(
                            "accepted",
                            read,
                            "not-applicable",
                            "this target does not carry what the step is about",
                        ),
                        depends_on: Vec::new(),
                        selected,
                    },
                );
                proof {
                    assert forall|k: int| 0 <= k < decisions@.len() implies step_decision_ok(#[trigger] decisions@[k], breaking_of(prior + here.take(j + 1))[k].0, breaking_of(prior + here.take(j + 1))[k].1, selections@) by {
                        if k < before.len() {
                            assert(decisions@[k] == before[k]);
                        }
                    }
                }
            }
            j += 1;
        }
        proof {
            assert(here.take(j as int) =~= here);
            assert(chosen@.len() == here.len());
            let t = files@.take(i + 1);
            assert(t.drop_last() =~= files@.take(i as int));
            assert(reached(t, held) == prior + here);
        }
        i += 1;
    }
    proof {
        assert(files@.take(i as int) =~= files@);
    }
    let ghost steps = breaking_of(reached(files@, held));
    let mut preconditions: Vec<Precondition> = Vec::new();
    let partial = matches!(coverage(index, from), Coverage::Partial);
    if partial {
        let floor = index.capability_floor.to_text();
        let selected = selected_copy(selections, "guidance-coverage");
        let evaluation = match &selected {
            Some(_) => Evaluation::Satisfied,
            None => {
                let mut reason = owned("the target records a release below ");
                append(&mut reason, floor.as_str());
                append(&mut reason, ", which this engine does not brief");
                Evaluation::NotObserved { reason }
            },
        };
        preconditions.push(
            Precondition {
                id: owned("guidance-is-covered"),
                statement: owned("every release in the interval carries its guidance"),
                requirement: Requirement::DecisionRequired,
                evaluation,
                resolved_by: Some(owned("guidance-coverage")),
                evidence_refs: release_refs(),
            },
        );
        let mut question = owned("guidance starts at ");
        append(&mut question, floor.as_str());
        append(&mut question, "; proceed without what came before?");
        let ghost before = decisions@;
        decisions.push(
            Decision {
                id: owned("guidance-coverage"),
                question,
                schema: two_choices(
                    "accepted",
                    owned("the plan proceeds with the guidance it has"),
                    "refuse",
                    "nothing lands; read the changelog first",
                ),
                depends_on: Vec::new(),
                selected,
            },
        );
        assert(forall|k: int| 0 <= k < before.len() ==> decisions@[k] == before[k]);
    }
    let ghost extra: int = if partial { 1 } else { 0 };
    let count = if partial { decisions.len() - 1 } else { decisions.len() };
    let mut k: usize = 0;
    while k < count
        invariant
            count == steps.len(),
            extra == if partial { 1int } else { 0int },
            k <= steps.len(),
            decisions@.len() == steps.len() + extra,
            preconditions@.len() == extra + k,
            partial ==> coverage_gate_ok(preconditions@[0], index.capability_floor, selections@),
            forall|q: int| 0 <= q < k ==> step_gate_ok(#[trigger] preconditions@[extra + q], decisions@[q]),
        decreases steps.len() - k,
    {
        let decision = &decisions[k];
        let mut id = owned("step:");
        append(&mut id, decision.id.as_str());
        let evaluation = match &decision.selected {
            Some(_) => Evaluation::Satisfied,
            None => Evaluation::Unsatisfied { reason: owned("the operator has not accepted this step") },
        };
        let ghost before = preconditions@;
        preconditions.push(
            Precondition {
                id,
                statement: owned(decision.question.as_str()),
                requirement: Requirement::DecisionRequired,
                evaluation,
                resolved_by: Some(owned(decision.id.as_str())),
                evidence_refs: release_refs(),
            },
        );
        proof {
            assert forall|q: int| 0 <= q < k + 1 implies step_gate_ok(#[trigger] preconditions@[extra + q], decisions@[q]) by {
                if q < k {
                    assert(preconditions@[extra + q] == before[extra + q]);
                }
            }
            if partial {
                assert(preconditions@[0] == before[0]);
            }
        }
        k += 1;
    }
    Briefing { preconditions, decisions, applicable, excluded }
}

} // verus!
