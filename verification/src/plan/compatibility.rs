//! What a release needs of the engine that lands it.
//!
//! A bundle can be authentic, intact, and still wrong for this engine: it
//! may need a newer one, or a version the interval must pass through.
//! Both are declared by the release rather than inferred, because only the
//! release knows what it asked of the tool that wrote it.
//!
//! The declaration is required. An absence that means "no requirement"
//! cannot be told from an absence that means somebody forgot, so a
//! schema-one bundle without the file is invalid and says which file.

use vstd::prelude::*;

use crate::plan::readiness::{Evaluation, Precondition, Requirement};
use crate::text::{append, joined, owned, same_text};
use crate::toml_doc::{
    lookup, read_toml, read_utf8, stray, stray_key, stray_message, stray_refusal, text_field,
    text_field_of, toml_read, utf8_refusal, version_field, version_field_of, version_list_field,
    version_list_field_of, Toml, TomlModel,
};
use crate::version::{version_lt, CanonVersion};

verus! {

/// Where the declaration sits inside a bundle.
pub const DECLARATION_PATH: &'static str = "instance/compatibility.toml";

/// The schema this engine reads.
pub const SCHEMA: &'static str = "sdd.compatibility/1";

/// A declaration this engine cannot read.
#[derive(Debug, PartialEq, Eq)]
pub enum CompatibilityError {
    /// The bytes are not the declaration's shape.
    Malformed(String),
    /// The declaration is written in a schema this engine does not read.
    UnknownSchema(String),
}

/// A `CompatibilityError` with its text read as characters.
pub enum CompatibilityFault {
    /// See `CompatibilityError::Malformed`.
    Malformed(Seq<char>),
    /// See `CompatibilityError::UnknownSchema`.
    UnknownSchema(Seq<char>),
}

impl View for CompatibilityError {
    type V = CompatibilityFault;

    open spec fn view(&self) -> CompatibilityFault {
        match self {
            CompatibilityError::Malformed(m) => CompatibilityFault::Malformed(m@),
            CompatibilityError::UnknownSchema(s) => CompatibilityFault::UnknownSchema(s@),
        }
    }
}

impl CompatibilityError {
    /// The refusal as a person reads it.
    pub fn message(&self) -> (m: String)
        ensures
            m@ == match *self {
                CompatibilityError::Malformed(why) => DECLARATION_PATH@ + " does not parse: "@ + why@,
                CompatibilityError::UnknownSchema(found) => DECLARATION_PATH@ + " declares schema "@
                    + found@ + ", and this engine reads "@ + SCHEMA@,
            },
    {
        let mut m = owned(DECLARATION_PATH);
        match self {
            CompatibilityError::Malformed(why) => {
                append(&mut m, " does not parse: ");
                append(&mut m, why.as_str());
            },
            CompatibilityError::UnknownSchema(found) => {
                append(&mut m, " declares schema ");
                append(&mut m, found.as_str());
                append(&mut m, ", and this engine reads ");
                append(&mut m, SCHEMA);
            },
        }
        m
    }
}

/// What one release needs of its engine.
#[derive(Debug, Clone, PartialEq, Eq)]
pub struct Compatibility {
    /// Always [`SCHEMA`] once parsed.
    pub schema: String,
    /// The lowest engine that can land this release.
    pub minimum_engine: CanonVersion,
    /// Versions an upgrade may not skip.
    pub must_pass_through: Vec<CanonVersion>,
}

/// The keys a declaration takes.
pub open spec fn compatibility_keys() -> Seq<Seq<char>> {
    seq!["schema"@, "minimum_engine"@, "must_pass_through"@]
}

/// What a declaration's bytes read as: the schema, the minimum engine and
/// the versions to pass through, each as its spelling, or the refusal.
/// Unknown keys are refused, as `deny_unknown_fields` refuses them.
pub open spec fn compatibility_read(bytes: Seq<u8>) -> Result<
    (Seq<char>, Seq<char>, Seq<Seq<char>>),
    CompatibilityFault,
> {
    if !vstd::utf8::valid_utf8(bytes) {
        Err(CompatibilityFault::Malformed(utf8_refusal(bytes)))
    } else {
        match toml_read(vstd::utf8::decode_utf8(bytes)) {
            Err(m) => Err(CompatibilityFault::Malformed(m)),
            Ok(TomlModel::Table(e)) => match stray_key(e, compatibility_keys()) {
                Some(k) => Err(CompatibilityFault::Malformed(stray_message(k))),
                None => match text_field_of(lookup(e, "schema"@), "schema"@) {
                    Err(m) => Err(CompatibilityFault::Malformed(m)),
                    Ok(schema) => match version_field_of(
                        lookup(e, "minimum_engine"@),
                        "minimum_engine"@,
                    ) {
                        Err(m) => Err(CompatibilityFault::Malformed(m)),
                        Ok(minimum) => match version_list_field_of(
                            lookup(e, "must_pass_through"@),
                            "must_pass_through"@,
                        ) {
                            Err(m) => Err(CompatibilityFault::Malformed(m)),
                            Ok(through) => if schema != SCHEMA@ {
                                Err(CompatibilityFault::UnknownSchema(schema))
                            } else {
                                Ok((schema, minimum, through))
                            },
                        },
                    },
                },
            },
            Ok(_) => Err(CompatibilityFault::Malformed("the document is not a table"@)),
        }
    }
}

impl Compatibility {
    /// Read one declaration.
    ///
    /// Refused as malformed: bytes that are not UTF-8 or not TOML, an
    /// unknown key, and a missing or misshapen field; refused as an
    /// unknown schema: a declaration that reads but names another schema.
    pub fn parse(bytes: &[u8]) -> (r: Result<Compatibility, CompatibilityError>)
        ensures
            match r {
                Ok(c) => compatibility_read(bytes@) == Ok::<
                    (Seq<char>, Seq<char>, Seq<Seq<char>>),
                    CompatibilityFault,
                >(
                    (
                        c.schema@,
                        c.minimum_engine.text(),
                        c.must_pass_through@.map_values(|v: CanonVersion| v.text()),
                    ),
                ),
                Err(e) => compatibility_read(bytes@) == Err::<
                    (Seq<char>, Seq<char>, Seq<Seq<char>>),
                    CompatibilityFault,
                >(e@),
            },
    {
        let text = match read_utf8(bytes) {
            Ok(t) => t,
            Err(m) => {
                return Err(CompatibilityError::Malformed(m));
            },
        };
        let doc = match read_toml(text.as_str()) {
            Ok(d) => d,
            Err(m) => {
                return Err(CompatibilityError::Malformed(m));
            },
        };
        let entries = match &doc {
            Toml::Table(entries) => entries,
            _ => {
                return Err(CompatibilityError::Malformed(owned("the document is not a table")));
            },
        };
        let allowed: Vec<&str> = vec!["schema", "minimum_engine", "must_pass_through"];
        assert(allowed@.map_values(|a: &str| a@) =~= compatibility_keys());
        if let Some(k) = stray(entries, &allowed) {
            return Err(CompatibilityError::Malformed(stray_refusal(k)));
        }
        let schema = match text_field(entries, "schema") {
            Ok(s) => s,
            Err(m) => {
                return Err(CompatibilityError::Malformed(m));
            },
        };
        let minimum_engine = match version_field(entries, "minimum_engine") {
            Ok(v) => v,
            Err(m) => {
                return Err(CompatibilityError::Malformed(m));
            },
        };
        let must_pass_through = match version_list_field(entries, "must_pass_through") {
            Ok(v) => v,
            Err(m) => {
                return Err(CompatibilityError::Malformed(m));
            },
        };
        if !same_text(schema.as_str(), SCHEMA) {
            return Err(CompatibilityError::UnknownSchema(schema));
        }
        Ok(Compatibility { schema, minimum_engine, must_pass_through })
    }
}

/// What the plan checks the compatibility against.
#[derive(Debug, Clone)]
pub struct Interval {
    /// The engine running this plan.
    pub engine: CanonVersion,
    /// The release the target records, where it records one.
    pub recorded: Option<CanonVersion>,
    /// The release the plan converges toward.
    pub destination: CanonVersion,
}


/// The versions an interval from `recorded` to `destination` would skip
/// that the release says must be passed through, as their spellings.
pub open spec fn skipped_versions(
    through: Seq<CanonVersion>,
    recorded: CanonVersion,
    destination: CanonVersion,
) -> Seq<Seq<char>> {
    through.filter(|v: CanonVersion| version_lt(recorded, v) && version_lt(v, destination)).map_values(
        |v: CanonVersion| v.text(),
    )
}

/// One required gate that does not hold: its identifier, its statement,
/// why it does not hold, and the one reference it cites.
pub open spec fn blocked_gate(
    p: Precondition,
    gate: (Seq<char>, Seq<char>, Seq<char>, Seq<char>),
) -> bool {
    &&& p.id@ == gate.0
    &&& p.statement@ == gate.1
    &&& p.requirement == Requirement::Required
    &&& p.evaluation matches Evaluation::Unsatisfied { reason } && reason@ == gate.2
    &&& p.resolved_by is None
    &&& p.evidence_refs@.len() == 1
    &&& p.evidence_refs@[0]@ == gate.3
}

/// Every compatibility gate an interval fails, in order: an engine too
/// old, a downgrade, and a skipped version.
pub open spec fn failed_gates(held: Compatibility, interval: Interval) -> Seq<
    (Seq<char>, Seq<char>, Seq<char>, Seq<char>),
> {
    let engine: Seq<(Seq<char>, Seq<char>, Seq<char>, Seq<char>)> = if version_lt(
        interval.engine,
        held.minimum_engine,
    ) {
        seq![
            (
                "engine-is-new-enough"@,
                "this release needs sdd "@ + held.minimum_engine.text() + " or newer"@,
                "this engine is "@ + interval.engine.text() + " and "@
                    + interval.destination.text() + " needs "@ + held.minimum_engine.text()
                    + "; install a newer sdd"@,
                "release"@,
            ),
        ]
    } else {
        Seq::empty()
    };
    match interval.recorded {
        None => engine,
        Some(recorded) => {
            let downgrade: Seq<(Seq<char>, Seq<char>, Seq<char>, Seq<char>)> = if version_lt(
                interval.destination,
                recorded,
            ) {
                seq![
                    (
                        "the-target-is-not-downgraded"@,
                        "the destination is not older than what the target records"@,
                        "the target records "@ + recorded.text() + " and the destination is "@
                            + interval.destination.text() + "; a target is never downgraded"@,
                        "record"@,
                    ),
                ]
            } else {
                Seq::empty()
            };
            let skipped = skipped_versions(
                held.must_pass_through@,
                recorded,
                interval.destination,
            );
            let skip: Seq<(Seq<char>, Seq<char>, Seq<char>, Seq<char>)> = if skipped.len() > 0 {
                seq![
                    (
                        "no-version-is-skipped"@,
                        "the interval passes through every version that requires it"@,
                        joined(skipped, ", "@) + " must be passed through; plan --to "@
                            + skipped[0] + " first"@,
                        "release"@,
                    ),
                ]
            } else {
                Seq::empty()
            };
            engine + downgrade + skip
        },
    }
}

fn required_gate(id: &str, statement: String, reason: String, cite: &str) -> (p: Precondition)
    ensures
        blocked_gate(p, (id@, statement@, reason@, cite@)),
{
    let mut refs: Vec<String> = Vec::new();
    refs.push(owned(cite));
    Precondition {
        id: owned(id),
        statement,
        requirement: Requirement::Required,
        evaluation: Evaluation::Unsatisfied { reason },
        resolved_by: None,
        evidence_refs: refs,
    }
}

/// Every compatibility precondition one interval carries.
///
/// Three axes, each blocked where it fails, because none of them is a
/// judgement call: an engine too old cannot decode the bundle, a skipped
/// version was declared unskippable by the release that needs it, and a
/// target is never downgraded.
pub fn preconditions(held: &Compatibility, interval: &Interval) -> (r: Vec<Precondition>)
    ensures
        r@.len() == failed_gates(*held, *interval).len(),
        forall|i: int| 0 <= i < r@.len() ==> blocked_gate(#[trigger] r@[i], failed_gates(*held, *interval)[i]),
{
    let ghost expected = failed_gates(*held, *interval);
    let mut out: Vec<Precondition> = Vec::new();
    let ghost mut want: Seq<(Seq<char>, Seq<char>, Seq<char>, Seq<char>)> = Seq::empty();
    if interval.engine.precedes(&held.minimum_engine) {
        let mut statement = owned("this release needs sdd ");
        append(&mut statement, held.minimum_engine.to_text().as_str());
        append(&mut statement, " or newer");
        let mut reason = owned("this engine is ");
        append(&mut reason, interval.engine.to_text().as_str());
        append(&mut reason, " and ");
        append(&mut reason, interval.destination.to_text().as_str());
        append(&mut reason, " needs ");
        append(&mut reason, held.minimum_engine.to_text().as_str());
        append(&mut reason, "; install a newer sdd");
        out.push(required_gate("engine-is-new-enough", statement, reason, "release"));
        proof {
            want = want.push(
                (
                    "engine-is-new-enough"@,
                    "this release needs sdd "@ + held.minimum_engine.text() + " or newer"@,
                    "this engine is "@ + interval.engine.text() + " and "@
                        + interval.destination.text() + " needs "@ + held.minimum_engine.text()
                        + "; install a newer sdd"@,
                    "release"@,
                ),
            );
        }
    }
    assert(out@.len() == want.len());
    assert(forall|i: int| 0 <= i < out@.len() ==> blocked_gate(#[trigger] out@[i], want[i]));
    match interval.recorded {
        None => {
            assert(want =~= expected);
            return out;
        },
        Some(recorded) => {
            let ghost engine_part = want;
            if interval.destination.precedes(&recorded) {
                let mut reason = owned("the target records ");
                append(&mut reason, recorded.to_text().as_str());
                append(&mut reason, " and the destination is ");
                append(&mut reason, interval.destination.to_text().as_str());
                append(&mut reason, "; a target is never downgraded");
                out.push(
                    required_gate(
                        "the-target-is-not-downgraded",
                        owned("the destination is not older than what the target records"),
                        reason,
                        "record",
                    ),
                );
                proof {
                    want = want.push(
                        (
                            "the-target-is-not-downgraded"@,
                            "the destination is not older than what the target records"@,
                            "the target records "@ + recorded.text() + " and the destination is "@
                                + interval.destination.text() + "; a target is never downgraded"@,
                            "record"@,
                        ),
                    );
                }
            }
            let ghost through = held.must_pass_through@;
            let ghost keep = |v: CanonVersion| version_lt(recorded, v) && version_lt(v, interval.destination);
            let mut skipped: Vec<String> = Vec::new();
            let mut k: usize = 0;
            while k < held.must_pass_through.len()
                invariant
                    k <= held.must_pass_through.len(),
                    through == held.must_pass_through@,
                    keep == (|v: CanonVersion| version_lt(recorded, v) && version_lt(v, interval.destination)),
                    skipped@.map_values(|s: String| s@) == through.take(k as int).filter(keep).map_values(
                        |v: CanonVersion| v.text(),
                    ),
                decreases held.must_pass_through.len() - k,
            {
                let v = held.must_pass_through[k];
                proof {
                    let t = through.take(k + 1);
                    assert(t.drop_last() =~= through.take(k as int));
                    assert(t.last() == v);
                    assert(t.filter(keep) == if keep(v) { through.take(k as int).filter(keep).push(v) } else { through.take(k as int).filter(keep) }) by {
                        through.take(k as int).lemma_filter_push(v, keep);
                        assert(t =~= through.take(k as int).push(v));
                    }
                }
                if recorded.precedes(&v) && v.precedes(&interval.destination) {
                    let ghost before = skipped@;
                    skipped.push(v.to_text());
                    assert(skipped@.map_values(|s: String| s@) =~= before.map_values(|s: String| s@).push(v.text()));
                }
                proof {
                    assert(through.take(k as int).filter(keep).map_values(|v: CanonVersion| v.text()).push(v.text()) =~= through.take(k as int).filter(keep).push(v).map_values(|v: CanonVersion| v.text()));
                }
                k += 1;
            }
            assert(through.take(k as int) =~= through);
            let ghost names = skipped@.map_values(|s: String| s@);
            assert(names == skipped_versions(through, recorded, interval.destination));
            if skipped.len() > 0 {
                let mut reason = String::new();
                let mut j: usize = 0;
                while j < skipped.len()
                    invariant
                        0 < skipped.len(),
                        j <= skipped.len(),
                        names == skipped@.map_values(|s: String| s@),
                        reason@ == joined(names.take(j as int), ", "@),
                    decreases skipped.len() - j,
                {
                    if j > 0 {
                        append(&mut reason, ", ");
                    }
                    append(&mut reason, skipped[j].as_str());
                    proof {
                        let t = names.take(j + 1);
                        assert(t.drop_last() =~= names.take(j as int));
                        assert(t.last() == skipped@[j as int]@);
                        if j == 0 {
                            assert(names.take(0).len() == 0);
                            assert(reason@ =~= joined(t, ", "@));
                        } else {
                            assert(reason@ =~= joined(t, ", "@));
                        }
                    }
                    j += 1;
                }
                assert(names.take(j as int) =~= names);
                append(&mut reason, " must be passed through; plan --to ");
                append(&mut reason, skipped[0].as_str());
                append(&mut reason, " first");
                out.push(
                    required_gate(
                        "no-version-is-skipped",
                        owned("the interval passes through every version that requires it"),
                        reason,
                        "release",
                    ),
                );
                proof {
                    want = want.push(
                        (
                            "no-version-is-skipped"@,
                            "the interval passes through every version that requires it"@,
                            joined(names, ", "@) + " must be passed through; plan --to "@
                                + names[0] + " first"@,
                            "release"@,
                        ),
                    );
                }
            }
            assert(want =~= expected);
            out
        },
    }
}

/// Whether a release comes strictly before another, part by part: the
/// major first, then the minor, then the patch.
pub open spec fn triple_before(a: CanonVersion, b: CanonVersion) -> bool {
    a.major < b.major || (a.major == b.major && a.minor < b.minor) || (a.major == b.major && a.minor == b.minor
        && a.patch < b.patch)
}

/// Whether one of the gates carries the identifier.
pub open spec fn names_gate(gates: Seq<(Seq<char>, Seq<char>, Seq<char>, Seq<char>)>, id: Seq<char>) -> bool {
    exists|k: int| 0 <= k < gates.len() && #[trigger] gates[k].0 == id
}

/// An interval skips a version exactly when the release declares one
/// that lies strictly after the recorded release and strictly before the
/// destination: the destination itself, and the recorded release, are
/// never skipped, and a target that records nothing skips nothing.
pub proof fn law_only_a_version_strictly_inside_is_skipped(held: Compatibility, interval: Interval)
    ensures
        names_gate(failed_gates(held, interval), "no-version-is-skipped"@) <==> (interval.recorded matches Some(r)
            && exists|i: int|
            0 <= i < held.must_pass_through@.len() && triple_before(r, #[trigger] held.must_pass_through@[i])
                && triple_before(held.must_pass_through@[i], interval.destination)),
{
    reveal_strlit("no-version-is-skipped");
    reveal_strlit("engine-is-new-enough");
    reveal_strlit("the-target-is-not-downgraded");
    let gates = failed_gates(held, interval);
    let id = "no-version-is-skipped"@;
    assert("engine-is-new-enough"@ != id) by {
        assert("engine-is-new-enough"@[0] != id[0]);
    }
    assert("the-target-is-not-downgraded"@ != id) by {
        assert("the-target-is-not-downgraded"@[0] != id[0]);
    }
    match interval.recorded {
        None => {
            if names_gate(gates, id) {
                let k = choose|k: int| 0 <= k < gates.len() && #[trigger] gates[k].0 == id;
            }
        },
        Some(r) => {
            let through = held.must_pass_through@;
            let keep = |v: CanonVersion| version_lt(r, v) && version_lt(v, interval.destination);
            let skipped = skipped_versions(through, r, interval.destination);
            let kept = through.filter(keep);
            assert(skipped.len() == kept.len());
            let inside = exists|i: int|
                0 <= i < through.len() && triple_before(r, #[trigger] through[i]) && triple_before(
                    through[i],
                    interval.destination,
                );
            if inside {
                let i = choose|i: int|
                    0 <= i < through.len() && triple_before(r, #[trigger] through[i]) && triple_before(
                        through[i],
                        interval.destination,
                    );
                assert(keep(through[i]));
                through.lemma_filter_contains(keep, i);
                assert(kept.len() > 0);
                assert(gates.last().0 == id);
                assert(gates[gates.len() - 1].0 == id);
            }
            if kept.len() > 0 {
                through.lemma_filter_pred(keep, 0);
                assert(kept.contains(kept[0]));
                through.lemma_filter_contains_rev(keep, kept[0]);
                let i = choose|i: int| 0 <= i < through.len() && through[i] == kept[0];
                assert(triple_before(r, through[i]) && triple_before(through[i], interval.destination));
            }
            if names_gate(gates, id) {
                let k = choose|k: int| 0 <= k < gates.len() && #[trigger] gates[k].0 == id;
                assert(kept.len() > 0);
            }
        },
    }
}

} // verus!
