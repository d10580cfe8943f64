//! Every finding a plan can prove about the corpus, and the documents it
//! names without judging.

use vstd::prelude::*;

use crate::landing::finding::detector::{
    FOREIGN_DOCS_ROOT, NO_SPECS_DIRECTORY, ORDINAL_FILENAME, RECORD_OUTSIDE_DECISIONS,
    SPEC_WITHOUT_RULE_ID,
};
use crate::landing::finding::{Finding, FindingKind, StyleCandidate};
use crate::landing::observe::Corpus;
use crate::landing::path::TargetPath;
use crate::plan::classify::Classification;
use crate::plan::operation::{joined_parts, path_components, target_path_refusal};
use crate::plan::planner::inputs::Landing;
use crate::profile::{profile_word, ProfileId};
use crate::text::{append, owned, same_text};

verus! {

/// A finding read as its kind, path, rule, and statement.
pub type FindingModel = (FindingKind, Seq<char>, Seq<char>, Seq<char>);

/// One finding, read as plain values.
pub open spec fn finding_model(f: Finding) -> FindingModel {
    (f.kind, f.path@, f.rule@, f.statement@)
}

/// Findings, read as plain values.
pub open spec fn finding_models(fs: Seq<Finding>) -> Seq<FindingModel> {
    fs.map_values(|f: Finding| finding_model(f))
}

/// Whether no finding carries a measurement.
pub open spec fn unmeasured(fs: Seq<Finding>) -> bool {
    forall|i: int| 0 <= i < fs.len() ==> (#[trigger] fs[i]).measurement is None
}

/// The path a target path is written as, once accepted.
pub open spec fn normalized(value: Seq<char>) -> Seq<char> {
    joined_parts(path_components(value))
}

/// The statement a foreign documentation root is found with.
pub open spec fn foreign_statement(root: Seq<char>, profile: ProfileId, docs_root: Seq<char>) -> Seq<char> {
    root + " holds documents and the "@ + profile_word(profile) + " profile keeps them under "@
        + docs_root
}

/// Each populated documentation root that is not the profile's own and that
/// a plan may name, in order.
pub open spec fn foreign_roots(roots: Seq<String>, docs_root: Seq<char>, profile: ProfileId) -> Seq<
    FindingModel,
>
    decreases roots.len(),
{
    if roots.len() == 0 {
        Seq::empty()
    } else {
        let before = foreign_roots(roots.drop_last(), docs_root, profile);
        let root = roots.last()@;
        if root == docs_root || target_path_refusal(root) is Some {
            before
        } else {
            before.push(
                (
                    FindingKind::StructuralDebt,
                    normalized(root),
                    FOREIGN_DOCS_ROOT@,
                    foreign_statement(root, profile, docs_root),
                ),
            )
        }
    }
}

/// One structural finding per path, each with one rule and statement.
pub open spec fn path_findings(paths: Seq<TargetPath>, rule: Seq<char>, statement: Seq<char>) -> Seq<
    FindingModel,
> {
    paths.map_values(|p: TargetPath| (FindingKind::StructuralDebt, p@, rule, statement))
}

/// The statement a settled corpus without a specifications directory is
/// found with.
pub open spec fn no_specs_statement() -> Seq<char> {
    "the corpus is settled and no specifications directory holds its rules"@
}

/// The finding a settled corpus without a specifications directory gives.
pub open spec fn no_specs_finding(corpus: Corpus, docs_root: Seq<char>) -> Seq<FindingModel> {
    let specs = docs_root + "/specs"@;
    if corpus.documents@.len() > 0 && !corpus.has_specs_directory && target_path_refusal(specs)
        is None {
        seq![(FindingKind::StructuralDebt, normalized(specs), NO_SPECS_DIRECTORY@, no_specs_statement())]
    } else {
        Seq::empty()
    }
}

/// Every finding a plan proves about the corpus: nothing outside a
/// migration; the foreign roots and a missing specifications directory
/// once the profile and its root are settled; and the specification,
/// naming, and placement findings the observation carries.
pub open spec fn findings_spec(
    corpus: Corpus,
    profile: Option<ProfileId>,
    landing: Option<Landing>,
    classification: Classification,
) -> Seq<FindingModel> {
    if !(classification is Migration) {
        Seq::empty()
    } else {
        let settled_part = match (profile, landing) {
            (Some(p), Some(l)) => foreign_roots(corpus.populated_doc_roots@, l.docs_root@, p)
                + no_specs_finding(corpus, l.docs_root@),
            _ => Seq::empty(),
        };
        settled_part + path_findings(
            corpus.spec_without_rule_id@,
            SPEC_WITHOUT_RULE_ID@,
            "the document is shaped like a specification and defines no rule ID"@,
        ) + path_findings(
            corpus.ordinal_named@,
            ORDINAL_FILENAME@,
            "the document is named by its position rather than its subject"@,
        ) + path_findings(
            corpus.records_outside_decisions@,
            RECORD_OUTSIDE_DECISIONS@,
            "the decision record sits outside a decisions directory"@,
        )
    }
}

/// Append one structural finding per path.
fn push_path_findings(out: &mut Vec<Finding>, paths: &Vec<TargetPath>, rule: &str, statement: &str)
    requires
        unmeasured(old(out)@),
    ensures
        finding_models(final(out)@) == finding_models(old(out)@) + path_findings(
            paths@,
            rule@,
            statement@,
        ),
        unmeasured(final(out)@),
{
    let ghost start = out@;
    let mut i: usize = 0;
    while i < paths.len()
        invariant
            i <= paths.len(),
            finding_models(out@) == finding_models(start) + path_findings(
                paths@.take(i as int),
                rule@,
                statement@,
            ),
            unmeasured(out@),
        decreases paths.len() - i,
    {
        let ghost before = out@;
        out.push(
            Finding {
                kind: FindingKind::StructuralDebt,
                path: paths[i].copied(),
                rule: owned(rule),
                statement: owned(statement),
                measurement: None,
            },
        );
        proof {
            assert(finding_models(out@) =~= finding_models(before).push(finding_model(out@.last())));
            assert(path_findings(paths@.take(i + 1), rule@, statement@) =~= path_findings(
                paths@.take(i as int),
                rule@,
                statement@,
            ).push((FindingKind::StructuralDebt, paths@[i as int]@, rule@, statement@)));
        }
        i += 1;
    }
    assert(paths@.take(paths.len() as int) =~= paths@);
}

/// Every finding the program can prove.
pub fn findings_of(
    corpus: &Corpus,
    profile: Option<ProfileId>,
    landing: &Option<Landing>,
    classification: Classification,
) -> (r: Vec<Finding>)
    ensures
        finding_models(r@) == findings_spec(*corpus, profile, *landing, classification),
        unmeasured(r@),
{
    let mut findings: Vec<Finding> = Vec::new();
    if !matches!(classification, Classification::Migration) {
        assert(finding_models(findings@) =~= Seq::<FindingModel>::empty());
        return findings;
    }
    // The foreign-root detector needs the profile, so it waits for the
    // decision rather than judging against a default.
    if let (Some(p), Some(l)) = (profile, landing) {
        let roots = &corpus.populated_doc_roots;
        let docs_root = l.docs_root.as_str();
        let mut i: usize = 0;
        while i < roots.len()
            invariant
                i <= roots.len(),
                roots@ == corpus.populated_doc_roots@,
                docs_root@ == l.docs_root@,
                finding_models(findings@) == foreign_roots(roots@.take(i as int), docs_root@, p),
                unmeasured(findings@),
            decreases roots.len() - i,
        {
            let root = roots[i].as_str();
            assert(roots@.take(i + 1).drop_last() =~= roots@.take(i as int));
            if !same_text(root, docs_root) {
                if let Ok(path) = TargetPath::new(root) {
                    let mut statement = owned(root);
                    append(&mut statement, " holds documents and the ");
                    append(&mut statement, p.as_str());
                    append(&mut statement, " profile keeps them under ");
                    append(&mut statement, docs_root);
                    let ghost before = findings@;
                    findings.push(
                        Finding {
                            kind: FindingKind::StructuralDebt,
                            path,
                            rule: owned(FOREIGN_DOCS_ROOT),
                            statement,
                            measurement: None,
                        },
                    );
                    assert(finding_models(findings@) =~= finding_models(before).push(
                        finding_model(findings@.last()),
                    ));
                }
            }
            i += 1;
        }
        assert(roots@.take(roots.len() as int) =~= roots@);
        if corpus.settled() && !corpus.has_specs_directory {
            let mut specs = owned(docs_root);
            append(&mut specs, "/specs");
            if let Ok(path) = TargetPath::new(specs.as_str()) {
                let ghost before = findings@;
                findings.push(
                    Finding {
                        kind: FindingKind::StructuralDebt,
                        path,
                        rule: owned(NO_SPECS_DIRECTORY),
                        statement: owned(
                            "the corpus is settled and no specifications directory holds its rules",
                        ),
                        measurement: None,
                    },
                );
                assert(finding_models(findings@) =~= finding_models(before).push(
                    finding_model(findings@.last()),
                ));
            }
        }
        assert(finding_models(findings@) =~= foreign_roots(
            corpus.populated_doc_roots@,
            l.docs_root@,
            p,
        ) + no_specs_finding(*corpus, l.docs_root@));
    } else {
        assert(finding_models(findings@) =~= Seq::<FindingModel>::empty());
    }
    push_path_findings(
        &mut findings,
        &corpus.spec_without_rule_id,
        SPEC_WITHOUT_RULE_ID,
        "the document is shaped like a specification and defines no rule ID",
    );
    push_path_findings(
        &mut findings,
        &corpus.ordinal_named,
        ORDINAL_FILENAME,
        "the document is named by its position rather than its subject",
    );
    push_path_findings(
        &mut findings,
        &corpus.records_outside_decisions,
        RECORD_OUTSIDE_DECISIONS,
        "the decision record sits outside a decisions directory",
    );
    findings
}

/// The reason every style candidate carries.
pub open spec fn candidate_reason() -> Seq<char> {
    "the document predates the instance, and no gate judges its prose"@
}

/// Documents written before the instance, named and never judged: every
/// document of a migrating corpus, and none otherwise.
pub fn style_candidates_of(corpus: &Corpus, classification: Classification) -> (r: Vec<
    StyleCandidate,
>)
    ensures
        classification is Migration ==> r@.len() == corpus.documents@.len(),
        !(classification is Migration) ==> r@.len() == 0,
        forall|i: int|
            0 <= i < r@.len() ==> (#[trigger] r@[i]).path@ == corpus.documents@[i]@ && r@[i].reason@
                == candidate_reason(),
{
    let mut out: Vec<StyleCandidate> = Vec::new();
    if !matches!(classification, Classification::Migration) {
        return out;
    }
    let mut i: usize = 0;
    while i < corpus.documents.len()
        invariant
            i <= corpus.documents.len(),
            out@.len() == i,
            forall|j: int|
                0 <= j < i ==> (#[trigger] out@[j]).path@ == corpus.documents@[j]@ && out@[j].reason@
                    == candidate_reason(),
        decreases corpus.documents.len() - i,
    {
        out.push(
            StyleCandidate {
                path: corpus.documents[i].copied(),
                reason: owned("the document predates the instance, and no gate judges its prose"),
            },
        );
        i += 1;
    }
    out
}

} // verus!
