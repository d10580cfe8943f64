//! What the operator decides, and how they say it.
//!
//! A decision is workflow state the operator owns. The planner offers it,
//! the operator answers it by re-planning with `--set`, and the answer
//! joins the fingerprint, so an approval binds to the answers it was given
//! with. Nothing here guesses a default: a decision the operator has not
//! made is a decision the plan is waiting on.
//!
//! Decisions form an acyclic graph. Until an upstream decision is
//! selected, the planner omits the findings, decisions, and operations
//! that depend on it, rather than computing them against a value nobody
//! chose.

use vstd::prelude::*;

use crate::text::{
    chars_of, joined, find_char_from, first_index_from, has_prefix, lemma_first_index_from,
    lemma_text_lt_asymmetric, lemma_text_lt_irreflexive, lemma_text_lt_total,
    lemma_text_lt_transitive, owned, same_text, starts_with, str_lt, string_of, text_lt, trim,
    trim_spec,
};

use crate::sorted_map::{
    entries_map, holds_key, index_of_key, lemma_map_at, put_entry, sorted_keys,
};

pub mod id;

verus! {

/// One answer the operator may give, and what it means.
#[derive(Debug, Clone, PartialEq, Eq)]
pub struct Choice {
    /// The identifier, as `--set` spells it.
    pub id: String,
    /// What choosing it does.
    pub consequence: String,
}

/// What shape an answer takes.
#[derive(Debug, Clone, PartialEq, Eq)]
pub enum AnswerSchema {
    /// One of a closed set of choice identifiers.
    Choice {
        /// Every identifier the operator may give.
        choices: Vec<Choice>,
    },
    /// A choice identifier, or a prefixed value the operator supplies.
    ChoiceOrValue {
        /// Every plain identifier the operator may give.
        choices: Vec<Choice>,
        /// Every prefix that introduces an operator-supplied value.
        prefixes: Vec<String>,
    },
}

/// One question the plan is waiting on.
#[derive(Debug, Clone, PartialEq, Eq)]
pub struct Decision {
    /// A stable identifier, as `--set` spells it.
    pub id: String,
    /// The question, in one sentence.
    pub question: String,
    /// What an answer may look like.
    pub schema: AnswerSchema,
    /// Decisions that must be answered before this one is offered.
    pub depends_on: Vec<String>,
    /// The answer the operator gave, where they gave one.
    pub selected: Option<String>,
}

/// One of the choices carries the answer as its identifier.
pub open spec fn choice_listed(choices: Seq<Choice>, answer: Seq<char>) -> bool {
    exists|i: int| 0 <= i < choices.len() && #[trigger] choices[i].id@ == answer
}

/// The answer is one of the prefixes with something after it.
pub open spec fn prefix_takes(prefixes: Seq<String>, answer: Seq<char>) -> bool {
    exists|i: int|
        0 <= i < prefixes.len() && has_prefix(answer, #[trigger] prefixes[i]@) && answer.len()
            > prefixes[i]@.len()
}

/// Whether a decision accepts an answer.
pub open spec fn accepts_spec(schema: AnswerSchema, answer: Seq<char>) -> bool {
    match schema {
        AnswerSchema::Choice { choices } => choice_listed(choices@, answer),
        AnswerSchema::ChoiceOrValue { choices, prefixes } => choice_listed(choices@, answer)
            || prefix_takes(prefixes@, answer),
    }
}

fn any_choice(choices: &Vec<Choice>, answer: &str) -> (r: bool)
    ensures
        r == choice_listed(choices@, answer@),
{
    let mut i: usize = 0;
    while i < choices.len()
        invariant
            i <= choices.len(),
            forall|j: int| 0 <= j < i ==> choices@[j].id@ != answer@,
        decreases choices.len() - i,
    {
        if same_text(choices[i].id.as_str(), answer) {
            return true;
        }
        i += 1;
    }
    false
}

fn any_prefix(prefixes: &Vec<String>, answer: &str) -> (r: bool)
    ensures
        r == prefix_takes(prefixes@, answer@),
{
    let mut i: usize = 0;
    while i < prefixes.len()
        invariant
            i <= prefixes.len(),
            forall|j: int|
                0 <= j < i ==> !(has_prefix(answer@, #[trigger] prefixes@[j]@) && answer@.len()
                    > prefixes@[j]@.len()),
        decreases prefixes.len() - i,
    {
        let p = prefixes[i].as_str();
        if starts_with(answer, p) && answer.unicode_len() > p.unicode_len() {
            return true;
        }
        i += 1;
    }
    false
}

impl Decision {
    /// Whether an answer is one this decision accepts.
    pub fn accepts(&self, answer: &str) -> (r: bool)
        ensures
            r == accepts_spec(self.schema, answer@),
    {
        match &self.schema {
            AnswerSchema::Choice { choices } => any_choice(choices, answer),
            AnswerSchema::ChoiceOrValue { choices, prefixes } => any_choice(choices, answer)
                || any_prefix(prefixes, answer),
        }
    }
}

/// An answer the planner cannot take.
#[derive(Debug, Clone, PartialEq, Eq)]
pub enum AnswerError {
    /// The argument is not `<id>=<answer>`.
    Malformed(String),
    /// The same decision was answered twice.
    Duplicate(String),
    /// No decision carries that identifier.
    Unknown(String),
    /// The decision does not accept that answer.
    Rejected {
        /// The decision.
        id: String,
        /// What was given.
        answer: String,
    },
}

/// An `AnswerError` with its texts read as character sequences.
pub enum AnswerFault {
    /// See `AnswerError::Malformed`.
    Malformed(Seq<char>),
    /// See `AnswerError::Duplicate`.
    Duplicate(Seq<char>),
    /// See `AnswerError::Unknown`.
    Unknown(Seq<char>),
    /// See `AnswerError::Rejected`.
    Rejected(Seq<char>, Seq<char>),
}

impl View for AnswerError {
    type V = AnswerFault;

    open spec fn view(&self) -> AnswerFault {
        match self {
            AnswerError::Malformed(a) => AnswerFault::Malformed(a@),
            AnswerError::Duplicate(a) => AnswerFault::Duplicate(a@),
            AnswerError::Unknown(a) => AnswerFault::Unknown(a@),
            AnswerError::Rejected { id, answer } => AnswerFault::Rejected(id@, answer@),
        }
    }
}

/// What the operator selected, by decision identifier, in identifier
/// order with each identifier once.
#[derive(Debug)]
pub struct Selections {
    entries: Vec<(String, String)>,
}

impl View for Selections {
    type V = Map<Seq<char>, Seq<char>>;

    closed spec fn view(&self) -> Map<Seq<char>, Seq<char>> {
        entries_map(self.entries@)
    }
}

impl Selections {
    #[verifier::type_invariant]
    spec fn sorted(self) -> bool {
        sorted_keys(self.entries@)
    }

    /// No selections.
    pub fn new() -> (s: Selections)
        ensures
            s@ == Map::<Seq<char>, Seq<char>>::empty(),
    {
        let s = Selections { entries: Vec::new() };
        assert(s@ =~= Map::<Seq<char>, Seq<char>>::empty());
        s
    }

    /// Whether a decision has a selection.
    pub fn contains_key(&self, id: &str) -> (r: bool)
        ensures
            r == self@.dom().contains(id@),
    {
        proof {
            use_type_invariant(self);
        }
        let mut i: usize = 0;
        while i < self.entries.len()
            invariant
                i <= self.entries.len(),
                sorted_keys(self.entries@),
                forall|j: int| 0 <= j < i ==> self.entries@[j].0@ != id@,
            decreases self.entries.len() - i,
        {
            if same_text(self.entries[i].0.as_str(), id) {
                proof {
                    lemma_map_at(self.entries@, i as int);
                }
                return true;
            }
            i += 1;
        }
        false
    }

    /// The answer selected for a decision, where there is one.
    pub fn get(&self, id: &str) -> (r: Option<&str>)
        ensures
            r matches Some(a) ==> self@.dom().contains(id@) && self@[id@] == a@,
            r is None ==> !self@.dom().contains(id@),
    {
        proof {
            use_type_invariant(self);
        }
        let mut i: usize = 0;
        while i < self.entries.len()
            invariant
                i <= self.entries.len(),
                sorted_keys(self.entries@),
                forall|j: int| 0 <= j < i ==> self.entries@[j].0@ != id@,
            decreases self.entries.len() - i,
        {
            if same_text(self.entries[i].0.as_str(), id) {
                proof {
                    lemma_map_at(self.entries@, i as int);
                }
                return Some(self.entries[i].1.as_str());
            }
            i += 1;
        }
        None
    }

    /// The selections as pairs, in identifier order.
    pub fn pairs(&self) -> (r: &Vec<(String, String)>)
        ensures
            sorted_keys(r@),
            entries_map(r@) == self@,
    {
        proof {
            use_type_invariant(self);
        }
        &self.entries
    }

    /// Select an answer for a decision, replacing any earlier one.
    pub fn insert(&mut self, id: &str, answer: &str)
        ensures
            final(self)@ == old(self)@.insert(id@, answer@),
    {
        proof {
            use_type_invariant(&*self);
        }
        let mut entries = Vec::new();
        std::mem::swap(&mut entries, &mut self.entries);
        put_entry(&mut entries, id, owned(answer));
        self.entries = entries;
    }
}

/// Each argument read as its characters.
pub open spec fn argument_texts(arguments: Seq<String>) -> Seq<Seq<char>> {
    arguments.map_values(|a: String| a@)
}

/// An argument split at its first `=`, where it has one.
pub open spec fn split_at_equals(argument: Seq<char>) -> Option<(Seq<char>, Seq<char>)> {
    match first_index_from(argument, '=', 0) {
        Some(i) => Some((argument.take(i), argument.skip(i + 1))),
        None => None,
    }
}

/// What reading one more argument does to the selections so far.
pub open spec fn parse_step(m: Map<Seq<char>, Seq<char>>, argument: Seq<char>) -> Result<
    Map<Seq<char>, Seq<char>>,
    AnswerFault,
> {
    match split_at_equals(argument) {
        None => Err(AnswerFault::Malformed(argument)),
        Some((id, rest)) => if id.len() == 0 {
            Err(AnswerFault::Malformed(argument))
        } else if m.dom().contains(id) {
            Err(AnswerFault::Duplicate(id))
        } else {
            Ok(m.insert(id, trim_spec(rest)))
        },
    }
}

/// Reading the arguments in order onto the given selections; the first
/// argument that cannot be read decides the error.
pub open spec fn parse_from(m: Map<Seq<char>, Seq<char>>, arguments: Seq<Seq<char>>) -> Result<
    Map<Seq<char>, Seq<char>>,
    AnswerFault,
>
    decreases arguments.len(),
{
    if arguments.len() == 0 {
        Ok(m)
    } else {
        match parse_step(m, arguments[0]) {
            Err(e) => Err(e),
            Ok(next) => parse_from(next, arguments.drop_first()),
        }
    }
}

/// What reading the `--set` arguments gives.
pub open spec fn parse_spec(arguments: Seq<Seq<char>>) -> Result<
    Map<Seq<char>, Seq<char>>,
    AnswerFault,
> {
    parse_from(Map::empty(), arguments)
}

/// Read repeatable `--set` arguments into selections.
///
/// Splitting on the first `=` is deliberate: a value may carry one, and a
/// path frequently does. The answer is trimmed; the identifier is not.
/// Whether the decision exists and accepts the answer is [`validate`],
/// because that needs the plan the answers are for.
pub fn parse(arguments: &[String]) -> (r: Result<Selections, AnswerError>)
    ensures
        match r {
            Ok(s) => parse_spec(argument_texts(arguments@)) == Ok::<
                Map<Seq<char>, Seq<char>>,
                AnswerFault,
            >(s@),
            Err(e) => parse_spec(argument_texts(arguments@)) == Err::<
                Map<Seq<char>, Seq<char>>,
                AnswerFault,
            >(e@),
        },
{
    let ghost all = argument_texts(arguments@);
    let mut selections = Selections::new();
    let mut i: usize = 0;
    assert(all.skip(0) =~= all);
    while i < arguments.len()
        invariant
            i <= arguments.len(),
            all == argument_texts(arguments@),
            parse_spec(all) == parse_from(selections@, all.skip(i as int)),
        decreases arguments.len() - i,
    {
        let argument = arguments[i].as_str();
        let ghost rest_args = all.skip(i as int);
        assert(rest_args[0] == argument@);
        assert(rest_args.drop_first() =~= all.skip(i + 1));
        let v = chars_of(argument);
        proof {
            lemma_first_index_from(v@, '=', 0);
        }
        match find_char_from(&v, '=', 0) {
            None => {
                return Err(AnswerError::Malformed(owned(argument)));
            },
            Some(k) => {
                if k == 0 {
                    return Err(AnswerError::Malformed(owned(argument)));
                }
                let id = string_of(&v, 0, k);
                if selections.contains_key(id.as_str()) {
                    return Err(AnswerError::Duplicate(id));
                }
                let rest = string_of(&v, k + 1, v.len());
                let answer = trim(rest.as_str());
                selections.insert(id.as_str(), answer.as_str());
            },
        }
        i += 1;
    }
    assert(all.skip(i as int).len() == 0);
    Ok(selections)
}

/// The first decision at or after `from` with the identifier.
pub open spec fn find_from(offered: Seq<Decision>, id: Seq<char>, from: int) -> Option<int>
    decreases offered.len() - from,
{
    if from < 0 || from >= offered.len() {
        None
    } else if offered[from].id@ == id {
        Some(from)
    } else {
        find_from(offered, id, from + 1)
    }
}

/// Whether a selection names a decision the plan offers and an answer it
/// accepts.
pub open spec fn selection_ok(offered: Seq<Decision>, id: Seq<char>, answer: Seq<char>) -> bool {
    match find_from(offered, id, 0) {
        Some(i) => accepts_spec(offered[i].schema, answer),
        None => false,
    }
}

/// The refusal for a selection that is not taken.
pub open spec fn selection_fault(offered: Seq<Decision>, id: Seq<char>, answer: Seq<char>) -> AnswerFault {
    match find_from(offered, id, 0) {
        Some(_) => AnswerFault::Rejected(id, answer),
        None => AnswerFault::Unknown(id),
    }
}

fn find_decision(offered: &[Decision], id: &str) -> (r: Option<usize>)
    ensures
        r matches Some(i) ==> find_from(offered@, id@, 0) == Some(i as int) && i < offered@.len(),
        r is None ==> find_from(offered@, id@, 0) is None,
{
    let mut i: usize = 0;
    while i < offered.len()
        invariant
            i <= offered.len(),
            find_from(offered@, id@, 0) == find_from(offered@, id@, i as int),
        decreases offered.len() - i,
    {
        if same_text(offered[i].id.as_str(), id) {
            return Some(i);
        }
        i += 1;
    }
    None
}

/// Check every selection against the decisions a plan offers.
///
/// The selections are checked in identifier order, and the first that is
/// not taken decides the error: `Unknown` where the plan offers no
/// decision with that identifier, `Rejected` where the first decision with
/// it does not accept the answer. A stale answer is one of those two.
pub fn validate(offered: &[Decision], selections: &Selections) -> (r: Result<(), AnswerError>)
    ensures
        r is Ok <==> forall|k: Seq<char>| #[trigger]
            selections@.dom().contains(k) ==> selection_ok(offered@, k, selections@[k]),
        r matches Err(e) ==> exists|k: Seq<char>|
            #![trigger selections@.dom().contains(k)]
            {
                &&& selections@.dom().contains(k)
                &&& !selection_ok(offered@, k, selections@[k])
                &&& e@ == selection_fault(offered@, k, selections@[k])
                &&& forall|k2: Seq<char>|
                    #![trigger selections@.dom().contains(k2)]
                    selections@.dom().contains(k2) && text_lt(k2, k) ==> selection_ok(
                        offered@,
                        k2,
                        selections@[k2],
                    )
            },
{
    let pairs = selections.pairs();
    let ghost m = selections@;
    let mut i: usize = 0;
    while i < pairs.len()
        invariant
            i <= pairs.len(),
            sorted_keys(pairs@),
            entries_map(pairs@) == m,
            m == selections@,
            forall|j: int| 0 <= j < i ==> selection_ok(offered@, #[trigger] pairs@[j].0@, pairs@[j].1@),
        decreases pairs.len() - i,
    {
        let id = pairs[i].0.as_str();
        let answer = pairs[i].1.as_str();
        proof {
            lemma_map_at(pairs@, i as int);
        }
        let taken = match find_decision(offered, id) {
            None => false,
            Some(at) => offered[at].accepts(answer),
        };
        if !taken {
            let e = match find_decision(offered, id) {
                None => AnswerError::Unknown(owned(id)),
                Some(_) => AnswerError::Rejected { id: owned(id), answer: owned(answer) },
            };
            proof {
                let k = pairs@[i as int].0@;
                assert forall|k2: Seq<char>|
                    #![trigger m.dom().contains(k2)]
                    m.dom().contains(k2) && text_lt(k2, k) implies selection_ok(
                        offered@,
                        k2,
                        m[k2],
                    ) by {
                    let c = index_of_key(pairs@, k2);
                    lemma_map_at(pairs@, c);
                    if c >= i {
                        if c == i {
                            lemma_text_lt_irreflexive(k);
                        } else {
                            assert(text_lt(k, pairs@[c].0@));
                            lemma_text_lt_asymmetric(k, k2);
                        }
                    }
                }
                assert(m.dom().contains(k));
            }
            return Err(e);
        }
        i += 1;
    }
    proof {
        assert forall|k: Seq<char>| #[trigger] m.dom().contains(k) implies selection_ok(
            offered@,
            k,
            m[k],
        ) by {
            let c = index_of_key(pairs@, k);
            lemma_map_at(pairs@, c);
        }
    }
    Ok(())
}

/// The identifiers of the decisions, in order.
pub open spec fn decision_ids(ds: Seq<Decision>) -> Seq<Seq<char>> {
    ds.map_values(|d: Decision| d.id@)
}

/// Some decision carries the identifier.
pub open spec fn offers(ds: Seq<Decision>, id: Seq<char>) -> bool {
    exists|i: int| 0 <= i < ds.len() && #[trigger] ds[i].id@ == id
}

/// The `j`th prerequisite of the `i`th decision is offered.
pub open spec fn prerequisite_offered(ds: Seq<Decision>, i: int, j: int) -> bool {
    offers(ds, ds[i].depends_on@[j]@)
}

/// Every prerequisite names a decision the plan offers.
pub open spec fn deps_offered(ds: Seq<Decision>) -> bool {
    forall|i: int, j: int|
        0 <= i < ds.len() && 0 <= j < ds[i].depends_on@.len() ==> #[trigger] prerequisite_offered(
            ds,
            i,
            j,
        )
}

/// The `j`th prerequisite of the decision at position `k` of `order` is
/// the identifier of a decision at an earlier position.
pub open spec fn answered_before(ds: Seq<Decision>, order: Seq<int>, k: int, j: int) -> bool {
    exists|q: int| 0 <= q < k && #[trigger] ds[order[q]].id@ == ds[order[k]].depends_on@[j]@
}

/// `order` lists every decision once, each after the decisions its
/// prerequisites name.
pub open spec fn topological(ds: Seq<Decision>, order: Seq<int>) -> bool {
    &&& order.len() == ds.len()
    &&& order.no_duplicates()
    &&& forall|k: int| 0 <= k < order.len() ==> 0 <= #[trigger] order[k] < ds.len()
    &&& forall|k: int, j: int|
        0 <= k < order.len() && 0 <= j < ds[order[k]].depends_on@.len() ==> #[trigger] answered_before(
            ds,
            order,
            k,
            j,
        )
}

/// The decisions carry distinct identifiers and can be answered in some
/// order that never asks for a prerequisite before it is answered.
pub open spec fn well_ordered(ds: Seq<Decision>) -> bool {
    decision_ids(ds).no_duplicates() && exists|order: Seq<int>| topological(ds, order)
}

/// The refusal for a prerequisite nothing offers.
pub open spec fn missing_message(id: Seq<char>, needed: Seq<char>) -> Seq<char> {
    id + " depends on "@ + needed + ", which this plan does not offer"@
}

/// A sequence without repeats, each of whose elements `b` holds, is no
/// longer than the set of `b`'s elements.
proof fn lemma_distinct_within<A>(a: Seq<A>, b: Seq<A>)
    requires
        a.no_duplicates(),
        forall|i: int| 0 <= i < a.len() ==> b.contains(#[trigger] a[i]),
    ensures
        a.len() <= b.to_set().len() <= b.len(),
{
    broadcast use vstd::seq_lib::seq_to_set_is_finite;
    a.unique_seq_to_set();
    b.lemma_cardinality_of_set();
    assert(a.to_set().subset_of(b.to_set())) by {
        assert forall|x: A| a.to_set().contains(x) implies b.to_set().contains(x) by {
            let i = choose|i: int| 0 <= i < a.len() && a[i] == x;
            assert(b.contains(a[i]));
        }
    }
    vstd::set_lib::lemma_len_subset(a.to_set(), b.to_set());
}

/// Whether one of the settled identifiers is `id`.
spec fn settled_with(settled: Seq<&str>, id: Seq<char>) -> bool {
    exists|q: int| 0 <= q < settled.len() && #[trigger] settled[q]@ == id
}

/// Whether the decision at `e` was stuck in a round that settled nothing.
spec fn stuck_or_settled(ds: Seq<Decision>, settled: Seq<&str>, e: int) -> bool {
    settled_with(settled, ds[e].id@) || exists|j: int|
        0 <= j < ds[e].depends_on@.len() && !settled_with(settled, #[trigger] ds[e].depends_on@[j]@)
}

fn settled_has(settled: &Vec<&str>, id: &str) -> (r: bool)
    ensures
        r == settled_with(settled@, id@),
{
    let mut q: usize = 0;
    while q < settled.len()
        invariant
            q <= settled.len(),
            forall|p: int| 0 <= p < q ==> #[trigger] settled@[p]@ != id@,
        decreases settled.len() - q,
    {
        if same_text(settled[q], id) {
            return true;
        }
        q += 1;
    }
    false
}

fn all_settled(settled: &Vec<&str>, needed: &Vec<String>) -> (r: bool)
    ensures
        r == forall|j: int| 0 <= j < needed@.len() ==> settled_with(settled@, #[trigger] needed@[j]@),
{
    let mut j: usize = 0;
    while j < needed.len()
        invariant
            j <= needed.len(),
            forall|p: int| 0 <= p < j ==> settled_with(settled@, #[trigger] needed@[p]@),
        decreases needed.len() - j,
    {
        if !settled_has(settled, needed[j].as_str()) {
            return false;
        }
        j += 1;
    }
    true
}

fn is_offered(decisions: &[Decision], id: &str) -> (r: bool)
    ensures
        r == offers(decisions@, id@),
{
    let mut i: usize = 0;
    while i < decisions.len()
        invariant
            i <= decisions.len(),
            forall|p: int| 0 <= p < i ==> #[trigger] decisions@[p].id@ != id@,
        decreases decisions.len() - i,
    {
        if same_text(decisions[i].id.as_str(), id) {
            return true;
        }
        i += 1;
    }
    false
}

/// What the settling rounds keep: `order` is the settled decisions in the
/// order they were settled, their identifiers are `settled`, distinct, and
/// each was settled after everything it depends on.
spec fn settling(ds: Seq<Decision>, order: Seq<int>, settled: Seq<&str>) -> bool {
    &&& settled.len() == order.len()
    &&& order.no_duplicates()
    &&& forall|k: int| 0 <= k < order.len() ==> 0 <= #[trigger] order[k] < ds.len()
    &&& forall|k: int| 0 <= k < order.len() ==> #[trigger] settled[k]@ == ds[order[k]].id@
    &&& forall|a: int, b: int| 0 <= a < b < settled.len() ==> #[trigger] settled[a]@ != #[trigger] settled[b]@
    &&& forall|k: int, j: int|
        0 <= k < order.len() && 0 <= j < ds[order[k]].depends_on@.len() ==> #[trigger] answered_before(
            ds,
            order,
            k,
            j,
        )
}

proof fn lemma_settled_bounded(ds: Seq<Decision>, order: Seq<int>, settled: Seq<&str>)
    requires
        settling(ds, order, settled),
    ensures
        settled.len() <= decision_ids(ds).to_set().len() <= ds.len(),
{
    let views = settled.map_values(|s: &str| s@);
    assert forall|k: int| 0 <= k < views.len() implies decision_ids(ds).contains(#[trigger] views[k]) by {
        assert(decision_ids(ds)[order[k]] == views[k]);
    }
    assert forall|a: int, b: int| 0 <= a < views.len() && 0 <= b < views.len() && a != b implies views[a]
        != views[b] by {
        if a < b {
            assert(settled[a]@ != settled[b]@);
        } else {
            assert(settled[b]@ != settled[a]@);
        }
    }
    lemma_distinct_within(views, decision_ids(ds));
}

proof fn lemma_first_unsettled(ds: Seq<Decision>, order: Seq<int>, settled: Seq<&str>, p: int) -> (p0: int)
    requires
        0 <= p < order.len(),
        forall|k: int| 0 <= k < order.len() ==> 0 <= #[trigger] order[k] < ds.len(),
        !settled_with(settled, ds[order[p]].id@),
    ensures
        0 <= p0 <= p,
        !settled_with(settled, ds[order[p0]].id@),
        forall|q: int| 0 <= q < p0 ==> settled_with(settled, #[trigger] ds[order[q]].id@),
    decreases p,
{
    if forall|q: int| 0 <= q < p ==> settled_with(settled, #[trigger] ds[order[q]].id@) {
        p
    } else {
        let q = choose|q: int| 0 <= q < p && !settled_with(settled, #[trigger] ds[order[q]].id@);
        lemma_first_unsettled(ds, order, settled, q)
    }
}

/// A round that settles nothing while decisions remain shows that no
/// order answers every decision after its prerequisites.
proof fn lemma_stall_not_ordered(ds: Seq<Decision>, settled: Seq<&str>)
    requires
        settled.len() < ds.len(),
        forall|e: int| 0 <= e < ds.len() ==> stuck_or_settled(ds, settled, e),
    ensures
        !well_ordered(ds),
{
    if well_ordered(ds) {
        let order = choose|order: Seq<int>| topological(ds, order);
        let ids = decision_ids(ds);
        let xs = order.map_values(|q: int| ds[q].id@);
        if forall|p: int| 0 <= p < order.len() ==> settled_with(settled, #[trigger] ds[order[p]].id@) {
            let views = settled.map_values(|s: &str| s@);
            assert forall|p: int| 0 <= p < xs.len() implies views.contains(#[trigger] xs[p]) by {
                assert(settled_with(settled, ds[order[p]].id@));
                let q = choose|q: int| 0 <= q < settled.len() && #[trigger] settled[q]@ == ds[order[p]].id@;
                assert(views[q] == xs[p]);
            }
            assert forall|a: int, b: int| 0 <= a < xs.len() && 0 <= b < xs.len() && a != b implies xs[a]
                != xs[b] by {
                assert(ids[order[a]] == xs[a]);
                assert(ids[order[b]] == xs[b]);
            }
            lemma_distinct_within(xs, views);
        } else {
            let p = choose|p: int| 0 <= p < order.len() && !settled_with(settled, #[trigger] ds[order[p]].id@);
            let p0 = lemma_first_unsettled(ds, order, settled, p);
            let e = order[p0];
            assert(stuck_or_settled(ds, settled, e));
            let j = choose|j: int|
                0 <= j < ds[e].depends_on@.len() && !settled_with(settled, #[trigger] ds[e].depends_on@[j]@);
            assert(answered_before(ds, order, p0, j));
            let q = choose|q: int| 0 <= q < p0 && #[trigger] ds[order[q]].id@ == ds[order[p0]].depends_on@[j]@;
            assert(settled_with(settled, ds[order[q]].id@));
        }
    }
}

/// `order` settles each decision it lists after the decisions its
/// prerequisites name.
pub open spec fn settles(ds: Seq<Decision>, order: Seq<int>) -> bool {
    &&& forall|k: int| 0 <= k < order.len() ==> 0 <= #[trigger] order[k] < ds.len()
    &&& forall|k: int, j: int|
        0 <= k < order.len() && 0 <= j < ds[order[k]].depends_on@.len() ==> #[trigger] answered_before(
            ds,
            order,
            k,
            j,
        )
}

/// Some order settles a decision with this identifier.
pub open spec fn settleable(ds: Seq<Decision>, id: Seq<char>) -> bool {
    exists|order: Seq<int>, k: int| settles(ds, order) && 0 <= k < order.len() && #[trigger] ds[order[k]].id@ == id
}

/// The identifiers, among the first `n` decisions in offer order, of the
/// decisions no order settles.
pub open spec fn stuck_among(ds: Seq<Decision>, n: nat) -> Seq<Seq<char>>
    decreases n,
{
    if n == 0 {
        Seq::empty()
    } else {
        let before = stuck_among(ds, (n - 1) as nat);
        if settleable(ds, ds[n - 1].id@) {
            before
        } else {
            before.push(ds[n - 1].id@)
        }
    }
}

/// The refusal for decisions that no order settles: each of them, in
/// offer order.
pub open spec fn cycle_message(ds: Seq<Decision>) -> Seq<char> {
    "these decisions form a cycle: "@ + joined(stuck_among(ds, ds.len()), ", "@)
}

/// Once a round settles nothing, a decision is settled exactly where some
/// order settles one with its identifier.
proof fn lemma_stall_exact(ds: Seq<Decision>, order: Seq<int>, settled: Seq<&str>)
    requires
        settling(ds, order, settled),
        forall|e: int| 0 <= e < ds.len() ==> stuck_or_settled(ds, settled, e),
    ensures
        forall|id: Seq<char>| settled_with(settled, id) <==> #[trigger] settleable(ds, id),
{
    assert(settles(ds, order));
    assert forall|id: Seq<char>| settled_with(settled, id) <==> #[trigger] settleable(ds, id) by {
        if settled_with(settled, id) {
            let q = choose|q: int| 0 <= q < settled.len() && #[trigger] settled[q]@ == id;
            assert(ds[order[q]].id@ == id);
        }
        if settleable(ds, id) && !settled_with(settled, id) {
            let (o, k) = choose|o: Seq<int>, k: int| settles(ds, o) && 0 <= k < o.len() && #[trigger] ds[o[k]].id@ == id;
            let p0 = lemma_first_unsettled(ds, o, settled, k);
            let e = o[p0];
            assert(stuck_or_settled(ds, settled, e));
            let j = choose|j: int|
                0 <= j < ds[e].depends_on@.len() && !settled_with(settled, #[trigger] ds[e].depends_on@[j]@);
            assert(answered_before(ds, o, p0, j));
            let q = choose|q: int| 0 <= q < p0 && #[trigger] ds[o[q]].id@ == ds[o[p0]].depends_on@[j]@;
            assert(settled_with(settled, ds[o[q]].id@));
        }
    }
}

/// Whether the decisions form an acyclic graph.
///
/// A prerequisite nothing offers is refused first, naming the first such
/// prerequisite; otherwise the decisions are settled round by round, each
/// once all it depends on is settled, and a round that settles nothing
/// names, in offer order, every decision that no order settles as a
/// cycle. Two decisions with one
/// identifier can never both be settled, so they are refused as well.
pub fn acyclic(decisions: &[Decision]) -> (r: Result<(), String>)
    ensures
        r is Ok <==> deps_offered(decisions@) && well_ordered(decisions@),
        r matches Err(msg) ==> (!deps_offered(decisions@) ==> exists|i: int, j: int|
            #![trigger prerequisite_offered(decisions@, i, j)]
            {
                &&& 0 <= i < decisions@.len()
                &&& 0 <= j < decisions@[i].depends_on@.len()
                &&& !prerequisite_offered(decisions@, i, j)
                &&& msg@ == missing_message(decisions@[i].id@, decisions@[i].depends_on@[j]@)
                &&& forall|i2: int, j2: int|
                    #![trigger prerequisite_offered(decisions@, i2, j2)]
                    0 <= i2 < decisions@.len() && 0 <= j2 < decisions@[i2].depends_on@.len()
                        && (i2 < i || (i2 == i && j2 < j)) ==> prerequisite_offered(
                        decisions@,
                        i2,
                        j2,
                    )
            }),
        r matches Err(msg) ==> (deps_offered(decisions@) ==> msg@ == cycle_message(decisions@)),
{
    let ghost ds = decisions@;
    let n = decisions.len();
    let mut i: usize = 0;
    while i < n
        invariant
            i <= n,
            n == decisions@.len(),
            ds == decisions@,
            forall|i2: int, j2: int|
                #![trigger prerequisite_offered(ds, i2, j2)]
                0 <= i2 < i && 0 <= j2 < ds[i2].depends_on@.len() ==> prerequisite_offered(
                    ds,
                    i2,
                    j2,
                ),
        decreases n - i,
    {
        let needed = &decisions[i].depends_on;
        let mut j: usize = 0;
        while j < needed.len()
            invariant
                i < n,
                j <= needed.len(),
                n == decisions@.len(),
                ds == decisions@,
                *needed == ds[i as int].depends_on,
                forall|i2: int, j2: int|
                    #![trigger prerequisite_offered(ds, i2, j2)]
                    0 <= i2 < i && 0 <= j2 < ds[i2].depends_on@.len() ==> prerequisite_offered(
                        ds,
                        i2,
                        j2,
                    ),
                forall|j2: int|
                    #![trigger prerequisite_offered(ds, i as int, j2)]
                    0 <= j2 < j ==> prerequisite_offered(ds, i as int, j2),
            decreases needed.len() - j,
        {
            if !is_offered(decisions, needed[j].as_str()) {
                let mut msg = owned(decisions[i].id.as_str());
                crate::text::append(&mut msg, " depends on ");
                crate::text::append(&mut msg, needed[j].as_str());
                crate::text::append(&mut msg, ", which this plan does not offer");
                proof {
                    assert(!prerequisite_offered(ds, i as int, j as int));
                    assert(msg@ =~= missing_message(ds[i as int].id@, ds[i as int].depends_on@[j as int]@));
                }
                return Err(msg);
            }
            j += 1;
        }
        i += 1;
    }
    assert(deps_offered(ds));
    let mut settled: Vec<&str> = Vec::new();
    let ghost mut order: Seq<int> = Seq::empty();
    while settled.len() < n
        invariant
            n == decisions@.len(),
            ds == decisions@,
            deps_offered(ds),
            settling(ds, order, settled@),
        decreases n - settled@.len(),
    {
        proof {
            lemma_settled_bounded(ds, order, settled@);
        }
        let before = settled.len();
        let ghost start = settled@;
        let mut d: usize = 0;
        while d < n
            invariant
                d <= n,
                n == decisions@.len(),
                ds == decisions@,
                deps_offered(ds),
                before <= settled@.len(),
                settling(ds, order, settled@),
                settled@.len() == before ==> settled@ == start,
                settled@.len() == before ==> forall|e: int|
                    0 <= e < d ==> #[trigger] stuck_or_settled(ds, settled@, e),
            decreases n - d,
        {
            let decision = &decisions[d];
            if !settled_has(&settled, decision.id.as_str()) {
                if all_settled(&settled, &decision.depends_on) {
                    let ghost old_settled = settled@;
                    let ghost old_order = order;
                    settled.push(decision.id.as_str());
                    proof {
                        order = order.push(d as int);
                        assert forall|a: int, b: int|
                            0 <= a < order.len() && 0 <= b < order.len() && a != b implies order[a]
                            != order[b] by {
                            if a == old_order.len() && b < old_order.len() {
                                assert(old_settled[b]@ == ds[old_order[b]].id@);
                            }
                            if b == old_order.len() && a < old_order.len() {
                                assert(old_settled[a]@ == ds[old_order[a]].id@);
                            }
                        }
                        assert forall|k: int| 0 <= k < order.len() implies #[trigger] settled@[k]@
                            == ds[order[k]].id@ by {
                            if k < old_order.len() {
                                assert(settled@[k] == old_settled[k]);
                            }
                        }
                        assert forall|a: int, b: int| 0 <= a < b < settled@.len() implies #[trigger] settled@[a]@
                            != #[trigger] settled@[b]@ by {
                            assert(settled@[a] == old_settled[a]);
                            if b < old_settled.len() {
                                assert(settled@[b] == old_settled[b]);
                            }
                        }
                        assert forall|k: int, j: int|
                            0 <= k < order.len() && 0 <= j < ds[order[k]].depends_on@.len() implies #[trigger] answered_before(
                                ds,
                                order,
                                k,
                                j,
                            ) by {
                            if k == old_order.len() {
                                assert(settled_with(old_settled, ds[d as int].depends_on@[j]@));
                                let q = choose|q: int|
                                    0 <= q < old_settled.len() && #[trigger] old_settled[q]@ == ds[d as int].depends_on@[j]@;
                                assert(ds[order[q]].id@ == old_settled[q]@);
                            } else {
                                assert(order[k] == old_order[k]);
                                assert(answered_before(ds, old_order, k, j));
                                let q = choose|q: int| 0 <= q < k && #[trigger] ds[old_order[q]].id@ == ds[old_order[k]].depends_on@[j]@;
                                assert(order[q] == old_order[q]);
                            }
                        }
                    }
                }
            }
            d += 1;
        }
        proof {
            lemma_settled_bounded(ds, order, settled@);
        }
        if settled.len() == before {
            proof {
                lemma_stall_exact(ds, order, settled@);
            }
            let mut msg = owned("these decisions form a cycle: ");
            let ghost head = msg@;
            let mut first = true;
            let mut e: usize = 0;
            while e < n
                invariant
                    e <= n,
                    n == decisions@.len(),
                    ds == decisions@,
                    head == "these decisions form a cycle: "@,
                    forall|id: Seq<char>| settled_with(settled@, id) <==> #[trigger] settleable(ds, id),
                    msg@ == head + joined(stuck_among(ds, e as nat), ", "@),
                    first == (stuck_among(ds, e as nat).len() == 0),
                decreases n - e,
            {
                let ghost so_far = stuck_among(ds, e as nat);
                if !settled_has(&settled, decisions[e].id.as_str()) {
                    let ghost prior = msg@;
                    let ghost id = ds[e as int].id@;
                    assert(!settleable(ds, id));
                    assert(stuck_among(ds, (e + 1) as nat) == so_far.push(id));
                    if !first {
                        crate::text::append(&mut msg, ", ");
                    }
                    crate::text::append(&mut msg, decisions[e].id.as_str());
                    first = false;
                    proof {
                        let next = so_far.push(id);
                        assert(next.drop_last() =~= so_far);
                        if so_far.len() == 0 {
                            assert(joined(next, ", "@) == id);
                        } else {
                            assert(joined(next, ", "@) == joined(so_far, ", "@) + ", "@ + id);
                        }
                        assert(msg@ =~= head + joined(next, ", "@));
                    }
                } else {
                    assert(settleable(ds, ds[e as int].id@));
                    assert(stuck_among(ds, (e + 1) as nat) == so_far);
                }
                e += 1;
            }
            proof {
                lemma_stall_not_ordered(ds, settled@);
            }
            return Err(msg);
        }
    }
    proof {
        lemma_settled_bounded(ds, order, settled@);
        decision_ids(ds).lemma_no_dup_set_cardinality();
        assert(topological(ds, order));
    }
    Ok(())
}

} // verus!
