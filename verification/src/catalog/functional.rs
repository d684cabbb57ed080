use vstd::prelude::*;

use crate::catalog::requirement::{
    criteria_texts, derive_statement, derived_statement, finding_recorded, AcceptanceCriterion,
    ContaminationFinding, ContaminationSource, CriteriaView, RequirementCriteria, RequirementStatement,
    StatementView,
};
use crate::text::{chars_of, contains_seq, dedup, find_chars, join, join_strings, nat_digits, str_eq};

verus! {

/// Where the outcome of a journey step was observed.
#[derive(Debug)]
pub enum StepProvenance {
    /// Captured at runtime, in an environment.
    Runtime { capture: String, environment: String },
    /// Any other provenance, by its `Debug` text.
    Other { debug: String },
}

/// A state-machine transition a step causes.
#[derive(Debug)]
pub struct Transition {
    pub machine: String,
    pub from: String,
    pub to: String,
}

/// The expected outcome of a journey step.
#[derive(Debug)]
pub struct StepOutcome {
    pub expected_status: Option<u16>,
    pub body_predicate: Option<String>,
    pub transition: Option<Transition>,
    pub provenance: StepProvenance,
}

/// The HTTP route of a journey step: its method label and its resolved path.
#[derive(Debug)]
pub struct StepRoute {
    pub method: String,
    pub resolved: String,
}

/// A journey step, as its acceptance criterion reads it; `route` and `outcome` are `None` when
/// they are not known.
#[derive(Debug)]
pub struct StepEvidence {
    pub route: Option<StepRoute>,
    pub outcome: Option<StepOutcome>,
    pub description: String,
}

/// The text after an HTTP criterion that cites where its outcome was observed.
pub open spec fn provenance_text(p: StepProvenance) -> Seq<char> {
    match p {
        StepProvenance::Runtime { capture, environment } => "capture="@ + capture@ + " env="@ + environment@,
        StepProvenance::Other { debug } => "provenance="@ + debug@,
    }
}

/// An optional piece of text.
pub open spec fn piece(cond: bool, text: Seq<char>) -> Seq<char> {
    if cond {
        text
    } else {
        seq![]
    }
}

/// The criterion of a step with a known route and outcome: method and path, then the expected
/// status, body predicate and transition where given, then the provenance in parentheses.
pub open spec fn step_criterion_text(route: StepRoute, outcome: StepOutcome, capture: Seq<char>) -> Seq<char> {
    route.method@ + " "@ + route.resolved@ + match outcome.expected_status {
        Some(s) => " status="@ + nat_digits(s as nat),
        None => seq![],
    } + match outcome.body_predicate {
        Some(p) => " body~="@ + p@,
        None => seq![],
    } + match outcome.transition {
        Some(t) => " transition "@ + t.machine@ + ":"@ + t.from@ + "->"@ + t.to@,
        None => seq![],
    } + " ("@ + capture + ")"@
}

/// The criterion a step gives: its HTTP check when route and outcome are known, else its
/// description numbered by its index, else none.
pub open spec fn step_criterion_of(index: usize, step: StepEvidence) -> Option<Seq<char>> {
    match (step.route, step.outcome) {
        (Some(route), Some(outcome)) => Some(step_criterion_text(route, outcome, provenance_text(outcome.provenance))),
        _ => if step.description@.len() == 0 {
            None
        } else {
            Some("step "@ + nat_digits(index as nat) + ": "@ + step.description@)
        },
    }
}

/// The criterion of a step with a known route and outcome.
pub fn format_step_criterion(route: &StepRoute, outcome: &StepOutcome, capture: &str) -> (text: String)
    ensures
        text@ == step_criterion_text(*route, *outcome, capture@),
{
    let mut text = String::from_str(route.method.as_str());
    text.append(" ");
    text.append(route.resolved.as_str());
    if let Some(status) = outcome.expected_status {
        text.append(" status=");
        let digits = crate::text::format_u64(status as u64);
        text.append(digits.as_str());
    }
    if let Some(predicate) = &outcome.body_predicate {
        text.append(" body~=");
        text.append(predicate.as_str());
    }
    if let Some(transition) = &outcome.transition {
        text.append(" transition ");
        text.append(transition.machine.as_str());
        text.append(":");
        text.append(transition.from.as_str());
        text.append("->");
        text.append(transition.to.as_str());
    }
    text.append(" (");
    text.append(capture);
    text.append(")");
    text
}

fn format_provenance(p: &StepProvenance) -> (text: String)
    ensures
        text@ == provenance_text(*p),
{
    match p {
        StepProvenance::Runtime { capture, environment } => {
            let mut text = String::from_str("capture=");
            text.append(capture.as_str());
            text.append(" env=");
            text.append(environment.as_str());
            text
        },
        StepProvenance::Other { debug } => {
            let mut text = String::from_str("provenance=");
            text.append(debug.as_str());
            text
        },
    }
}

/// The acceptance criterion a journey step gives, if any.
pub fn step_criterion(step_index: usize, step: &StepEvidence) -> (criterion: Option<AcceptanceCriterion>)
    ensures
        match criterion {
            Some(c) => step_criterion_of(step_index, *step) == Some(c.text@),
            None => step_criterion_of(step_index, *step) is None,
        },
{
    match (&step.route, &step.outcome) {
        (Some(route), Some(outcome)) => {
            let capture = format_provenance(&outcome.provenance);
            Some(AcceptanceCriterion { text: format_step_criterion(route, outcome, capture.as_str()) })
        },
        _ => {
            if step.description.as_str().unicode_len() == 0 {
                None
            } else {
                let mut text = String::from_str("step ");
                let digits = crate::text::format_u64(step_index as u64);
                text.append(digits.as_str());
                text.append(": ");
                text.append(step.description.as_str());
                Some(AcceptanceCriterion { text })
            }
        },
    }
}

/// None of the items cites a runtime capture.
pub open spec fn no_capture(items: Seq<Seq<char>>) -> bool {
    forall|k: int| 0 <= k < items.len() ==> !contains_seq(#[trigger] items[k], "capture="@)
}

/// The criteria of the first `n` steps, in order, with their step indices.
pub open spec fn step_items(steps: Seq<StepEvidence>, n: int) -> Seq<Seq<char>>
    decreases n,
{
    if n <= 0 {
        seq![]
    } else {
        let before = step_items(steps, n - 1);
        match step_criterion_of((n - 1) as usize, steps[n - 1]) {
            Some(t) => before.push(t),
            None => before,
        }
    }
}

/// The criteria of a journey, from its steps: unknown when its steps are not known, when no step
/// gives a criterion, or when it is HTTP-automatable and no criterion cites a runtime capture.
pub open spec fn journey_criteria(steps: Option<Seq<StepEvidence>>, http_automatable: bool) -> CriteriaView {
    match steps {
        None => CriteriaView::Unknown { reason: "journey steps are not grounded"@ },
        Some(s) => {
            let items = step_items(s, s.len() as int);
            if items.len() == 0 {
                CriteriaView::Unknown { reason: "journey has no step-level acceptance criteria"@ }
            } else if http_automatable && no_capture(items) {
                CriteriaView::Unknown { reason: "http-automatable journey lacks runtime capture evidence"@ }
            } else {
                CriteriaView::Known { items }
            }
        },
    }
}

/// Whether some item cites a runtime capture.
fn cites_capture(items: &Vec<AcceptanceCriterion>) -> (cites: bool)
    ensures
        cites == !no_capture(criteria_texts(items@)),
{
    let ghost texts = criteria_texts(items@);
    let pattern = chars_of("capture=");
    let mut k: usize = 0;
    while k < items.len()
        invariant
            k <= items@.len(),
            texts == criteria_texts(items@),
            pattern@ == "capture="@,
            forall|j: int| 0 <= j < k ==> !contains_seq(#[trigger] texts[j], "capture="@),
        decreases items@.len() - k,
    {
        let hay = chars_of(items[k].text.as_str());
        if find_chars(&hay, &pattern).is_some() {
            assert(texts[k as int] == items@[k as int].text@);
            return true;
        }
        k += 1;
    }
    false
}

/// The views of optional step lists.
pub open spec fn steps_view(steps: Option<Vec<StepEvidence>>) -> Option<Seq<StepEvidence>> {
    match steps {
        Some(v) => Some(v@),
        None => None,
    }
}

/// The acceptance criteria of a journey, from its steps.
pub fn functional_criteria(steps: &Option<Vec<StepEvidence>>, http_automatable: bool) -> (criteria: RequirementCriteria)
    ensures
        criteria@ == journey_criteria(steps_view(*steps), http_automatable),
{
    match steps {
        None => RequirementCriteria::Unknown { reason: String::from_str("journey steps are not grounded") },
        Some(steps) => {
            let mut items: Vec<AcceptanceCriterion> = Vec::new();
            let mut k: usize = 0;
            while k < steps.len()
                invariant
                    k <= steps@.len(),
                    criteria_texts(items@) == step_items(steps@, k as int),
                decreases steps@.len() - k,
            {
                let ghost before = items@;
                if let Some(criterion) = step_criterion(k, &steps[k]) {
                    items.push(criterion);
                    assert(criteria_texts(items@) =~= criteria_texts(before).push(items@[before.len() as int].text@));
                }
                k += 1;
            }
            if items.len() == 0 {
                return RequirementCriteria::Unknown {
                    reason: String::from_str("journey has no step-level acceptance criteria"),
                };
            }
            if http_automatable && !cites_capture(&items) {
                return RequirementCriteria::Unknown {
                    reason: String::from_str("http-automatable journey lacks runtime capture evidence"),
                };
            }
            RequirementCriteria::Known { items }
        },
    }
}

/// A journey that verifies a function: its id, its criteria and whether it is HTTP-automatable.
#[derive(Debug)]
pub struct VerifyingJourney {
    pub id: String,
    pub criteria: RequirementCriteria,
    pub http_automatable: bool,
}

/// The known criteria items of the journeys, concatenated in order.
pub open spec fn journeys_items(journeys: Seq<VerifyingJourney>) -> Seq<Seq<char>>
    decreases journeys.len(),
{
    if journeys.len() == 0 {
        seq![]
    } else {
        journeys_items(journeys.drop_last()) + match journeys.last().criteria@ {
            CriteriaView::Known { items } => items,
            CriteriaView::Unknown { .. } => seq![],
        }
    }
}

/// `k` is the first journey whose criteria are unknown.
pub open spec fn is_first_unknown_journey(journeys: Seq<VerifyingJourney>, k: int) -> bool {
    &&& 0 <= k < journeys.len()
    &&& journeys[k].criteria@ is Unknown
    &&& forall|j: int| 0 <= j < k ==> journeys[j].criteria@ is Known
}

/// The criteria of a functional requirement from its verifying journeys: unknown as soon as one
/// journey's are; else the journeys' distinct items in order, unless there are none or an
/// HTTP-automatable journey finds no runtime capture among them.
pub open spec fn function_criteria(journeys: Seq<VerifyingJourney>) -> CriteriaView {
    if exists|k: int| is_first_unknown_journey(journeys, k) {
        let k = choose|k: int| is_first_unknown_journey(journeys, k);
        CriteriaView::Unknown {
            reason: "verifying journey "@ + journeys[k].id@ + " has unknown criteria: "@ + journeys[k].criteria@->reason,
        }
    } else {
        let items = dedup(journeys_items(journeys));
        if items.len() == 0 {
            CriteriaView::Unknown { reason: "verifying journeys have no acceptance criteria"@ }
        } else if (exists|j: int| 0 <= j < journeys.len() && #[trigger] journeys[j].http_automatable) && no_capture(items) {
            CriteriaView::Unknown { reason: "http-automatable verifying journey lacks runtime capture evidence"@ }
        } else {
            CriteriaView::Known { items }
        }
    }
}

proof fn lemma_dedup_append(d: Seq<Seq<char>>, s: Seq<Seq<char>>, x: Seq<char>)
    requires
        d == dedup(s),
    ensures
        dedup(s.push(x)) == (if d.contains(x) {
            d
        } else {
            d.push(x)
        }),
{
    assert(s.push(x).drop_last() =~= s);
}

/// Whether one of the items has text `text`.
fn has_item(items: &Vec<AcceptanceCriterion>, text: &str) -> (found: bool)
    ensures
        found == criteria_texts(items@).contains(text@),
{
    let ghost texts = criteria_texts(items@);
    let mut k: usize = 0;
    while k < items.len()
        invariant
            k <= items@.len(),
            texts == criteria_texts(items@),
            forall|j: int| 0 <= j < k ==> texts[j] != text@,
        decreases items@.len() - k,
    {
        if str_eq(items[k].text.as_str(), text) {
            assert(texts[k as int] == text@);
            return true;
        }
        k += 1;
    }
    false
}

/// The acceptance criteria of a functional requirement, composed from its verifying journeys.
pub fn compose_function_criteria(journeys: &[VerifyingJourney]) -> (criteria: RequirementCriteria)
    ensures
        criteria@ == function_criteria(journeys@),
{
    let mut items: Vec<AcceptanceCriterion> = Vec::new();
    let mut i: usize = 0;
    assert(journeys@.take(0) =~= Seq::<VerifyingJourney>::empty());
    while i < journeys.len()
        invariant
            i <= journeys@.len(),
            forall|j: int| 0 <= j < i ==> (#[trigger] journeys@[j]).criteria@ is Known,
            criteria_texts(items@) == dedup(journeys_items(journeys@.take(i as int))),
        decreases journeys@.len() - i,
    {
        let journey = &journeys[i];
        proof {
            assert(journeys@.take(i + 1).drop_last() =~= journeys@.take(i as int));
            assert(journeys@.take(i + 1).last() == *journey);
        }
        match &journey.criteria {
            RequirementCriteria::Known { items: journey_items } => {
                let ghost base = journeys_items(journeys@.take(i as int));
                let ghost add = criteria_texts(journey_items@);
                let mut m: usize = 0;
                assert(base + add.take(0) =~= base);
                while m < journey_items.len()
                    invariant
                        m <= journey_items@.len(),
                        add == criteria_texts(journey_items@),
                        criteria_texts(items@) == dedup(base + add.take(m as int)),
                    decreases journey_items@.len() - m,
                {
                    let text = journey_items[m].text.as_str();
                    proof {
                        assert(add[m as int] == text@);
                        assert(base + add.take(m + 1) =~= (base + add.take(m as int)).push(text@));
                        lemma_dedup_append(criteria_texts(items@), base + add.take(m as int), text@);
                    }
                    if !has_item(&items, text) {
                        let ghost before = items@;
                        items.push(AcceptanceCriterion { text: journey_items[m].text.clone() });
                        assert(criteria_texts(items@) =~= criteria_texts(before).push(text@));
                    }
                    m += 1;
                }
                assert(add.take(add.len() as int) =~= add);
            },
            RequirementCriteria::Unknown { reason } => {
                let mut text = String::from_str("verifying journey ");
                text.append(journey.id.as_str());
                text.append(" has unknown criteria: ");
                text.append(reason.as_str());
                proof {
                    assert(is_first_unknown_journey(journeys@, i as int));
                    let c = choose|c: int| is_first_unknown_journey(journeys@, c);
                    assert(c == i) by {
                        if c < i {
                            assert(journeys@[c].criteria@ is Known);
                        } else if c > i {
                            assert(journeys@[i as int].criteria@ is Unknown);
                        }
                    }
                }
                return RequirementCriteria::Unknown { reason: text };
            },
        }
        i += 1;
    }
    proof {
        assert(journeys@.take(journeys@.len() as int) =~= journeys@);
        assert forall|c: int| !is_first_unknown_journey(journeys@, c) by {
            if 0 <= c < journeys@.len() {
                assert(journeys@[c].criteria@ is Known);
            }
        }
    }
    if items.len() == 0 {
        return RequirementCriteria::Unknown { reason: String::from_str("verifying journeys have no acceptance criteria") };
    }
    let cites = cites_capture(&items);
    let mut i: usize = 0;
    while i < journeys.len()
        invariant
            i <= journeys@.len(),
            forall|j: int| 0 <= j < i ==> !(#[trigger] journeys@[j]).http_automatable,
            criteria_texts(items@) == dedup(journeys_items(journeys@)),
            items@.len() > 0,
            cites == !no_capture(criteria_texts(items@)),
            forall|c: int| !is_first_unknown_journey(journeys@, c),
        decreases journeys@.len() - i,
    {
        if journeys[i].http_automatable && !cites {
            assert(journeys@[i as int].http_automatable);
            return RequirementCriteria::Unknown {
                reason: String::from_str("http-automatable verifying journey lacks runtime capture evidence"),
            };
        }
        if journeys[i].http_automatable {
            proof {
                assert(journeys@[i as int].http_automatable);
            }
            return RequirementCriteria::Known { items };
        }
        i += 1;
    }
    RequirementCriteria::Known { items }
}

/// The statement of a functional requirement from its verifying journeys' summaries: their
/// distinct texts joined by "; ", derived as a statement; unknown when there are none.
pub open spec fn function_statement(summaries: Seq<Seq<char>>) -> StatementView {
    let texts = dedup(summaries);
    if texts.len() == 0 {
        StatementView::Unknown { reason: "no verifying journey summaries"@ }
    } else {
        derived_statement(join(texts, "; "@))
    }
}

/// The statement of a functional requirement, composed from the summaries of its verifying
/// journeys (`summaries[k]` is the summary of `verifying_journeys[k]`); a finding names the first
/// verifying journey.
pub fn compose_function_statement(
    verifying_journeys: &[String],
    summaries: &[String],
    findings: &mut Vec<ContaminationFinding>,
) -> (statement: RequirementStatement)
    requires
        summaries@.len() == verifying_journeys@.len(),
    ensures
        statement@ == function_statement(summaries@.map_values(|s: String| s@)),
        ({
            let texts = dedup(summaries@.map_values(|s: String| s@));
            if texts.len() == 0 {
                final(findings)@ == old(findings)@
            } else {
                finding_recorded(
                    old(findings)@,
                    final(findings)@,
                    join(texts, "; "@),
                    ContaminationSource::Journey { id: verifying_journeys@[0] },
                )
            }
        }),
{
    let ghost all = summaries@.map_values(|s: String| s@);
    let mut texts: Vec<String> = Vec::new();
    let mut k: usize = 0;
    assert(all.take(0) =~= Seq::<Seq<char>>::empty());
    while k < summaries.len()
        invariant
            k <= summaries@.len(),
            all == summaries@.map_values(|s: String| s@),
            texts@.map_values(|s: String| s@) == dedup(all.take(k as int)),
        decreases summaries@.len() - k,
    {
        let text = summaries[k].as_str();
        proof {
            assert(all.take(k + 1) =~= all.take(k as int).push(text@));
            lemma_dedup_append(texts@.map_values(|s: String| s@), all.take(k as int), text@);
        }
        let mut seen = false;
        let mut m: usize = 0;
        while m < texts.len()
            invariant
                m <= texts@.len(),
                seen == exists|j: int| 0 <= j < m && #[trigger] texts@[j]@ == text@,
            decreases texts@.len() - m,
        {
            if str_eq(texts[m].as_str(), text) {
                seen = true;
            }
            m += 1;
        }
        proof {
            let tv = texts@.map_values(|s: String| s@);
            if seen {
                let j = choose|j: int| 0 <= j < texts@.len() && #[trigger] texts@[j]@ == text@;
                assert(tv[j] == text@);
            } else {
                assert forall|j: int| 0 <= j < tv.len() implies tv[j] != text@ by {
                    assert(tv[j] == texts@[j]@);
                }
            }
        }
        if !seen {
            let ghost before = texts@;
            texts.push(summaries[k].clone());
            assert(texts@.map_values(|s: String| s@) =~= before.map_values(|s: String| s@).push(text@));
        }
        k += 1;
    }
    assert(all.take(all.len() as int) =~= all);
    if texts.len() == 0 {
        return RequirementStatement::Unknown { reason: String::from_str("no verifying journey summaries") };
    }
    assert(summaries@.len() > 0);
    let joined = join_strings(texts.as_slice(), "; ");
    derive_statement(joined.as_str(), ContaminationSource::Journey { id: verifying_journeys[0].clone() }, findings)
}

} // verus!
