use vstd::prelude::*;

use crate::catalog::assemble::{finding_view, findings_view, SourceView, finding_for};
use crate::catalog::derive::{
    interface_criteria, interface_text, performance_requirement_id, performance_statement, performance_text,
    requirement_id_text, robustness_requirement_id, robustness_statement, robustness_text, sanitized_path,
    string_seq, interface_requirement_id,
};
use crate::catalog::linking::{feature_view, law_other_rows_keep_links, systems_linked};
use crate::catalog::requirement::{
    derive_statement, derived_statement, AcceptanceCriterion, ContaminationSource, CriteriaView, Requirement,
    RequirementCatalog, RequirementClass, RequirementCriteria, RequirementStatement, StatementView,
};
use crate::catalog::contamination::contamination;
use crate::text::{holds_str, trim};

verus! {

/// A journey step that calls an HTTP route, as an interface requirement reads it.
#[derive(Debug)]
pub struct InterfaceStep {
    pub journey_id: String,
    /// The domain and aggregate the journey belongs to.
    pub domain: String,
    pub aggregate: String,
    /// The route's method label and resolved path.
    pub method: String,
    pub resolved: String,
    /// The step's description, from which the requirement's statement is derived.
    pub description: String,
    /// Where the step's outcome was captured at runtime, when it was.
    pub capture: Option<String>,
    /// The journey's primary capability, when it has one.
    pub feature_id: Option<String>,
    /// The function the route belongs to, when one is found.
    pub function_id: Option<String>,
}

/// The key under which a route is counted once: method label, a space, resolved path.
pub open spec fn step_key(s: InterfaceStep) -> Seq<char> {
    s.method@ + seq![' '] + s.resolved@
}

/// The keys of a run of steps.
pub open spec fn step_keys(steps: Seq<InterfaceStep>) -> Seq<Seq<char>> {
    steps.map_values(|s: InterfaceStep| step_key(s))
}

/// The steps whose route key has not come before them, in order.
pub open spec fn first_route_steps(steps: Seq<InterfaceStep>) -> Seq<InterfaceStep>
    decreases steps.len(),
{
    if steps.len() == 0 {
        seq![]
    } else {
        let d = first_route_steps(steps.drop_last());
        if step_keys(steps.drop_last()).contains(step_key(steps.last())) {
            d
        } else {
            d.push(steps.last())
        }
    }
}

/// The findings that deriving the statements of the kept steps records, in order.
pub open spec fn interface_findings(kept: Seq<InterfaceStep>) -> Seq<(SourceView, Seq<char>)>
    decreases kept.len(),
{
    if kept.len() == 0 {
        seq![]
    } else {
        interface_findings(kept.drop_last()) + finding_for(
            kept.last().description@,
            SourceView::Journey(kept.last().journey_id@),
        )
    }
}

/// An optional text's value.
pub open spec fn opt_view(o: Option<String>) -> Option<Seq<char>> {
    feature_view(o)
}

/// `r` is the interface requirement of step `s`.
pub open spec fn is_interface_row(r: Requirement, s: InterfaceStep) -> bool {
    &&& r.id.0@ == requirement_id_text(s.domain@, s.aggregate@, "IF"@, s.method@ + "/"@ + sanitized_path(s.resolved@))
    &&& r.kind == RequirementClass::Interface
    &&& r.domain@ == s.domain@
    &&& r.aggregate@ == s.aggregate@
    &&& r.statement@ == derived_statement(s.description@)
    &&& r.criteria@ == (CriteriaView::Known {
        items: seq![interface_text(s.method@, s.resolved@, opt_view(s.capture))],
    })
    &&& opt_view(r.feature_id) == opt_view(s.feature_id)
    &&& opt_view(r.journey_id) == Some(s.journey_id@)
    &&& opt_view(r.function_id) == opt_view(s.function_id)
    &&& r.requirement_verifications@.len() == 0
    &&& r.subrequirements@.len() == 0
    &&& r.assumptions@.len() == 0
    &&& r.rationale is None
}

/// `r` is a performance requirement of the route `method resolved` under `domain` and
/// `aggregate`, stated with the service's capability `phrase`, with criterion `criterion` and
/// the capture (or other provenance) as its rationale.
pub open spec fn is_performance_row(
    r: Requirement,
    domain: Seq<char>,
    aggregate: Seq<char>,
    method: Seq<char>,
    resolved: Seq<char>,
    phrase: Option<Seq<char>>,
    criterion: Seq<char>,
    capture: Option<Seq<char>>,
) -> bool {
    &&& r.id.0@ == requirement_id_text(domain, aggregate, "PERF"@, method + "/"@ + sanitized_path(resolved))
    &&& r.kind == RequirementClass::Performance
    &&& r.domain@ == domain
    &&& r.aggregate@ == aggregate
    &&& r.statement@ == (StatementView::Known { text: performance_text(phrase) })
    &&& r.criteria@ == (CriteriaView::Known { items: seq![criterion] })
    &&& r.feature_id is None
    &&& r.journey_id is None
    &&& r.function_id is None
    &&& r.requirement_verifications@.len() == 0
    &&& r.subrequirements@.len() == 0
    &&& r.assumptions@.len() == 0
    &&& opt_view(r.rationale) == capture
}

/// `r` is the robustness requirement of negative probe `probe_id` of journey `journey_id`,
/// whose primary capability is `capability`, with criterion `criterion`.
pub open spec fn is_robustness_row(
    r: Requirement,
    domain: Seq<char>,
    aggregate: Seq<char>,
    probe_id: Seq<char>,
    journey_id: Seq<char>,
    capability: Option<Seq<char>>,
    criterion: Seq<char>,
) -> bool {
    &&& r.id.0@ == requirement_id_text(domain, aggregate, "ROB"@, probe_id)
    &&& r.kind == RequirementClass::Robustness
    &&& r.domain@ == domain
    &&& r.aggregate@ == aggregate
    &&& r.statement@ == (StatementView::Known { text: robustness_text(capability) })
    &&& r.criteria@ == (CriteriaView::Known { items: seq![criterion] })
    &&& opt_view(r.feature_id) == capability
    &&& opt_view(r.journey_id) == Some(journey_id)
    &&& r.function_id is None
    &&& r.requirement_verifications@.len() == 0
    &&& r.subrequirements@.len() == 0
    &&& r.assumptions@.len() == 0
    &&& r.rationale is None
}

fn copy_opt(o: &Option<String>) -> (c: Option<String>)
    ensures
        c == *o,
{
    match o {
        Some(s) => Some(s.clone()),
        None => None,
    }
}

fn copy_str_opt(o: Option<&str>) -> (c: Option<String>)
    ensures
        opt_view(c) == match o {
            Some(s) => Some(s@),
            None => None,
        },
{
    match o {
        Some(s) => Some(String::from_str(s)),
        None => None,
    }
}

fn one_criterion(text: String) -> (criteria: RequirementCriteria)
    ensures
        criteria@ == (CriteriaView::Known { items: seq![text@] }),
{
    let items = vec![AcceptanceCriterion { text }];
    assert(crate::catalog::requirement::criteria_texts(items@) =~= seq![items@[0].text@]);
    RequirementCriteria::Known { items }
}

impl RequirementCatalog {
    /// Appends one interface requirement per distinct route (method label and resolved path)
    /// among the steps, for the first step that calls it, in step order; later steps on a route
    /// already seen are passed over. A blank or contaminated description leaves the statement
    /// unknown, and a contaminated one records a finding against the step's journey.
    pub fn add_interface_requirements(&mut self, steps: &[InterfaceStep])
        ensures
            final(self).requirements@.len() == old(self).requirements@.len() + first_route_steps(steps@).len(),
            final(self).requirements@.take(old(self).requirements@.len() as int) == old(self).requirements@,
            forall|k: int|
                0 <= k < first_route_steps(steps@).len() ==> is_interface_row(
                    #[trigger] final(self).requirements@[old(self).requirements@.len() + k],
                    first_route_steps(steps@)[k],
                ),
            findings_view(final(self).contamination_findings@) == findings_view(old(self).contamination_findings@)
                + interface_findings(first_route_steps(steps@)),
            systems_linked(old(self).requirements@) ==> systems_linked(final(self).requirements@),
    {
        let ghost start = self.requirements@;
        let ghost start_findings = findings_view(self.contamination_findings@);
        let mut seen: Vec<String> = Vec::new();
        let mut i: usize = 0;
        assert(self.requirements@.take(start.len() as int) =~= start);
        assert(start_findings + Seq::<(SourceView, Seq<char>)>::empty() =~= start_findings);
        while i < steps.len()
            invariant
                i <= steps@.len(),
                string_seq(seen@) == step_keys(steps@.take(i as int)),
                self.requirements@.len() == start.len() + first_route_steps(steps@.take(i as int)).len(),
                self.requirements@.take(start.len() as int) == start,
                forall|k: int|
                    0 <= k < first_route_steps(steps@.take(i as int)).len() ==> is_interface_row(
                        #[trigger] self.requirements@[start.len() + k],
                        first_route_steps(steps@.take(i as int))[k],
                    ),
                forall|k: int| start.len() <= k < self.requirements@.len() ==> (#[trigger] self.requirements@[k]).kind
                    == RequirementClass::Interface,
                findings_view(self.contamination_findings@) == start_findings + interface_findings(
                    first_route_steps(steps@.take(i as int)),
                ),
            decreases steps@.len() - i,
        {
            let step = &steps[i];
            let ghost prev = steps@.take(i as int);
            let ghost kept = first_route_steps(prev);
            proof {
                assert(steps@.take(i + 1).drop_last() =~= prev);
                assert(steps@.take(i + 1).last() == *step);
            }
            let mut key = step.method.clone();
            key.append(" ");
            key.append(step.resolved.as_str());
            proof {
                reveal_strlit(" ");
                assert(key@ == step_key(*step));
            }
            let found = holds_str(&seen, key.as_str());
            proof {
                let sv = string_seq(seen@);
                if found {
                    let q = choose|q: int| 0 <= q < seen@.len() && (#[trigger] seen@[q])@ == key@;
                    assert(sv[q] == key@);
                    assert(step_keys(prev).contains(step_key(*step)));
                } else {
                    assert forall|q: int| 0 <= q < step_keys(prev).len() implies step_keys(prev)[q] != step_key(*step) by {
                        assert(sv[q] == seen@[q]@);
                    }
                }
            }
            if !found {
                let ghost before_reqs = self.requirements@;
                let ghost before_findings = self.contamination_findings@;
                let id = interface_requirement_id(
                    step.domain.as_str(),
                    step.aggregate.as_str(),
                    step.method.as_str(),
                    step.resolved.as_str(),
                );
                let statement = derive_statement(
                    step.description.as_str(),
                    ContaminationSource::Journey { id: step.journey_id.clone() },
                    &mut self.contamination_findings,
                );
                proof {
                    let after = self.contamination_findings@;
                    let text = step.description@;
                    if trim(text).len() > 0 && contamination(text) is Some {
                        assert(after =~= before_findings.push(after.last()));
                        assert(findings_view(after) =~= findings_view(before_findings).push(finding_view(after.last())));
                    } else {
                        assert(findings_view(after) =~= findings_view(before_findings) + Seq::<(SourceView, Seq<char>)>::empty());
                    }
                    assert(first_route_steps(steps@.take(i + 1)) == kept.push(*step));
                    assert(kept.push(*step).drop_last() =~= kept);
                }
                let criteria = interface_criteria(step.method.as_str(), step.resolved.as_str(), copy_opt(&step.capture));
                self.requirements.push(
                    Requirement {
                        id,
                        kind: RequirementClass::Interface,
                        domain: step.domain.clone(),
                        aggregate: step.aggregate.clone(),
                        statement,
                        criteria,
                        feature_id: copy_opt(&step.feature_id),
                        journey_id: Some(step.journey_id.clone()),
                        function_id: copy_opt(&step.function_id),
                        requirement_verifications: Vec::new(),
                        subrequirements: Vec::new(),
                        assumptions: Vec::new(),
                        rationale: None,
                    },
                );
                proof {
                    assert(self.requirements@.take(start.len() as int) =~= before_reqs.take(start.len() as int));
                    assert forall|k: int| 0 <= k < kept.len() implies #[trigger] self.requirements@[start.len() + k]
                        == before_reqs[start.len() + k] by {}
                }
            } else {
                proof {
                    assert(first_route_steps(steps@.take(i + 1)) == kept);
                }
            }
            let ghost old_seen = seen@;
            seen.push(key);
            proof {
                assert(string_seq(seen@) =~= string_seq(old_seen).push(step_key(*step)));
                assert(step_keys(steps@.take(i + 1)) =~= step_keys(prev).push(step_key(*step)));
            }
            i += 1;
        }
        assert(steps@.take(steps@.len() as int) =~= steps@);
        proof {
            if systems_linked(start) {
                let tail = self.requirements@.subrange(start.len() as int, self.requirements@.len() as int);
                assert(self.requirements@ =~= start + tail);
                law_other_rows_keep_links(start, tail);
            }
        }
    }

    /// Appends the performance requirement of a route: id from the method label and resolved
    /// path, statement from the service's capability phrase, `criterion` as its one criterion,
    /// and `capture` (where the baseline was captured) as its rationale.
    pub fn add_performance_requirement(
        &mut self,
        domain: &str,
        aggregate: &str,
        method: &str,
        resolved: &str,
        phrase: Option<&str>,
        criterion: String,
        capture: Option<String>,
    )
        ensures
            final(self).requirements@.len() == old(self).requirements@.len() + 1,
            final(self).requirements@.take(old(self).requirements@.len() as int) == old(self).requirements@,
            is_performance_row(
                final(self).requirements@.last(),
                domain@,
                aggregate@,
                method@,
                resolved@,
                match phrase {
                    Some(p) => Some(p@),
                    None => None,
                },
                criterion@,
                opt_view(capture),
            ),
            final(self).contamination_findings == old(self).contamination_findings,
            systems_linked(old(self).requirements@) ==> systems_linked(final(self).requirements@),
    {
        let ghost start = self.requirements@;
        let id = performance_requirement_id(domain, aggregate, method, resolved);
        let statement = RequirementStatement::Known { text: performance_statement(phrase) };
        self.requirements.push(
            Requirement {
                id,
                kind: RequirementClass::Performance,
                domain: String::from_str(domain),
                aggregate: String::from_str(aggregate),
                statement,
                criteria: one_criterion(criterion),
                feature_id: None,
                journey_id: None,
                function_id: None,
                requirement_verifications: Vec::new(),
                subrequirements: Vec::new(),
                assumptions: Vec::new(),
                rationale: capture,
            },
        );
        proof {
            assert(self.requirements@.take(start.len() as int) =~= start);
            if systems_linked(start) {
                let tail = seq![self.requirements@.last()];
                assert(self.requirements@ =~= start + tail);
                law_other_rows_keep_links(start, tail);
            }
        }
    }

    /// Appends the robustness requirement of a negative probe of journey `journey_id`: its
    /// statement names the journey's primary capability `capability`, and `criterion` is its one
    /// criterion.
    pub fn add_robustness_requirement(
        &mut self,
        domain: &str,
        aggregate: &str,
        probe_id: &str,
        journey_id: &str,
        capability: Option<&str>,
        criterion: String,
    )
        ensures
            final(self).requirements@.len() == old(self).requirements@.len() + 1,
            final(self).requirements@.take(old(self).requirements@.len() as int) == old(self).requirements@,
            is_robustness_row(
                final(self).requirements@.last(),
                domain@,
                aggregate@,
                probe_id@,
                journey_id@,
                match capability {
                    Some(c) => Some(c@),
                    None => None,
                },
                criterion@,
            ),
            final(self).contamination_findings == old(self).contamination_findings,
            systems_linked(old(self).requirements@) ==> systems_linked(final(self).requirements@),
    {
        let ghost start = self.requirements@;
        let id = robustness_requirement_id(domain, aggregate, probe_id);
        let statement = RequirementStatement::Known { text: robustness_statement(capability) };
        self.requirements.push(
            Requirement {
                id,
                kind: RequirementClass::Robustness,
                domain: String::from_str(domain),
                aggregate: String::from_str(aggregate),
                statement,
                criteria: one_criterion(criterion),
                feature_id: copy_str_opt(capability),
                journey_id: Some(String::from_str(journey_id)),
                function_id: None,
                requirement_verifications: Vec::new(),
                subrequirements: Vec::new(),
                assumptions: Vec::new(),
                rationale: None,
            },
        );
        proof {
            assert(self.requirements@.take(start.len() as int) =~= start);
            if systems_linked(start) {
                let tail = seq![self.requirements@.last()];
                assert(self.requirements@ =~= start + tail);
                law_other_rows_keep_links(start, tail);
            }
        }
    }
}

} // verus!
