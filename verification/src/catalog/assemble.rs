use vstd::prelude::*;

use crate::catalog::overlay::{Provenance, SystemOverlayEntry};
use crate::catalog::derive::{overlay_requirement_id, requirement_id_text, system_requirement_id};
use crate::catalog::requirement::{
    child_texts, compose_system_criteria, compose_system_statement, derive_statement, derived_statement,
    has_requirement, ids_view, system_criteria, system_statement, AcceptanceCriterion, ContaminationFinding,
    ContaminationSource, CriteriaView, Requirement, RequirementCatalog, RequirementClass, RequirementCriteria,
    RequirementId, RequirementStatement, StatementView,
};
use crate::catalog::contamination::contamination;
use crate::catalog::structure::{system_id_of, DeclaredCapability};
use crate::catalog::linking::{
    all_functional, feature_view, functional_ids_of, is_derived_system, law_overlay_rows_keep_links,
    lemma_children_are_functional_ids, lemma_functional_ids_concat, lemma_functional_ids_none, systems_linked,
};
use crate::text::{holds_str, join, str_eq, trim};

verus! {

/// The value of where a contaminated text came from.
pub enum SourceView {
    Capability(Seq<char>),
    Journey(Seq<char>),
    Overlay(Seq<char>),
}

/// The value of a finding: its source and the piece that betrayed it.
pub open spec fn finding_view(f: ContaminationFinding) -> (SourceView, Seq<char>) {
    (
        match f.source {
            ContaminationSource::Capability { id } => SourceView::Capability(id@),
            ContaminationSource::Journey { id } => SourceView::Journey(id@),
            ContaminationSource::Overlay { suffix } => SourceView::Overlay(suffix@),
        },
        f.substring@,
    )
}

/// The values of a list of findings.
pub open spec fn findings_view(findings: Seq<ContaminationFinding>) -> Seq<(SourceView, Seq<char>)> {
    findings.map_values(|f: ContaminationFinding| finding_view(f))
}

/// The finding that deriving a statement from `text` records for `source`, if any.
pub open spec fn finding_for(text: Seq<char>, source: SourceView) -> Seq<(SourceView, Seq<char>)> {
    if trim(text).len() > 0 && contamination(text) is Some {
        seq![(source, contamination(text)->0)]
    } else {
        seq![]
    }
}

/// The ids of the functional requirements of a capability, in order.
pub open spec fn children_of(functionals: Seq<Requirement>, capability: Seq<char>) -> Seq<Seq<char>> {
    functionals.filter_map(
        |r: Requirement|
            if r.feature_id matches Some(f) && f@ == capability {
                Some(r.id.0@)
            } else {
                None
            },
    )
}

/// Why a capability without functional children has neither statement nor criteria.
pub open spec fn childless_reason(unreferenced: bool) -> Seq<char> {
    if unreferenced {
        "no journey references this capability"@
    } else {
        "no functional requirement derived for this capability"@
    }
}

/// The capability is one that no journey references.
pub open spec fn is_unreferenced(unreferenced: Seq<String>, capability: Seq<char>) -> bool {
    exists|k: int| 0 <= k < unreferenced.len() && #[trigger] unreferenced[k]@ == capability
}

/// The statement of a capability's system requirement.
pub open spec fn capability_statement(c: DeclaredCapability, unreferenced: Seq<String>, functionals: Seq<Requirement>) -> StatementView {
    let children = children_of(functionals, c.id@);
    if children.len() == 0 {
        StatementView::Unknown { reason: childless_reason(is_unreferenced(unreferenced, c.id@)) }
    } else {
        system_statement(children, functionals)
    }
}

/// The criteria of a capability's system requirement.
pub open spec fn capability_criteria(c: DeclaredCapability, unreferenced: Seq<String>, functionals: Seq<Requirement>) -> CriteriaView {
    let children = children_of(functionals, c.id@);
    if children.len() == 0 {
        CriteriaView::Unknown { reason: childless_reason(is_unreferenced(unreferenced, c.id@)) }
    } else {
        system_criteria(children, functionals)
    }
}

/// The finding that composing a capability's statement records, if any.
pub open spec fn capability_finding(c: DeclaredCapability, functionals: Seq<Requirement>) -> Seq<(SourceView, Seq<char>)> {
    let texts = child_texts(children_of(functionals, c.id@), functionals);
    if children_of(functionals, c.id@).len() == 0 || texts.len() == 0 {
        seq![]
    } else {
        finding_for(join(texts, "; "@), SourceView::Capability(c.id@))
    }
}

/// The findings of composing the capabilities' statements, in capability order.
pub open spec fn capability_findings(capabilities: Seq<DeclaredCapability>, functionals: Seq<Requirement>) -> Seq<(SourceView, Seq<char>)>
    decreases capabilities.len(),
{
    if capabilities.len() == 0 {
        seq![]
    } else {
        capability_findings(capabilities.drop_last(), functionals) + capability_finding(capabilities.last(), functionals)
    }
}

/// `r` is the system requirement of capability `c`, linked to its functional children.
pub open spec fn is_system_for(r: Requirement, c: DeclaredCapability, unreferenced: Seq<String>, functionals: Seq<Requirement>) -> bool {
    &&& r.id.0@ == system_id_of(c)
    &&& r.kind == RequirementClass::System
    &&& r.domain@ == c.domain@
    &&& r.aggregate@ == c.aggregate@
    &&& r.statement@ == capability_statement(c, unreferenced, functionals)
    &&& r.criteria@ == capability_criteria(c, unreferenced, functionals)
    &&& r.feature_id matches Some(f) && f@ == c.id@
    &&& r.journey_id is None
    &&& r.function_id is None
    &&& r.requirement_verifications@.len() == 0
    &&& ids_view(r.subrequirements@) == children_of(functionals, c.id@)
    &&& r.assumptions@.len() == 0
    &&& r.rationale matches Some(t) && t@ == c.rationale@
}

/// Whether one of `list` is `text`.
fn listed_string(list: &[String], text: &str) -> (found: bool)
    ensures
        found == is_unreferenced(list@, text@),
{
    let mut k: usize = 0;
    while k < list.len()
        invariant
            k <= list@.len(),
            forall|j: int| 0 <= j < k ==> list@[j]@ != text@,
        decreases list@.len() - k,
    {
        if str_eq(list[k].as_str(), text) {
            assert(list@[k as int]@ == text@);
            return true;
        }
        k += 1;
    }
    false
}

/// The ids of a capability's functional requirements.
fn functional_children(functionals: &[Requirement], capability: &str) -> (children: Vec<RequirementId>)
    ensures
        ids_view(children@) == children_of(functionals@, capability@),
{
    let ghost f = |r: Requirement|
        if r.feature_id matches Some(g) && g@ == capability@ {
            Some(r.id.0@)
        } else {
            None
        };
    let mut children: Vec<RequirementId> = Vec::new();
    let mut k: usize = 0;
    while k < functionals.len()
        invariant
            k <= functionals@.len(),
            f == (|r: Requirement|
                if r.feature_id matches Some(g) && g@ == capability@ {
                    Some(r.id.0@)
                } else {
                    None
                }),
            ids_view(children@) == functionals@.take(k as int).filter_map(f),
        decreases functionals@.len() - k,
    {
        proof {
            functionals@.lemma_filter_map_take_succ(f, k as int);
        }
        let r = &functionals[k];
        let ghost before = ids_view(children@);
        let matches = match &r.feature_id {
            Some(g) => str_eq(g.as_str(), capability),
            None => false,
        };
        if matches {
            children.push(RequirementId(r.id.0.clone()));
        }
        assert(ids_view(children@) =~= before + match f(*r) {
            Some(e) => seq![e],
            None => Seq::empty(),
        });
        k += 1;
    }
    assert(functionals@.take(functionals@.len() as int) =~= functionals@);
    children
}

/// What a functional requirement is made of: one per function of the catalog.
#[derive(Debug)]
pub struct FunctionalPart {
    pub id: RequirementId,
    pub domain: String,
    pub aggregate: String,
    pub statement: RequirementStatement,
    pub criteria: RequirementCriteria,
    /// The capability the function serves.
    pub capability: String,
    pub function_id: String,
    /// The journeys that verify the function.
    pub verifications: Vec<String>,
}

/// `r` is the functional requirement made of `p`.
pub open spec fn is_functional_row(r: Requirement, p: FunctionalPart) -> bool {
    &&& r.id == p.id
    &&& r.kind == RequirementClass::Functional
    &&& r.domain == p.domain
    &&& r.aggregate == p.aggregate
    &&& r.statement == p.statement
    &&& r.criteria == p.criteria
    &&& r.feature_id == Some(p.capability)
    &&& r.journey_id is None
    &&& r.function_id == Some(p.function_id)
    &&& r.requirement_verifications == p.verifications
    &&& r.subrequirements@.len() == 0
    &&& r.assumptions@.len() == 0
    &&& r.rationale is None
}

/// The functional requirements made of `parts`, in order.
fn functional_rows(parts: Vec<FunctionalPart>) -> (rows: Vec<Requirement>)
    ensures
        rows@.len() == parts@.len(),
        forall|f: int| 0 <= f < parts@.len() ==> is_functional_row(#[trigger] rows@[f], parts@[f]),
{
    let ghost all = parts@;
    let mut input = parts;
    let mut rows: Vec<Requirement> = Vec::new();
    while input.len() > 0
        invariant
            rows@.len() + input@.len() == all.len(),
            input@ == all.skip(rows@.len() as int),
            forall|f: int| 0 <= f < rows@.len() ==> is_functional_row(#[trigger] rows@[f], all[f]),
        decreases input@.len(),
    {
        let ghost old_in = input@;
        let ghost n = rows@.len();
        let p = input.remove(0);
        proof {
            assert(p == all[n as int]);
            assert(input@ =~= all.skip(n + 1 as int));
        }
        rows.push(
            Requirement {
                id: p.id,
                kind: RequirementClass::Functional,
                domain: p.domain,
                aggregate: p.aggregate,
                statement: p.statement,
                criteria: p.criteria,
                feature_id: Some(p.capability),
                journey_id: None,
                function_id: Some(p.function_id),
                requirement_verifications: p.verifications,
                subrequirements: Vec::new(),
                assumptions: Vec::new(),
                rationale: None,
            },
        );
    }
    rows
}

impl RequirementCatalog {
    /// Assembles the catalog from the declared capabilities and the parts of the functional
    /// requirements: one system requirement per capability, first, linked to the functional
    /// requirements of that capability and composed from their statements and criteria; then
    /// the functional requirements, in the order of their parts. `unreferenced` lists the
    /// capabilities no journey references. Every system requirement links to exactly the
    /// functional requirements of its capability.
    pub fn from_parts(
        capabilities: &[DeclaredCapability],
        unreferenced: &[String],
        parts: Vec<FunctionalPart>,
    ) -> (catalog: RequirementCatalog)
        requires
            forall|c: int, f: int|
                0 <= c < capabilities@.len() && 0 <= f < parts@.len() ==> #[trigger] parts@[f].id.0@
                    != system_id_of(#[trigger] capabilities@[c]),
        ensures
            catalog.requirements@.len() == capabilities@.len() + parts@.len(),
            forall|f: int|
                0 <= f < parts@.len() ==> is_functional_row(
                    #[trigger] catalog.requirements@[capabilities@.len() + f],
                    parts@[f],
                ),
            forall|c: int|
                0 <= c < capabilities@.len() ==> is_system_for(
                    #[trigger] catalog.requirements@[c],
                    capabilities@[c],
                    unreferenced@,
                    catalog.requirements@.subrange(capabilities@.len() as int, catalog.requirements@.len() as int),
                ),
            findings_view(catalog.contamination_findings@) == capability_findings(
                capabilities@,
                catalog.requirements@.subrange(capabilities@.len() as int, catalog.requirements@.len() as int),
            ),
            systems_linked(catalog.requirements@),
    {
        let ghost ps = parts@;
        let rows = functional_rows(parts);
        let ghost rs = rows@;
        proof {
            assert forall|c: int, f: int|
                0 <= c < capabilities@.len() && 0 <= f < rs.len() implies #[trigger] rs[f].id.0@ != system_id_of(
                #[trigger] capabilities@[c],
            ) by {
                assert(is_functional_row(rs[f], ps[f]));
            }
            assert forall|f: int| 0 <= f < rs.len() implies (#[trigger] rs[f]).kind == RequirementClass::Functional by {
                assert(is_functional_row(rs[f], ps[f]));
            }
        }
        let catalog = Self::from_rows(capabilities, unreferenced, rows);
        proof {
            let n = capabilities@.len() as int;
            assert forall|f: int| 0 <= f < ps.len() implies is_functional_row(
                #[trigger] catalog.requirements@[n + f],
                ps[f],
            ) by {
                assert(catalog.requirements@.subrange(n, catalog.requirements@.len() as int)[f] == catalog.requirements@[n
                    + f]);
                assert(is_functional_row(rs[f], ps[f]));
            }
        }
        catalog
    }

    /// The catalog of the capabilities' system requirements, then the functional requirements
    /// as given.
    fn from_rows(
        capabilities: &[DeclaredCapability],
        unreferenced: &[String],
        functionals: Vec<Requirement>,
    ) -> (catalog: RequirementCatalog)
        requires
            forall|c: int, f: int|
                0 <= c < capabilities@.len() && 0 <= f < functionals@.len() ==> #[trigger] functionals@[f].id.0@
                    != system_id_of(#[trigger] capabilities@[c]),
        ensures
            catalog.requirements@.len() == capabilities@.len() + functionals@.len(),
            forall|c: int|
                0 <= c < capabilities@.len() ==> is_system_for(
                    #[trigger] catalog.requirements@[c],
                    capabilities@[c],
                    unreferenced@,
                    functionals@,
                ),
            catalog.requirements@.subrange(capabilities@.len() as int, catalog.requirements@.len() as int)
                == functionals@,
            findings_view(catalog.contamination_findings@) == capability_findings(capabilities@, functionals@),
            all_functional(functionals@) ==> systems_linked(catalog.requirements@),
    {
        let mut requirements: Vec<Requirement> = Vec::new();
        let mut findings: Vec<ContaminationFinding> = Vec::new();
        let mut i: usize = 0;
        assert(capabilities@.take(0) =~= Seq::<DeclaredCapability>::empty());
        while i < capabilities.len()
            invariant
                i <= capabilities@.len(),
                requirements@.len() == i,
                forall|c: int|
                    0 <= c < i ==> is_system_for(#[trigger] requirements@[c], capabilities@[c], unreferenced@, functionals@),
                findings_view(findings@) == capability_findings(capabilities@.take(i as int), functionals@),
            decreases capabilities@.len() - i,
        {
            let capability = &capabilities[i];
            let id = system_requirement_id(capability.domain.as_str(), capability.aggregate.as_str(), capability.id.as_str());
            let children = functional_children(functionals.as_slice(), capability.id.as_str());
            let ghost before = findings@;
            proof {
                assert(capabilities@.take(i + 1).drop_last() =~= capabilities@.take(i as int));
                assert(capabilities@.take(i + 1).last() == *capability);
                assert forall|k: int| 0 <= k < children@.len() implies has_requirement(functionals@, #[trigger] children@[k].0@) by {
                    let cv = children_of(functionals@, capability.id@);
                    assert(cv[k] == children@[k].0@);
                    lemma_child_is_functional(functionals@, capability.id@, k);
                }
            }
            let (statement, criteria) = if children.len() == 0 {
                let reason = if listed_string(unreferenced, capability.id.as_str()) {
                    "no journey references this capability"
                } else {
                    "no functional requirement derived for this capability"
                };
                assert(findings_view(findings@) =~= findings_view(before) + capability_finding(*capability, functionals@));
                (
                    RequirementStatement::Unknown { reason: String::from_str(reason) },
                    RequirementCriteria::Unknown { reason: String::from_str(reason) },
                )
            } else {
                let statement = compose_system_statement(
                    children.as_slice(),
                    functionals.as_slice(),
                    ContaminationSource::Capability { id: capability.id.clone() },
                    &mut findings,
                );
                proof {
                    lemma_recorded_view(before, findings@, capability.id@, *capability, functionals@);
                }
                let criteria = compose_system_criteria(children.as_slice(), functionals.as_slice());
                (statement, criteria)
            };
            requirements.push(
                Requirement {
                    id,
                    kind: RequirementClass::System,
                    domain: capability.domain.clone(),
                    aggregate: capability.aggregate.clone(),
                    statement,
                    criteria,
                    feature_id: Some(capability.id.clone()),
                    journey_id: None,
                    function_id: None,
                    requirement_verifications: Vec::new(),
                    subrequirements: children,
                    assumptions: Vec::new(),
                    rationale: Some(capability.rationale.clone()),
                },
            );
            i += 1;
        }
        assert(capabilities@.take(capabilities@.len() as int) =~= capabilities@);
        let ghost systems = requirements@;
        let mut rest = functionals;
        requirements.append(&mut rest);
        assert(requirements@.subrange(capabilities@.len() as int, requirements@.len() as int) =~= functionals@);
        assert forall|c: int| 0 <= c < capabilities@.len() implies is_system_for(
            #[trigger] requirements@[c],
            capabilities@[c],
            unreferenced@,
            functionals@,
        ) by {
            assert(requirements@[c] == systems[c]);
        }
        proof {
            if all_functional(functionals@) {
                lemma_from_parts_linked(capabilities@, unreferenced@, functionals@, systems, requirements@);
            }
        }
        RequirementCatalog { requirements, contamination_findings: findings }
    }
}

/// The requirements `from_parts` builds are linked when the functional ones are functional.
proof fn lemma_from_parts_linked(
    capabilities: Seq<DeclaredCapability>,
    unreferenced: Seq<String>,
    functionals: Seq<Requirement>,
    systems: Seq<Requirement>,
    reqs: Seq<Requirement>,
)
    requires
        all_functional(functionals),
        systems.len() == capabilities.len(),
        reqs == systems + functionals,
        forall|c: int| 0 <= c < capabilities.len() ==> is_system_for(#[trigger] reqs[c], capabilities[c], unreferenced, functionals),
    ensures
        systems_linked(reqs),
{
    assert forall|f: int| 0 <= f < systems.len() implies (#[trigger] systems[f]).kind != RequirementClass::Functional by {
        assert(reqs[f] == systems[f]);
        assert(is_system_for(reqs[f], capabilities[f], unreferenced, functionals));
    }
    assert forall|k: int| 0 <= k < reqs.len() && #[trigger] is_derived_system(reqs, k) implies {
        &&& ids_view(reqs[k].subrequirements@) == functional_ids_of(reqs, feature_view(reqs[k].feature_id))
        &&& reqs[k].subrequirements@.len() == 0 ==> (reqs[k].statement@ is Unknown && reqs[k].criteria@ is Unknown)
    } by {
        if k < systems.len() {
            let c = capabilities[k];
            assert(is_system_for(reqs[k], c, unreferenced, functionals));
            assert(feature_view(reqs[k].feature_id) == Some(c.id@));
            lemma_functional_ids_concat(systems, functionals, Some(c.id@));
            lemma_functional_ids_none(systems, Some(c.id@));
            lemma_children_are_functional_ids(functionals, c.id@);
            assert(Seq::<Seq<char>>::empty() + functional_ids_of(functionals, Some(c.id@)) =~= functional_ids_of(
                functionals,
                Some(c.id@),
            ));
            if reqs[k].subrequirements@.len() == 0 {
                assert(ids_view(reqs[k].subrequirements@).len() == 0);
            }
        } else {
            assert(reqs[k] == functionals[k - systems.len()]);
        }
    }
}

/// Every child of a capability is one of the functional requirements.
proof fn lemma_child_is_functional(functionals: Seq<Requirement>, capability: Seq<char>, k: int)
    requires
        0 <= k < children_of(functionals, capability).len(),
    ensures
        has_requirement(functionals, children_of(functionals, capability)[k]),
    decreases functionals.len(),
{
    let f = |r: Requirement|
        if r.feature_id matches Some(g) && g@ == capability {
            Some(r.id.0@)
        } else {
            None
        };
    let init = functionals.drop_last();
    functionals.lemma_filter_map_take_succ(f, init.len() as int);
    assert(functionals.take(init.len() as int) =~= init);
    assert(functionals.take(functionals.len() as int) =~= functionals);
    let cs = children_of(functionals, capability);
    let ci = children_of(init, capability);
    if k < ci.len() {
        lemma_child_is_functional(init, capability, k);
        let w = choose|w: int| 0 <= w < init.len() && init[w].id.0@ == ci[k];
        assert(functionals[w] == init[w]);
    } else {
        assert(functionals.last().id.0@ == cs[k]);
    }
}

/// The findings a statement composition records, as values.
proof fn lemma_recorded_view(
    before: Seq<ContaminationFinding>,
    after: Seq<ContaminationFinding>,
    id: Seq<char>,
    c: DeclaredCapability,
    functionals: Seq<Requirement>,
)
    requires
        c.id@ == id,
        children_of(functionals, id).len() > 0,
        ({
            let texts = child_texts(children_of(functionals, id), functionals);
            if texts.len() == 0 {
                after == before
            } else {
                crate::catalog::requirement::finding_recorded(
                    before,
                    after,
                    join(texts, "; "@),
                    ContaminationSource::Capability { id: c.id },
                )
            }
        }),
    ensures
        findings_view(after) == findings_view(before) + capability_finding(c, functionals),
{
    let texts = child_texts(children_of(functionals, id), functionals);
    if texts.len() == 0 {
        assert(findings_view(after) =~= findings_view(before) + Seq::<(SourceView, Seq<char>)>::empty());
    } else {
        let text = join(texts, "; "@);
        if trim(text).len() > 0 && contamination(text) is Some {
            assert(after =~= before.push(after.last()));
            assert(findings_view(after) =~= findings_view(before).push(finding_view(after.last())));
        } else {
            assert(findings_view(after) =~= findings_view(before) + Seq::<(SourceView, Seq<char>)>::empty());
        }
    }
}

/// `r` is the overlay system requirement of entry `e`, placed under domain `d` and aggregate
/// `a`.
pub open spec fn is_overlay_requirement(r: Requirement, e: SystemOverlayEntry, d: Seq<char>, a: Seq<char>) -> bool {
    &&& r.id.0@ == requirement_id_text(d, a, "SYS-OVR"@, e.suffix@)
    &&& r.kind == RequirementClass::System
    &&& r.domain@ == d
    &&& r.aggregate@ == a
    &&& r.statement@ == derived_statement(e.statement@)
    &&& r.criteria@ == (CriteriaView::Known { items: e.criteria@.map_values(|t: &'static str| t@) })
    &&& r.feature_id is None
    &&& r.journey_id is None
    &&& r.function_id is None
    &&& r.requirement_verifications@.len() == 0
    &&& r.subrequirements@.len() == 0
    &&& r.assumptions@.len() == 0
    &&& r.rationale matches Some(t) && (e.provenance matches Provenance::Asserted { rationale } && t@ == rationale@)
}

/// The findings of deriving the overlay statements, in entry order.
pub open spec fn overlay_findings(entries: Seq<SystemOverlayEntry>) -> Seq<(SourceView, Seq<char>)>
    decreases entries.len(),
{
    if entries.len() == 0 {
        seq![]
    } else {
        overlay_findings(entries.drop_last()) + finding_for(
            entries.last().statement@,
            SourceView::Overlay(entries.last().suffix@),
        )
    }
}

/// The criteria of an overlay entry.
fn overlay_criteria(texts: &Vec<&'static str>) -> (criteria: RequirementCriteria)
    ensures
        criteria@ == (CriteriaView::Known { items: texts@.map_values(|t: &'static str| t@) }),
{
    let mut items: Vec<AcceptanceCriterion> = Vec::new();
    let mut k: usize = 0;
    while k < texts.len()
        invariant
            k <= texts@.len(),
            items@.len() == k,
            crate::catalog::requirement::criteria_texts(items@) == texts@.take(k as int).map_values(|t: &'static str| t@),
        decreases texts@.len() - k,
    {
        let ghost before = items@;
        let text = texts[k];
        items.push(AcceptanceCriterion { text: String::from_str(text) });
        proof {
            assert(items@ == before.push(items@[k as int]));
            assert(items@[k as int].text@ == text@);
            assert(texts@.take(k + 1) =~= texts@.take(k as int).push(text));
            assert(crate::catalog::requirement::criteria_texts(items@) =~= crate::catalog::requirement::criteria_texts(before).push(text@));
            assert(texts@.take(k + 1).map_values(|t: &'static str| t@) =~= texts@.take(k as int).map_values(|t: &'static str| t@).push(text@));
        }
        k += 1;
    }
    assert(texts@.take(texts@.len() as int) =~= texts@);
    RequirementCriteria::Known { items }
}

/// The text under which an interface route is counted once: the method label, a space, and the
/// resolved path.
pub open spec fn route_key(route: (String, String)) -> Seq<char> {
    route.0@ + seq![' '] + route.1@
}

/// The keys of a run of routes, in order.
pub open spec fn route_keys(routes: Seq<(String, String)>) -> Seq<Seq<char>> {
    routes.map_values(|r: (String, String)| route_key(r))
}

/// Position `i` holds the first route with its key.
pub open spec fn is_first_route(keys: Seq<Seq<char>>, i: int) -> bool {
    &&& 0 <= i < keys.len()
    &&& forall|j: int| 0 <= j < i ==> keys[j] != keys[i]
}

/// The positions, in order, of the routes that open an interface requirement: each route whose
/// key (method label and resolved path) has not come before it. Later routes with a key already
/// seen are passed over.
#[verifier::spinoff_prover]
#[verifier::rlimit(40)]
pub fn first_route_positions(routes: &[(String, String)]) -> (picked: Vec<usize>)
    ensures
        forall|k: int| 0 <= k < picked@.len() ==> is_first_route(route_keys(routes@), #[trigger] picked@[k] as int),
        forall|k1: int, k2: int| 0 <= k1 < k2 < picked@.len() ==> picked@[k1] < picked@[k2],
        forall|i: int| #[trigger] is_first_route(route_keys(routes@), i) ==> picked@.contains(i as usize),
{
    let ghost keys = route_keys(routes@);
    let mut picked: Vec<usize> = Vec::new();
    let mut seen: Vec<String> = Vec::new();
    let mut i: usize = 0;
    while i < routes.len()
        invariant
            i <= routes@.len(),
            keys == route_keys(routes@),
            keys.len() == routes@.len(),
            seen@.len() == picked@.len(),
            forall|k: int| 0 <= k < picked@.len() ==> #[trigger] picked@[k] < i && is_first_route(keys, picked@[k] as int),
            forall|k: int| 0 <= k < seen@.len() ==> (#[trigger] seen@[k])@ == keys[picked@[k] as int],
            forall|k1: int, k2: int| 0 <= k1 < k2 < picked@.len() ==> picked@[k1] < picked@[k2],
            forall|j: int| 0 <= j < i ==> exists|k: int| 0 <= k < seen@.len() && (#[trigger] seen@[k])@ == #[trigger] keys[j],
            forall|j: int| 0 <= j < i && #[trigger] is_first_route(keys, j) ==> picked@.contains(j as usize),
        decreases routes@.len() - i,
    {
        let mut key = routes[i].0.clone();
        key.append(" ");
        key.append(routes[i].1.as_str());
        proof {
            reveal_strlit(" ");
            assert(key@ == keys[i as int]);
        }
        if !holds_str(&seen, key.as_str()) {
            proof {
                assert forall|j: int| 0 <= j < i implies keys[j] != keys[i as int] by {
                    if keys[j] == keys[i as int] {
                        let k = choose|k: int| 0 <= k < seen@.len() && (#[trigger] seen@[k])@ == keys[j];
                        assert(seen@[k]@ == key@);
                    }
                }
            }
            let ghost old_seen = seen@;
            let ghost old_picked = picked@;
            picked.push(i);
            seen.push(key);
            proof {
                assert forall|j: int| 0 <= j <= i implies exists|k: int| 0 <= k < seen@.len() && (#[trigger] seen@[k])@ == #[trigger] keys[j] by {
                    if j == i {
                        assert(seen@[seen@.len() - 1]@ == keys[j]);
                    } else {
                        let k = choose|k: int| 0 <= k < old_seen.len() && (#[trigger] old_seen[k])@ == keys[j];
                        assert(seen@[k] == old_seen[k]);
                    }
                }
                assert forall|j: int| 0 <= j <= i && #[trigger] is_first_route(keys, j) implies picked@.contains(j as usize) by {
                    if j == i {
                        assert(picked@[picked@.len() - 1] == j as usize);
                    } else {
                        assert(old_picked.contains(j as usize));
                        let k = choose|k: int| 0 <= k < old_picked.len() && old_picked[k] == j as usize;
                        assert(picked@[k] == j as usize);
                    }
                }
            }
        } else {
            proof {
                let k = choose|k: int| 0 <= k < seen@.len() && (#[trigger] seen@[k])@ == key@;
                assert(!is_first_route(keys, i as int)) by {
                    assert(picked@[k] < i);
                    assert(keys[picked@[k] as int] == keys[i as int]);
                }
            }
        }
        i += 1;
    }
    picked
}

impl RequirementCatalog {
    /// Appends one system requirement per overlay entry, after the others: entry `k` is placed
    /// under the domain and aggregate that `placements[k]` names, and carries the entry's
    /// statement (held back, with a finding, when blank or contaminated), criteria and rationale.
    pub fn append_overlay_requirements(&mut self, entries: &[SystemOverlayEntry], placements: &[(String, String)])
        requires
            placements@.len() == entries@.len(),
        ensures
            final(self).requirements@.len() == old(self).requirements@.len() + entries@.len(),
            final(self).requirements@.take(old(self).requirements@.len() as int) == old(self).requirements@,
            forall|k: int|
                0 <= k < entries@.len() ==> is_overlay_requirement(
                    #[trigger] final(self).requirements@[old(self).requirements@.len() + k],
                    entries@[k],
                    placements@[k].0@,
                    placements@[k].1@,
                ),
            findings_view(final(self).contamination_findings@) == findings_view(old(self).contamination_findings@)
                + overlay_findings(entries@),
            systems_linked(old(self).requirements@) ==> systems_linked(final(self).requirements@),
    {
        let ghost start = self.requirements@;
        let ghost start_findings = findings_view(self.contamination_findings@);
        let mut k: usize = 0;
        assert(entries@.take(0) =~= Seq::<SystemOverlayEntry>::empty());
        assert(start_findings + Seq::<(SourceView, Seq<char>)>::empty() =~= start_findings);
        assert(self.requirements@.take(start.len() as int) =~= start);
        while k < entries.len()
            invariant
                k <= entries@.len(),
                placements@.len() == entries@.len(),
                self.requirements@.len() == start.len() + k,
                self.requirements@.take(start.len() as int) == start,
                forall|j: int|
                    0 <= j < k ==> is_overlay_requirement(
                        #[trigger] self.requirements@[start.len() + j],
                        entries@[j],
                        placements@[j].0@,
                        placements@[j].1@,
                    ),
                findings_view(self.contamination_findings@) == start_findings + overlay_findings(entries@.take(k as int)),
            decreases entries@.len() - k,
        {
            let entry = &entries[k];
            let (domain, aggregate) = (&placements[k].0, &placements[k].1);
            let id = overlay_requirement_id(domain.as_str(), aggregate.as_str(), entry.suffix);
            let ghost before = self.contamination_findings@;
            let statement = derive_statement(
                entry.statement,
                ContaminationSource::Overlay { suffix: String::from_str(entry.suffix) },
                &mut self.contamination_findings,
            );
            proof {
                assert(entries@.take(k + 1).drop_last() =~= entries@.take(k as int));
                assert(entries@.take(k + 1).last() == *entry);
                let after = self.contamination_findings@;
                if trim(entry.statement@).len() > 0 && contamination(entry.statement@) is Some {
                    assert(after =~= before.push(after.last()));
                    assert(findings_view(after) =~= findings_view(before).push(finding_view(after.last())));
                } else {
                    assert(findings_view(after) =~= findings_view(before) + Seq::<(SourceView, Seq<char>)>::empty());
                }
            }
            let criteria = overlay_criteria(&entry.criteria);
            let rationale = match entry.provenance {
                Provenance::Asserted { rationale } => Some(String::from_str(rationale)),
            };
            let ghost old_reqs = self.requirements@;
            self.requirements.push(
                Requirement {
                    id,
                    kind: RequirementClass::System,
                    domain: domain.clone(),
                    aggregate: aggregate.clone(),
                    statement,
                    criteria,
                    feature_id: None,
                    journey_id: None,
                    function_id: None,
                    requirement_verifications: Vec::new(),
                    subrequirements: Vec::new(),
                    assumptions: Vec::new(),
                    rationale,
                },
            );
            proof {
                assert(self.requirements@.take(start.len() as int) =~= old_reqs.take(start.len() as int));
                assert forall|j: int| 0 <= j < k implies #[trigger] self.requirements@[start.len() + j] == old_reqs[start.len() + j] by {}
            }
            k += 1;
        }
        assert(entries@.take(entries@.len() as int) =~= entries@);
        proof {
            if systems_linked(start) {
                law_overlay_rows_keep_links(start, self.requirements@, entries@, placements@);
            }
        }
    }
}

} // verus!
