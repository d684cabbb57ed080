use vstd::prelude::*;

use crate::catalog::contamination::{contamination, find_contamination};
use crate::text::{chars_of, dedup, join, join_strings, str_eq, trim, trim_bounds};

verus! {

/// The classes of requirements the catalog derives.
#[derive(Clone, Copy, Debug, PartialEq, Eq, Structural)]
pub enum RequirementClass {
    System,
    Functional,
    Interface,
    Performance,
    Robustness,
}

/// What an assumption is about.
#[derive(Clone, Copy, Debug, PartialEq, Eq, Structural)]
pub enum AssumptionKind {
    Hardware,
    Software,
    Data,
    Network,
    Other,
}

/// A journey precondition, carried by a requirement as an assumption.
#[derive(Debug)]
pub struct Assumption {
    pub statement: String,
    pub source_use_case: String,
    pub kind: AssumptionKind,
}

/// A requirement's id, such as "REQ/<domain>/<aggregate>/FUN/<function>".
#[derive(Debug)]
pub struct RequirementId(pub String);

/// What a requirement states, when it can be stated.
#[derive(Debug)]
pub enum RequirementStatement {
    Known { text: String },
    Unknown { reason: String },
}

/// The value of a statement.
pub enum StatementView {
    Known { text: Seq<char> },
    Unknown { reason: Seq<char> },
}

impl View for RequirementStatement {
    type V = StatementView;

    open spec fn view(&self) -> StatementView {
        match self {
            RequirementStatement::Known { text } => StatementView::Known { text: text@ },
            RequirementStatement::Unknown { reason } => StatementView::Unknown { reason: reason@ },
        }
    }
}

/// One acceptance criterion.
#[derive(Debug)]
pub struct AcceptanceCriterion {
    pub text: String,
}

/// How a requirement is accepted, when that is known.
#[derive(Debug)]
pub enum RequirementCriteria {
    Known { items: Vec<AcceptanceCriterion> },
    Unknown { reason: String },
}

/// The texts of a list of criteria.
pub open spec fn criteria_texts(items: Seq<AcceptanceCriterion>) -> Seq<Seq<char>> {
    items.map_values(|item: AcceptanceCriterion| item.text@)
}

/// The value of a criteria field.
pub enum CriteriaView {
    Known { items: Seq<Seq<char>> },
    Unknown { reason: Seq<char> },
}

impl View for RequirementCriteria {
    type V = CriteriaView;

    open spec fn view(&self) -> CriteriaView {
        match self {
            RequirementCriteria::Known { items } => CriteriaView::Known { items: criteria_texts(items@) },
            RequirementCriteria::Unknown { reason } => CriteriaView::Unknown { reason: reason@ },
        }
    }
}

/// Where a contaminated text came from.
#[derive(Debug)]
pub enum ContaminationSource {
    Capability { id: String },
    Journey { id: String },
    Overlay { suffix: String },
}

/// A text that the contamination lint held back, and the piece that betrayed it.
#[derive(Debug)]
pub struct ContaminationFinding {
    pub source: ContaminationSource,
    pub substring: String,
}

/// A derived requirement.
#[derive(Debug)]
pub struct Requirement {
    pub id: RequirementId,
    pub kind: RequirementClass,
    pub domain: String,
    pub aggregate: String,
    pub statement: RequirementStatement,
    pub criteria: RequirementCriteria,
    pub feature_id: Option<String>,
    pub journey_id: Option<String>,
    pub function_id: Option<String>,
    pub requirement_verifications: Vec<String>,
    pub subrequirements: Vec<RequirementId>,
    pub assumptions: Vec<Assumption>,
    pub rationale: Option<String>,
}

/// The derived requirements, and what the contamination lint held back while deriving them.
#[derive(Debug)]
pub struct RequirementCatalog {
    pub requirements: Vec<Requirement>,
    pub contamination_findings: Vec<ContaminationFinding>,
}

/// Why a requirement catalog does not validate.
#[derive(Debug)]
pub enum RequirementValidationError {
    MissingSystemRequirement { feature: String },
    SystemWithoutFunctional { id: String },
    FunctionalWithoutCriterion { id: String },
    SystemOverlayWithoutCriterion { id: String },
    HttpAutomatableWithoutRuntime { journey: String, step: usize },
    ContaminatedStatementEmitted { id: String, substring: String },
}

/// The value of a validation error.
pub enum ValidationErrorView {
    MissingSystemRequirement { feature: Seq<char> },
    SystemWithoutFunctional { id: Seq<char> },
    FunctionalWithoutCriterion { id: Seq<char> },
    SystemOverlayWithoutCriterion { id: Seq<char> },
    HttpAutomatableWithoutRuntime { journey: Seq<char>, step: usize },
    ContaminatedStatementEmitted { id: Seq<char>, substring: Seq<char> },
}

impl View for RequirementValidationError {
    type V = ValidationErrorView;

    open spec fn view(&self) -> ValidationErrorView {
        match self {
            RequirementValidationError::MissingSystemRequirement { feature } => ValidationErrorView::MissingSystemRequirement { feature: feature@ },
            RequirementValidationError::SystemWithoutFunctional { id } => ValidationErrorView::SystemWithoutFunctional { id: id@ },
            RequirementValidationError::FunctionalWithoutCriterion { id } => ValidationErrorView::FunctionalWithoutCriterion { id: id@ },
            RequirementValidationError::SystemOverlayWithoutCriterion { id } => ValidationErrorView::SystemOverlayWithoutCriterion { id: id@ },
            RequirementValidationError::HttpAutomatableWithoutRuntime { journey, step } => ValidationErrorView::HttpAutomatableWithoutRuntime { journey: journey@, step: *step },
            RequirementValidationError::ContaminatedStatementEmitted { id, substring } => ValidationErrorView::ContaminatedStatementEmitted { id: id@, substring: substring@ },
        }
    }
}

/// The values of a list of validation errors.
pub open spec fn errors_view(errors: Seq<RequirementValidationError>) -> Seq<ValidationErrorView> {
    errors.map_values(|e: RequirementValidationError| e@)
}

/// The error a requirement contributes to statement validation: its known statement is
/// contaminated.
pub open spec fn emitted_statement_error(requirement: Requirement) -> Option<ValidationErrorView> {
    match requirement.statement@ {
        StatementView::Known { text } => match contamination(text) {
            Some(substring) => Some(ValidationErrorView::ContaminatedStatementEmitted { id: requirement.id.0@, substring }),
            None => None,
        },
        StatementView::Unknown { .. } => None,
    }
}

/// The statement validation errors of a list of requirements, in order.
pub open spec fn emitted_statement_errors(requirements: Seq<Requirement>) -> Seq<ValidationErrorView> {
    requirements.filter_map(|r: Requirement| emitted_statement_error(r))
}

/// The statement derived from a source text: unknown when the text is blank or contaminated,
/// otherwise the trimmed text.
pub open spec fn derived_statement(text: Seq<char>) -> StatementView {
    if trim(text).len() == 0 {
        StatementView::Unknown { reason: "source text is empty"@ }
    } else if contamination(text) is Some {
        StatementView::Unknown { reason: "source text is contaminated; awaiting re-grounding"@ }
    } else {
        StatementView::Known { text: trim(text) }
    }
}

/// How deriving a statement from `text` changes the findings: a non-blank contaminated text adds
/// one finding, with its source and the betraying piece; any other text adds none.
pub open spec fn finding_recorded(
    before: Seq<ContaminationFinding>,
    after: Seq<ContaminationFinding>,
    text: Seq<char>,
    source: ContaminationSource,
) -> bool {
    match (trim(text).len() > 0, contamination(text)) {
        (true, Some(sub)) => after.len() == before.len() + 1 && after.take(before.len() as int) == before
            && after.last().substring@ == sub && after.last().source == source,
        _ => after == before,
    }
}

/// Derives a statement from a source text, recording a finding when the lint holds it back.
pub fn derive_statement(
    text: &str,
    source: ContaminationSource,
    findings: &mut Vec<ContaminationFinding>,
) -> (statement: RequirementStatement)
    ensures
        statement@ == derived_statement(text@),
        finding_recorded(old(findings)@, final(findings)@, text@, source),
{
    let chars = chars_of(text);
    let (lo, hi) = trim_bounds(&chars);
    if lo == hi {
        return RequirementStatement::Unknown { reason: String::from_str("source text is empty") };
    }
    if let Some(substring) = find_contamination(text) {
        let ghost before = findings@;
        findings.push(ContaminationFinding { source, substring });
        assert(findings@.take(before.len() as int) =~= before);
        return RequirementStatement::Unknown {
            reason: String::from_str("source text is contaminated; awaiting re-grounding"),
        };
    }
    RequirementStatement::Known { text: String::from_str(text.substring_char(lo, hi)) }
}

/// `k` is the first requirement with id `id`.
pub open spec fn is_first_req_with_id(reqs: Seq<Requirement>, id: Seq<char>, k: int) -> bool {
    &&& 0 <= k < reqs.len()
    &&& reqs[k].id.0@ == id
    &&& forall|j: int| 0 <= j < k ==> reqs[j].id.0@ != id
}

/// Some requirement has id `id`.
pub open spec fn has_requirement(reqs: Seq<Requirement>, id: Seq<char>) -> bool {
    exists|k: int| 0 <= k < reqs.len() && reqs[k].id.0@ == id
}

/// The first requirement with id `id`.
pub open spec fn requirement_with_id(reqs: Seq<Requirement>, id: Seq<char>) -> Requirement {
    reqs[choose|k: int| is_first_req_with_id(reqs, id, k)]
}

/// The position of the first requirement with id `id`.
pub fn find_requirement(reqs: &[Requirement], id: &str) -> (pos: Option<usize>)
    ensures
        match pos {
            Some(k) => is_first_req_with_id(reqs@, id@, k as int) && requirement_with_id(reqs@, id@) == reqs@[k as int],
            None => !has_requirement(reqs@, id@),
        },
{
    let mut k: usize = 0;
    while k < reqs.len()
        invariant
            k <= reqs@.len(),
            forall|j: int| 0 <= j < k ==> reqs@[j].id.0@ != id@,
        decreases reqs@.len() - k,
    {
        if str_eq(reqs[k].id.0.as_str(), id) {
            proof {
                assert(is_first_req_with_id(reqs@, id@, k as int));
                let c = choose|c: int| is_first_req_with_id(reqs@, id@, c);
                assert(c == k) by {
                    if c < k {
                        assert(reqs@[c].id.0@ != id@);
                    } else if c > k {
                        assert(reqs@[k as int].id.0@ == id@);
                    }
                }
            }
            return Some(k);
        }
        k += 1;
    }
    None
}

/// The ids of a list of requirement ids.
pub open spec fn ids_view(ids: Seq<RequirementId>) -> Seq<Seq<char>> {
    ids.map_values(|id: RequirementId| id.0@)
}

/// The known statement of the requirement with id `id`.
pub open spec fn known_text_of(reqs: Seq<Requirement>, id: Seq<char>) -> Option<Seq<char>> {
    match requirement_with_id(reqs, id).statement@ {
        StatementView::Known { text } => Some(text),
        StatementView::Unknown { .. } => None,
    }
}

/// The distinct known statements of the children, in child order.
pub open spec fn child_texts(children: Seq<Seq<char>>, reqs: Seq<Requirement>) -> Seq<Seq<char>> {
    dedup(children.filter_map(|id: Seq<char>| known_text_of(reqs, id)))
}

/// The statement of a system requirement composed from its children's statements.
pub open spec fn system_statement(children: Seq<Seq<char>>, reqs: Seq<Requirement>) -> StatementView {
    let texts = child_texts(children, reqs);
    if texts.len() == 0 {
        StatementView::Unknown { reason: "all functional child statements are unknown"@ }
    } else {
        derived_statement(join(texts, "; "@))
    }
}

/// Whether `text` is one of the strings of `list`.
fn contains_string(list: &[String], text: &str) -> (found: bool)
    ensures
        found == list@.map_values(|p: String| p@).contains(text@),
{
    let ghost views = list@.map_values(|p: String| p@);
    let mut k: usize = 0;
    while k < list.len()
        invariant
            k <= list@.len(),
            views == list@.map_values(|p: String| p@),
            forall|j: int| 0 <= j < k ==> views[j] != text@,
        decreases list@.len() - k,
    {
        if str_eq(list[k].as_str(), text) {
            assert(views[k as int] == text@);
            return true;
        }
        k += 1;
    }
    false
}

/// Composes a system requirement's statement from its functional children.
pub fn compose_system_statement(
    subrequirements: &[RequirementId],
    requirements: &[Requirement],
    source: ContaminationSource,
    findings: &mut Vec<ContaminationFinding>,
) -> (statement: RequirementStatement)
    requires
        forall|i: int| 0 <= i < subrequirements@.len() ==> has_requirement(requirements@, #[trigger] subrequirements@[i].0@),
    ensures
        statement@ == system_statement(ids_view(subrequirements@), requirements@),
        ({
            let texts = child_texts(ids_view(subrequirements@), requirements@);
            if texts.len() == 0 {
                final(findings)@ == old(findings)@
            } else {
                finding_recorded(old(findings)@, final(findings)@, join(texts, "; "@), source)
            }
        }),
{
    let ghost children = ids_view(subrequirements@);
    let ghost f = |id: Seq<char>| known_text_of(requirements@, id);
    let mut texts: Vec<String> = Vec::new();
    let mut i: usize = 0;
    while i < subrequirements.len()
        invariant
            i <= subrequirements@.len(),
            children == ids_view(subrequirements@),
            f == (|id: Seq<char>| known_text_of(requirements@, id)),
            forall|k: int| 0 <= k < subrequirements@.len() ==> has_requirement(requirements@, #[trigger] subrequirements@[k].0@),
            texts@.map_values(|p: String| p@) == dedup(children.take(i as int).filter_map(f)),
        decreases subrequirements@.len() - i,
    {
        let id = subrequirements[i].0.as_str();
        proof {
            children.lemma_filter_map_take_succ(f, i as int);
            assert(children[i as int] == id@);
        }
        let k = match find_requirement(requirements, id) {
            Some(k) => k,
            None => {
                proof {
                    assert(has_requirement(requirements@, subrequirements@[i as int].0@));
                }
                return RequirementStatement::Unknown { reason: String::new() };
            },
        };
        let ghost before = texts@.map_values(|p: String| p@);
        let ghost prefix = children.take(i as int).filter_map(f);
        proof {
            assert(children.take(i + 1).filter_map(f) =~= prefix + match f(id@) {
                Some(t) => seq![t],
                None => Seq::empty(),
            });
        }
        if let RequirementStatement::Known { text } = &requirements[k].statement {
            proof {
                assert(f(id@) == Some(text@));
                assert(prefix + seq![text@] =~= prefix.push(text@));
                assert(prefix.push(text@).drop_last() =~= prefix);
                assert(prefix.push(text@).last() == text@);
            }
            if !contains_string(texts.as_slice(), text.as_str()) {
                texts.push(text.clone());
                proof {
                    assert(texts@.map_values(|p: String| p@) =~= before.push(text@));
                }
            }
        } else {
            proof {
                assert(f(id@) == None::<Seq<char>>);
                assert(prefix + Seq::<Seq<char>>::empty() =~= prefix);
            }
        }
        i += 1;
    }
    proof {
        assert(children.take(subrequirements@.len() as int) =~= children);
    }
    if texts.len() == 0 {
        return RequirementStatement::Unknown {
            reason: String::from_str("all functional child statements are unknown"),
        };
    }
    let joined = join_strings(texts.as_slice(), "; ");
    derive_statement(joined.as_str(), source, findings)
}

/// The criteria of the requirement with id `id`.
pub open spec fn criteria_of(reqs: Seq<Requirement>, id: Seq<char>) -> CriteriaView {
    requirement_with_id(reqs, id).criteria@
}

/// The known criteria items of the requirement with id `id`, none when they are unknown.
pub open spec fn known_items_of(reqs: Seq<Requirement>, id: Seq<char>) -> Seq<Seq<char>> {
    match criteria_of(reqs, id) {
        CriteriaView::Known { items } => items,
        CriteriaView::Unknown { .. } => Seq::empty(),
    }
}

/// The known criteria items of the children, concatenated in child order.
pub open spec fn concat_items(children: Seq<Seq<char>>, reqs: Seq<Requirement>) -> Seq<Seq<char>>
    decreases children.len(),
{
    if children.len() == 0 {
        Seq::empty()
    } else {
        concat_items(children.drop_last(), reqs) + known_items_of(reqs, children.last())
    }
}

/// `k` is the first child whose criteria are unknown.
pub open spec fn is_first_unknown_child(children: Seq<Seq<char>>, reqs: Seq<Requirement>, k: int) -> bool {
    &&& 0 <= k < children.len()
    &&& criteria_of(reqs, children[k]) is Unknown
    &&& forall|j: int| 0 <= j < k ==> criteria_of(reqs, children[j]) is Known
}

/// The criteria of a system requirement composed from its children's: unknown as soon as one
/// child's are, otherwise all their items.
pub open spec fn system_criteria(children: Seq<Seq<char>>, reqs: Seq<Requirement>) -> CriteriaView {
    if exists|k: int| is_first_unknown_child(children, reqs, k) {
        let k = choose|k: int| is_first_unknown_child(children, reqs, k);
        CriteriaView::Unknown {
            reason: "functional child "@ + children[k] + " has unknown criteria: "@ + criteria_of(reqs, children[k])->reason,
        }
    } else {
        let items = concat_items(children, reqs);
        if items.len() == 0 {
            CriteriaView::Unknown { reason: "functional children have no acceptance criteria"@ }
        } else {
            CriteriaView::Known { items }
        }
    }
}

/// Composes a system requirement's criteria from its functional children.
pub fn compose_system_criteria(subrequirements: &[RequirementId], requirements: &[Requirement]) -> (criteria: RequirementCriteria)
    requires
        forall|i: int| 0 <= i < subrequirements@.len() ==> has_requirement(requirements@, #[trigger] subrequirements@[i].0@),
    ensures
        criteria@ == system_criteria(ids_view(subrequirements@), requirements@),
{
    let ghost children = ids_view(subrequirements@);
    let mut items: Vec<AcceptanceCriterion> = Vec::new();
    let mut i: usize = 0;
    while i < subrequirements.len()
        invariant
            i <= subrequirements@.len(),
            children == ids_view(subrequirements@),
            forall|k: int| 0 <= k < subrequirements@.len() ==> has_requirement(requirements@, #[trigger] subrequirements@[k].0@),
            forall|j: int| 0 <= j < i ==> criteria_of(requirements@, #[trigger] children[j]) is Known,
            criteria_texts(items@) == concat_items(children.take(i as int), requirements@),
        decreases subrequirements@.len() - i,
    {
        let id = subrequirements[i].0.as_str();
        proof {
            assert(children[i as int] == id@);
            assert(children.take(i + 1).drop_last() =~= children.take(i as int));
            assert(children.take(i + 1).last() == id@);
        }
        let k = match find_requirement(requirements, id) {
            Some(k) => k,
            None => {
                proof {
                    assert(has_requirement(requirements@, subrequirements@[i as int].0@));
                }
                return RequirementCriteria::Unknown { reason: String::new() };
            },
        };
        match &requirements[k].criteria {
            RequirementCriteria::Known { items: child_items } => {
                let ghost before = criteria_texts(items@);
                let mut m: usize = 0;
                while m < child_items.len()
                    invariant
                        m <= child_items@.len(),
                        criteria_texts(items@) == before + criteria_texts(child_items@).take(m as int),
                    decreases child_items@.len() - m,
                {
                    let ghost old_items = items@;
                    items.push(AcceptanceCriterion { text: child_items[m].text.clone() });
                    proof {
                        assert(criteria_texts(items@) =~= criteria_texts(old_items).push(child_items@[m as int].text@));
                        assert(criteria_texts(child_items@).take(m + 1) =~= criteria_texts(child_items@).take(m as int).push(child_items@[m as int].text@));
                    }
                    m += 1;
                    assert(criteria_texts(items@) =~= before + criteria_texts(child_items@).take(m as int));
                }
                assert(criteria_texts(child_items@).take(child_items@.len() as int) =~= criteria_texts(child_items@));
            },
            RequirementCriteria::Unknown { reason } => {
                let mut text = String::from_str("functional child ");
                text.append(id);
                text.append(" has unknown criteria: ");
                text.append(reason.as_str());
                proof {
                    assert(is_first_unknown_child(children, requirements@, i as int));
                    let c = choose|c: int| is_first_unknown_child(children, requirements@, c);
                    assert(c == i) by {
                        if c < i {
                            assert(criteria_of(requirements@, children[c]) is Known);
                        } else if c > i {
                            assert(criteria_of(requirements@, children[i as int]) is Unknown);
                        }
                    }
                }
                return RequirementCriteria::Unknown { reason: text };
            },
        }
        i += 1;
    }
    proof {
        assert(children.take(subrequirements@.len() as int) =~= children);
        assert forall|c: int| !is_first_unknown_child(children, requirements@, c) by {
            if 0 <= c < children.len() {
                assert(criteria_of(requirements@, children[c]) is Known);
            }
        }
    }
    if items.len() == 0 {
        RequirementCriteria::Unknown { reason: String::from_str("functional children have no acceptance criteria") }
    } else {
        RequirementCriteria::Known { items }
    }
}

impl RequirementCatalog {
    pub fn requirements(&self) -> (requirements: &[Requirement])
        ensures
            requirements@ == self.requirements@,
    {
        self.requirements.as_slice()
    }

    /// The requirements, to change in place.
    pub fn requirements_mut(&mut self) -> (requirements: &mut Vec<Requirement>)
        ensures
            *requirements == old(self).requirements,
            final(self).requirements == *final(requirements),
            final(self).contamination_findings == old(self).contamination_findings,
    {
        &mut self.requirements
    }

    pub fn contamination_findings(&self) -> (findings: &[ContaminationFinding])
        ensures
            findings@ == self.contamination_findings@,
    {
        self.contamination_findings.as_slice()
    }

    /// Checks that no known statement is contaminated; the errors come in requirement order.
    pub fn validate_emitted_statements(&self) -> (result: Result<(), Vec<RequirementValidationError>>)
        ensures
            match result {
                Ok(()) => emitted_statement_errors(self.requirements@).len() == 0,
                Err(errors) => errors@.len() > 0 && errors_view(errors@) == emitted_statement_errors(self.requirements@),
            },
    {
        let mut errors: Vec<RequirementValidationError> = Vec::new();
        let mut i: usize = 0;
        while i < self.requirements.len()
            invariant
                i <= self.requirements@.len(),
                errors_view(errors@) == emitted_statement_errors(self.requirements@.take(i as int)),
            decreases self.requirements@.len() - i,
        {
            let requirement = &self.requirements[i];
            proof {
                self.requirements@.lemma_filter_map_take_succ(|r: Requirement| emitted_statement_error(r), i as int);
            }
            let ghost before = errors@;
            if let RequirementStatement::Known { text } = &requirement.statement {
                if let Some(substring) = find_contamination(text.as_str()) {
                    errors.push(
                        RequirementValidationError::ContaminatedStatementEmitted {
                            id: requirement.id.0.clone(),
                            substring,
                        },
                    );
                }
            }
            assert(errors_view(errors@) =~= errors_view(before) + match emitted_statement_error(*requirement) {
                Some(e) => seq![e],
                None => Seq::empty(),
            });
            i += 1;
        }
        assert(self.requirements@.take(self.requirements@.len() as int) =~= self.requirements@);
        if errors.len() == 0 {
            Ok(())
        } else {
            Err(errors)
        }
    }
}

} // verus!
