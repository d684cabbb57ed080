use vstd::prelude::*;

use crate::catalog::derive::{requirement_id_text, system_requirement_id};
use crate::catalog::requirement::{
    errors_view, emitted_statement_errors, CriteriaView, Requirement, RequirementCatalog,
    RequirementClass, RequirementCriteria, RequirementValidationError, ValidationErrorView,
    criteria_texts,
};
use crate::text::{chars_of, contains_seq, find_chars, str_eq};

verus! {

/// A capability that the catalog declares, as the requirement derivation reads it.
#[derive(Debug)]
pub struct DeclaredCapability {
    pub id: String,
    pub domain: String,
    pub aggregate: String,
    pub rationale: String,
}

/// The id of a capability's system requirement.
pub open spec fn system_id_of(c: DeclaredCapability) -> Seq<char> {
    requirement_id_text(c.domain@, c.aggregate@, "SYS"@, c.id@)
}

/// A journey of the catalog, as the structure check reads it: its id and whether its steps can
/// all be driven over HTTP.
#[derive(Debug)]
pub struct JourneyAutomation {
    pub id: String,
    pub http_automatable: bool,
}

/// Some system requirement has id `id`.
pub open spec fn has_system_id(reqs: Seq<Requirement>, id: Seq<char>) -> bool {
    exists|k: int| 0 <= k < reqs.len() && reqs[k].kind == RequirementClass::System && #[trigger] reqs[k].id.0@ == id
}

/// The journey with id `id` is known.
pub open spec fn knows_journey(journeys: Seq<JourneyAutomation>, id: Seq<char>) -> bool {
    exists|k: int| 0 <= k < journeys.len() && #[trigger] journeys[k].id@ == id
}

/// `k` is the first journey with id `id`.
pub open spec fn is_first_journey(journeys: Seq<JourneyAutomation>, id: Seq<char>, k: int) -> bool {
    &&& 0 <= k < journeys.len()
    &&& journeys[k].id@ == id
    &&& forall|j: int| 0 <= j < k ==> journeys[j].id@ != id
}

/// Whether the (first) journey with id `id` is HTTP-automatable.
pub open spec fn automatable(journeys: Seq<JourneyAutomation>, id: Seq<char>) -> bool {
    journeys[choose|k: int| is_first_journey(journeys, id, k)].http_automatable
}

/// The error for a declared capability that has no system requirement.
pub open spec fn missing_system_error(reqs: Seq<Requirement>, c: DeclaredCapability) -> Option<ValidationErrorView> {
    if has_system_id(reqs, system_id_of(c)) {
        None
    } else {
        Some(ValidationErrorView::MissingSystemRequirement { feature: c.id@ })
    }
}

/// The criteria are known and list no item.
pub open spec fn known_and_empty(c: CriteriaView) -> bool {
    c matches CriteriaView::Known { items } && items.len() == 0
}

/// The criteria are known, list items, and none of them cites a runtime capture.
pub open spec fn lacks_capture(c: CriteriaView) -> bool {
    c matches CriteriaView::Known { items } && items.len() > 0 && forall|k: int|
        0 <= k < items.len() ==> !contains_seq(#[trigger] items[k], "capture="@)
}

/// The errors of one verifying journey of a functional requirement.
pub open spec fn verification_error(journeys: Seq<JourneyAutomation>, r: Requirement, journey: Seq<char>) -> Option<ValidationErrorView> {
    if automatable(journeys, journey) && lacks_capture(r.criteria@) {
        Some(ValidationErrorView::HttpAutomatableWithoutRuntime { journey, step: 0 })
    } else {
        None
    }
}

/// One optional error, as a list.
pub open spec fn maybe(cond: bool, e: ValidationErrorView) -> Seq<ValidationErrorView> {
    if cond {
        seq![e]
    } else {
        seq![]
    }
}

/// The errors a requirement contributes to the structure check, in the order they are found.
pub open spec fn requirement_errors(journeys: Seq<JourneyAutomation>, r: Requirement) -> Seq<ValidationErrorView> {
    let id = r.id.0@;
    let overlay = contains_seq(id, "/SYS-OVR/"@);
    let functional = r.kind == RequirementClass::Functional;
    maybe(
        r.kind == RequirementClass::System && r.subrequirements@.len() == 0 && !overlay && !(r.criteria@ is Unknown),
        ValidationErrorView::SystemWithoutFunctional { id },
    ) + maybe(functional && known_and_empty(r.criteria@), ValidationErrorView::FunctionalWithoutCriterion { id })
        + maybe(overlay && known_and_empty(r.criteria@), ValidationErrorView::SystemOverlayWithoutCriterion { id })
        + maybe(functional && r.requirement_verifications@.len() == 0, ValidationErrorView::FunctionalWithoutCriterion { id })
        + if functional {
        r.requirement_verifications@.map_values(|j: String| j@).filter_map(
            |j: Seq<char>| verification_error(journeys, r, j),
        )
    } else {
        seq![]
    }
}

/// The errors of the requirements, concatenated in requirement order.
pub open spec fn all_requirement_errors(journeys: Seq<JourneyAutomation>, reqs: Seq<Requirement>) -> Seq<ValidationErrorView>
    decreases reqs.len(),
{
    if reqs.len() == 0 {
        seq![]
    } else {
        all_requirement_errors(journeys, reqs.drop_last()) + requirement_errors(journeys, reqs.last())
    }
}

/// All structure errors: contaminated statements, then capabilities without a system
/// requirement, then each requirement's own errors.
pub open spec fn structure_errors(
    reqs: Seq<Requirement>,
    capabilities: Seq<DeclaredCapability>,
    journeys: Seq<JourneyAutomation>,
) -> Seq<ValidationErrorView> {
    emitted_statement_errors(reqs) + capabilities.filter_map(|c: DeclaredCapability| missing_system_error(reqs, c))
        + all_requirement_errors(journeys, reqs)
}

/// Every journey that verifies a functional requirement is known.
pub open spec fn verifiers_known(reqs: Seq<Requirement>, journeys: Seq<JourneyAutomation>) -> bool {
    forall|i: int, j: int|
        0 <= i < reqs.len() && reqs[i].kind == RequirementClass::Functional && 0 <= j
            < reqs[i].requirement_verifications@.len() ==> knows_journey(
            journeys,
            #[trigger] reqs[i].requirement_verifications@[j]@,
        )
}

/// Whether `text` contains `needle`.
fn text_contains(text: &str, needle: &str) -> (found: bool)
    ensures
        found == contains_seq(text@, needle@),
{
    let hay = chars_of(text);
    let pattern = chars_of(needle);
    find_chars(&hay, &pattern).is_some()
}

/// Whether the (first) journey with id `id` is HTTP-automatable.
fn journey_automatable(journeys: &[JourneyAutomation], id: &str) -> (auto: bool)
    requires
        knows_journey(journeys@, id@),
    ensures
        auto == automatable(journeys@, id@),
{
    let mut k: usize = 0;
    while k < journeys.len()
        invariant
            k <= journeys@.len(),
            knows_journey(journeys@, id@),
            forall|j: int| 0 <= j < k ==> journeys@[j].id@ != id@,
        decreases journeys@.len() - k,
    {
        if str_eq(journeys[k].id.as_str(), id) {
            proof {
                assert(is_first_journey(journeys@, id@, k as int));
                let c = choose|c: int| is_first_journey(journeys@, id@, c);
                assert(c == k) by {
                    if c < k {
                        assert(journeys@[c].id@ != id@);
                    } else if c > k {
                        assert(journeys@[k as int].id@ == id@);
                    }
                }
            }
            return journeys[k].http_automatable;
        }
        k += 1;
    }
    proof {
        let w = choose|w: int| 0 <= w < journeys@.len() && #[trigger] journeys@[w].id@ == id@;
        assert(journeys@[w].id@ == id@);
    }
    false
}

/// Whether the criteria are known, list items, and none cites a runtime capture.
fn criteria_lack_capture(criteria: &RequirementCriteria) -> (lacks: bool)
    ensures
        lacks == lacks_capture(criteria@),
{
    match criteria {
        RequirementCriteria::Unknown { .. } => false,
        RequirementCriteria::Known { items } => {
            if items.len() == 0 {
                return false;
            }
            let ghost texts = criteria_texts(items@);
            let mut k: usize = 0;
            while k < items.len()
                invariant
                    k <= items@.len(),
                    texts == criteria_texts(items@),
                    criteria@ == (CriteriaView::Known { items: texts }),
                    forall|j: int| 0 <= j < k ==> !contains_seq(#[trigger] texts[j], "capture="@),
                decreases items@.len() - k,
            {
                if text_contains(items[k].text.as_str(), "capture=") {
                    assert(texts[k as int] == items@[k as int].text@);
                    return false;
                }
                k += 1;
            }
            true
        },
    }
}

fn known_and_empty_criteria(criteria: &RequirementCriteria) -> (empty: bool)
    ensures
        empty == known_and_empty(criteria@),
{
    match criteria {
        RequirementCriteria::Known { items } => items.len() == 0,
        RequirementCriteria::Unknown { .. } => false,
    }
}

/// Appends the errors of one requirement.
fn push_requirement_errors(
    errors: &mut Vec<RequirementValidationError>,
    requirement: &Requirement,
    journeys: &[JourneyAutomation],
)
    requires
        requirement.kind == RequirementClass::Functional ==> forall|j: int|
            0 <= j < requirement.requirement_verifications@.len() ==> knows_journey(
                journeys@,
                #[trigger] requirement.requirement_verifications@[j]@,
            ),
    ensures
        errors_view(final(errors)@) == errors_view(old(errors)@) + requirement_errors(journeys@, *requirement),
{
    let ghost start = errors_view(errors@);
    let id = requirement.id.0.as_str();
    let overlay = text_contains(id, "/SYS-OVR/");
    let functional = requirement.kind == RequirementClass::Functional;
    let unknown = match &requirement.criteria {
        RequirementCriteria::Unknown { .. } => true,
        _ => false,
    };
    let empty = known_and_empty_criteria(&requirement.criteria);
    let ghost r = *requirement;
    let ghost iv = id@;
    if requirement.kind == RequirementClass::System && requirement.subrequirements.len() == 0 && !overlay && !unknown {
        errors.push(RequirementValidationError::SystemWithoutFunctional { id: requirement.id.0.clone() });
    }
    let ghost e1 = maybe(
        r.kind == RequirementClass::System && r.subrequirements@.len() == 0 && !overlay && !(r.criteria@ is Unknown),
        ValidationErrorView::SystemWithoutFunctional { id: iv },
    );
    assert(errors_view(errors@) =~= start + e1);
    if functional && empty {
        errors.push(RequirementValidationError::FunctionalWithoutCriterion { id: requirement.id.0.clone() });
    }
    let ghost e2 = maybe(functional && known_and_empty(r.criteria@), ValidationErrorView::FunctionalWithoutCriterion { id: iv });
    assert(errors_view(errors@) =~= start + e1 + e2);
    if overlay && empty {
        errors.push(RequirementValidationError::SystemOverlayWithoutCriterion { id: requirement.id.0.clone() });
    }
    let ghost e3 = maybe(overlay && known_and_empty(r.criteria@), ValidationErrorView::SystemOverlayWithoutCriterion { id: iv });
    assert(errors_view(errors@) =~= start + e1 + e2 + e3);
    if functional && requirement.requirement_verifications.len() == 0 {
        errors.push(RequirementValidationError::FunctionalWithoutCriterion { id: requirement.id.0.clone() });
    }
    let ghost e4 = maybe(
        functional && r.requirement_verifications@.len() == 0,
        ValidationErrorView::FunctionalWithoutCriterion { id: iv },
    );
    let ghost head = start + e1 + e2 + e3 + e4;
    assert(errors_view(errors@) =~= head);
    if functional {
        let lacks = criteria_lack_capture(&requirement.criteria);
        let verifications = &requirement.requirement_verifications;
        let ghost vs = verifications@.map_values(|j: String| j@);
        let ghost f = |j: Seq<char>| verification_error(journeys@, r, j);
        let mut k: usize = 0;
        while k < verifications.len()
            invariant
                k <= verifications@.len(),
                r == *requirement,
                vs == verifications@.map_values(|j: String| j@),
                f == (|j: Seq<char>| verification_error(journeys@, r, j)),
                lacks == lacks_capture(r.criteria@),
                forall|j: int| 0 <= j < verifications@.len() ==> knows_journey(journeys@, #[trigger] verifications@[j]@),
                errors_view(errors@) == head + vs.take(k as int).filter_map(f),
            decreases verifications@.len() - k,
        {
            let journey = verifications[k].as_str();
            let auto = journey_automatable(journeys, journey);
            proof {
                vs.lemma_filter_map_take_succ(f, k as int);
                assert(vs[k as int] == journey@);
            }
            let ghost before = errors_view(errors@);
            if auto && lacks {
                errors.push(
                    RequirementValidationError::HttpAutomatableWithoutRuntime { journey: verifications[k].clone(), step: 0 },
                );
            }
            assert(errors_view(errors@) =~= before + match f(journey@) {
                Some(e) => seq![e],
                None => Seq::empty(),
            });
            k += 1;
        }
        assert(vs.take(vs.len() as int) =~= vs);
    } else {
        assert(head + Seq::<ValidationErrorView>::empty() =~= head);
    }
}

impl RequirementCatalog {
    /// Checks the structure of the requirements against the catalog's declared capabilities and
    /// journeys: statements are clean, every capability has its system requirement, system
    /// requirements have functional children, functional and overlay requirements state
    /// criteria and verifying journeys, and HTTP-automatable journeys cite runtime captures.
    pub fn validate_structure(
        &self,
        capabilities: &[DeclaredCapability],
        journeys: &[JourneyAutomation],
    ) -> (result: Result<(), Vec<RequirementValidationError>>)
        requires
            verifiers_known(self.requirements@, journeys@),
        ensures
            match result {
                Ok(()) => structure_errors(self.requirements@, capabilities@, journeys@).len() == 0,
                Err(errors) => errors@.len() > 0 && errors_view(errors@) == structure_errors(
                    self.requirements@,
                    capabilities@,
                    journeys@,
                ),
            },
    {
        let mut errors: Vec<RequirementValidationError> = match self.validate_emitted_statements() {
            Ok(()) => Vec::new(),
            Err(e) => e,
        };
        let ghost reqs = self.requirements@;
        let ghost stmt = emitted_statement_errors(reqs);
        assert(errors_view(errors@) == stmt);
        let ghost g = |c: DeclaredCapability| missing_system_error(reqs, c);
        let mut i: usize = 0;
        while i < capabilities.len()
            invariant
                i <= capabilities@.len(),
                reqs == self.requirements@,
                g == (|c: DeclaredCapability| missing_system_error(reqs, c)),
                errors_view(errors@) == stmt + capabilities@.take(i as int).filter_map(g),
            decreases capabilities@.len() - i,
        {
            let capability = &capabilities[i];
            let expected = system_requirement_id(capability.domain.as_str(), capability.aggregate.as_str(), capability.id.as_str());
            let mut found = false;
            let mut k: usize = 0;
            while k < self.requirements.len()
                invariant
                    k <= self.requirements@.len(),
                    reqs == self.requirements@,
                    expected.0@ == system_id_of(*capability),
                    found == exists|j: int|
                        0 <= j < k && reqs[j].kind == RequirementClass::System && #[trigger] reqs[j].id.0@ == expected.0@,
                decreases self.requirements@.len() - k,
            {
                let req = &self.requirements[k];
                if req.kind == RequirementClass::System && str_eq(req.id.0.as_str(), expected.0.as_str()) {
                    found = true;
                }
                k += 1;
            }
            proof {
                capabilities@.lemma_filter_map_take_succ(g, i as int);
            }
            let ghost before = errors_view(errors@);
            if !found {
                errors.push(RequirementValidationError::MissingSystemRequirement { feature: capability.id.clone() });
            }
            assert(errors_view(errors@) =~= before + match g(*capability) {
                Some(e) => seq![e],
                None => Seq::empty(),
            });
            i += 1;
        }
        assert(capabilities@.take(capabilities@.len() as int) =~= capabilities@);
        let ghost mid = errors_view(errors@);
        let mut i: usize = 0;
        assert(all_requirement_errors(journeys@, reqs.take(0)) =~= Seq::<ValidationErrorView>::empty());
        assert(mid + Seq::<ValidationErrorView>::empty() =~= mid);
        while i < self.requirements.len()
            invariant
                i <= self.requirements@.len(),
                reqs == self.requirements@,
                verifiers_known(reqs, journeys@),
                errors_view(errors@) == mid + all_requirement_errors(journeys@, reqs.take(i as int)),
            decreases self.requirements@.len() - i,
        {
            let requirement = &self.requirements[i];
            proof {
                assert(reqs.take(i + 1).drop_last() =~= reqs.take(i as int));
                assert(reqs.take(i + 1).last() == *requirement);
                if requirement.kind == RequirementClass::Functional {
                    assert forall|j: int| 0 <= j < requirement.requirement_verifications@.len() implies knows_journey(
                        journeys@,
                        #[trigger] requirement.requirement_verifications@[j]@,
                    ) by {
                        assert(reqs[i as int].requirement_verifications@[j]@ == requirement.requirement_verifications@[j]@);
                    }
                }
            }
            let ghost before = errors_view(errors@);
            push_requirement_errors(&mut errors, requirement, journeys);
            assert(errors_view(errors@) =~= mid + all_requirement_errors(journeys@, reqs.take(i + 1)));
            i += 1;
        }
        assert(reqs.take(reqs.len() as int) =~= reqs);
        if errors.len() == 0 {
            Ok(())
        } else {
            Err(errors)
        }
    }
}

/// How many requirements have class `kind`.
pub open spec fn count_kind(reqs: Seq<Requirement>, kind: RequirementClass) -> nat
    decreases reqs.len(),
{
    if reqs.len() == 0 {
        0
    } else {
        count_kind(reqs.drop_last(), kind) + (if reqs.last().kind == kind { 1nat } else { 0nat })
    }
}

/// The number of requirements of each class.
#[derive(Clone, Copy, Debug, PartialEq, Eq, Structural)]
pub struct KindCounts {
    pub system: usize,
    pub functional: usize,
    pub interface: usize,
    pub performance: usize,
    pub robustness: usize,
}

impl KindCounts {
    /// The count of one class.
    pub fn get(&self, kind: RequirementClass) -> (count: usize)
        ensures
            count == self.of(kind),
    {
        match kind {
            RequirementClass::System => self.system,
            RequirementClass::Functional => self.functional,
            RequirementClass::Interface => self.interface,
            RequirementClass::Performance => self.performance,
            RequirementClass::Robustness => self.robustness,
        }
    }

    /// The count of one class.
    pub open spec fn of(self, kind: RequirementClass) -> usize {
        match kind {
            RequirementClass::System => self.system,
            RequirementClass::Functional => self.functional,
            RequirementClass::Interface => self.interface,
            RequirementClass::Performance => self.performance,
            RequirementClass::Robustness => self.robustness,
        }
    }
}

impl RequirementCatalog {
    /// The number of requirements of each class.
    pub fn count_by_kind(&self) -> (counts: KindCounts)
        ensures
            forall|kind: RequirementClass| #[trigger] counts.of(kind) == count_kind(self.requirements@, kind),
            counts.system + counts.functional + counts.interface + counts.performance + counts.robustness
                == self.requirements@.len(),
    {
        let ghost reqs = self.requirements@;
        let mut counts = KindCounts { system: 0, functional: 0, interface: 0, performance: 0, robustness: 0 };
        let mut k: usize = 0;
        assert(reqs.take(0) =~= Seq::<Requirement>::empty());
        while k < self.requirements.len()
            invariant
                k <= reqs.len(),
                reqs == self.requirements@,
                counts.system == count_kind(reqs.take(k as int), RequirementClass::System),
                counts.functional == count_kind(reqs.take(k as int), RequirementClass::Functional),
                counts.interface == count_kind(reqs.take(k as int), RequirementClass::Interface),
                counts.performance == count_kind(reqs.take(k as int), RequirementClass::Performance),
                counts.robustness == count_kind(reqs.take(k as int), RequirementClass::Robustness),
                counts.system + counts.functional + counts.interface + counts.performance + counts.robustness == k,
            decreases reqs.len() - k,
        {
            proof {
                assert(reqs.take(k + 1).drop_last() =~= reqs.take(k as int));
                assert(reqs.take(k + 1).last() == reqs[k as int]);
            }
            match self.requirements[k].kind {
                RequirementClass::System => counts.system = counts.system + 1,
                RequirementClass::Functional => counts.functional = counts.functional + 1,
                RequirementClass::Interface => counts.interface = counts.interface + 1,
                RequirementClass::Performance => counts.performance = counts.performance + 1,
                RequirementClass::Robustness => counts.robustness = counts.robustness + 1,
            }
            k += 1;
        }
        assert(reqs.take(reqs.len() as int) =~= reqs);
        assert forall|kind: RequirementClass| #[trigger] counts.of(kind) == count_kind(self.requirements@, kind) by {
            match kind {
                RequirementClass::System => {},
                RequirementClass::Functional => {},
                RequirementClass::Interface => {},
                RequirementClass::Performance => {},
                RequirementClass::Robustness => {},
            }
        }
        counts
    }
}

} // verus!
