use vstd::prelude::*;

use crate::catalog::assemble::{capability_criteria, is_system_for};
use crate::catalog::assumption::{first_by_label, labels_of};
use crate::catalog::attribution::{attributions, candidate_scores, is_last_max, primary_of, summary_fits, tag_key};
use crate::catalog::derive::{requirement_id_text, sanitized_path};
use crate::catalog::extract::{
    drift_findings, lemma_matched_unique, limit_text, matched_at, service_findings, tier_text, unmatched, FactsView,
    ServiceView,
};
use crate::catalog::overlay::{ends_with, is_first_overlay_for, overlay_marker, overlay_suffixes};
use crate::catalog::matrix::{blank_both, initial_backend, initial_ui, Journey, RowView};
use crate::catalog::requirement::{concat_items, criteria_of, system_criteria, CriteriaView, Requirement, RequirementClass};
use crate::catalog::split::{agreement, agreement_matrix, are_components, edge, linked, walk_step, is_walk};
use crate::catalog::structure::{
    all_requirement_errors, missing_system_error, requirement_errors, structure_errors, system_id_of, DeclaredCapability,
    JourneyAutomation,
};
use crate::catalog::requirement::ValidationErrorView;
use crate::catalog::contamination::{
    contamination, http_verbs, is_first_multi_hit, is_first_occurrence, is_likely_port, is_service_id_char,
    is_status_token, multi_token_hit, multi_token_service_ids, route_contamination, single_token_service_ids,
    verb_contamination,
};
use crate::text::{ascii_lowercase, contains_seq, first_run_text, is_run, lemma_first_run_exists, CharClass};

verus! {

/// Items that every partition puts together land in one consensus cluster: their agreement is
/// the number of partitions, which reaches the majority threshold.
pub proof fn law_unanimous_pair_shares_cluster(
    parts: Seq<Seq<Seq<usize>>>,
    n: nat,
    clusters: Seq<Seq<usize>>,
    g1: int,
    k1: int,
    g2: int,
    k2: int,
)
    requires
        are_components(clusters, n, agreement_matrix(parts, n), (parts.len() / 2 + 1) as usize),
        parts.len() > 0,
        parts.len() < usize::MAX,
        0 <= g1 < clusters.len(),
        0 <= k1 < clusters[g1].len(),
        0 <= g2 < clusters.len(),
        0 <= k2 < clusters[g2].len(),
        clusters[g1][k1] < clusters[g2][k2],
        agreement(parts, clusters[g1][k1], clusters[g2][k2]) == parts.len(),
    ensures
        g1 == g2,
{
    let m = agreement_matrix(parts, n);
    let t = (parts.len() / 2 + 1) as usize;
    let a = clusters[g1][k1] as int;
    let b = clusters[g2][k2] as int;
    assert(clusters[g1][k1] < n);
    assert(clusters[g2][k2] < n);
    assert(m[a][b] == agreement(parts, a as usize, b as usize) as usize);
    assert(edge(m, t, a, b));
    let p = seq![a, b];
    assert(walk_step(m, t, p, 0));
    assert(is_walk(m, t, p));
    assert(linked(m, t, a, b));
}

/// A sanitized path, as it stands in a requirement id, holds none of '/', '?', '&' and '='.
pub proof fn law_sanitized_path_has_no_separators(path: Seq<char>)
    ensures
        forall|k: int|
            0 <= k < sanitized_path(path).len() ==> {
                let c = #[trigger] sanitized_path(path)[k];
                c != '/' && c != '?' && c != '&' && c != '='
            },
{
}

/// A journey's backend cell starts planned or skipped, never empty, so no row fresh from the
/// catalog has both cells empty.
pub proof fn law_catalog_row_never_blank_both(journey: Journey, has_ui_plan: bool, ui_skip: Option<Seq<char>>, journey_id: Seq<char>)
    ensures
        !(initial_backend(journey).state is Error),
        !blank_both(
            RowView {
                journey_id,
                present: journey.present_on_1_4_dev,
                route: false,
                frontend: false,
                plan: has_ui_plan,
                page_load: false,
                contradiction: false,
                backend: initial_backend(journey),
                ui: initial_ui(journey, has_ui_plan, ui_skip),
            },
        ),
{
}

/// Every declared capability has its system requirement in a catalog assembled from it, so the
/// structure check reports no missing system requirement.
pub proof fn law_assembled_capabilities_have_systems(
    capabilities: Seq<DeclaredCapability>,
    unreferenced: Seq<String>,
    functionals: Seq<Requirement>,
    requirements: Seq<Requirement>,
)
    requires
        requirements.len() >= capabilities.len(),
        forall|c: int|
            0 <= c < capabilities.len() ==> is_system_for(#[trigger] requirements[c], capabilities[c], unreferenced, functionals),
    ensures
        forall|c: int| 0 <= c < capabilities.len() ==> #[trigger] missing_system_error(requirements, capabilities[c]) is None,
{
    assert forall|c: int| 0 <= c < capabilities.len() implies #[trigger] missing_system_error(requirements, capabilities[c]) is None by {
        assert(requirements[c].id.0@ == system_id_of(capabilities[c]));
        assert(requirements[c].kind == RequirementClass::System);
    }
}

/// An assembled system requirement without functional children has unknown criteria, so the
/// structure check never reports it as a system without functional children.
pub proof fn law_assembled_system_not_childless_error(
    r: Requirement,
    c: DeclaredCapability,
    unreferenced: Seq<String>,
    functionals: Seq<Requirement>,
    journeys: Seq<JourneyAutomation>,
)
    requires
        is_system_for(r, c, unreferenced, functionals),
    ensures
        !requirement_errors(journeys, r).contains(ValidationErrorView::SystemWithoutFunctional { id: r.id.0@ }),
{
    let id = r.id.0@;
    let errs = requirement_errors(journeys, r);
    if r.subrequirements@.len() == 0 {
        assert(capability_criteria(c, unreferenced, functionals) is Unknown);
    }
    assert(r.kind != RequirementClass::Functional);
    let first: Seq<ValidationErrorView> = if r.kind == RequirementClass::System && r.subrequirements@.len() == 0
        && !crate::text::contains_seq(id, "/SYS-OVR/"@) && !(r.criteria@ is Unknown) {
        seq![ValidationErrorView::SystemWithoutFunctional { id }]
    } else {
        seq![]
    };
    assert(first.len() == 0);
    assert forall|k: int| 0 <= k < errs.len() implies errs[k] != (ValidationErrorView::SystemWithoutFunctional { id }) by {}
}

/// A journey's attributed capability is one of its references and fits its summary.
pub proof fn law_attribution_fits(summary: Seq<char>, refs: Seq<Seq<char>>)
    ensures
        attributions(summary, Some(refs)).len() <= 1,
        attributions(summary, Some(refs)).len() == 1 ==> refs.contains(attributions(summary, Some(refs))[0])
            && summary_fits(attributions(summary, Some(refs))[0], ascii_lowercase(summary)),
{
    let a = attributions(summary, Some(refs));
    if refs.len() == 1 {
        if a.len() == 1 {
            assert(refs[0] == a[0]);
        }
    } else if refs.len() > 1 {
        match primary_of(refs, summary) {
            Some(p) => {
                let scores = candidate_scores(refs, ascii_lowercase(summary));
                let k = choose|k: int| is_last_max(scores, k);
                assert(refs[k] == p);
            },
            None => {},
        }
    }
}

/// A version tag sorts the same with or without its leading 'v'.
pub proof fn law_tag_key_ignores_v_prefix(tag: Seq<char>)
    requires
        !(tag.len() > 0 && tag[0] == 'v'),
    ensures
        tag_key(Some(seq!['v'] + tag)) == tag_key(Some(tag)),
{
    assert((seq!['v'] + tag).drop_first() =~= tag);
}

/// The id of an overlay requirement finds its own overlay entry again: it ends with that
/// entry's marker, and with no earlier entry's.
pub proof fn law_overlay_id_finds_its_entry(domain: Seq<char>, aggregate: Seq<char>, k: int)
    requires
        0 <= k < overlay_suffixes().len(),
    ensures
        is_first_overlay_for(requirement_id_text(domain, aggregate, "SYS-OVR"@, overlay_suffixes()[k]), k),
{
    reveal_strlit("REQ/");
    reveal_strlit("/");
    reveal_strlit("SYS-OVR");
    reveal_strlit("/SYS-OVR/");
    reveal_strlit("boot_to_usable_web_ui");
    reveal_strlit("local_network_without_internet");
    reveal_strlit("storage_pressure_visibility");
    reveal_strlit("essential_service_supervision");
    let s = overlay_suffixes()[k];
    let id = requirement_id_text(domain, aggregate, "SYS-OVR"@, s);
    let head = "REQ/"@ + domain + "/"@ + aggregate;
    assert(id =~= head + overlay_marker(s));
    let m = overlay_marker(s);
    assert(id.subrange(id.len() - m.len(), id.len() as int) =~= m);
    assert(ends_with(id, m));
    assert(id.last() == s.last());
    assert forall|j: int| 0 <= j < k implies !ends_with(id, overlay_marker(overlay_suffixes()[j])) by {
        let mj = overlay_marker(overlay_suffixes()[j]);
        if ends_with(id, mj) {
            assert(id.subrange(id.len() - mj.len(), id.len() as int).last() == mj.last());
            assert(mj.last() == overlay_suffixes()[j].last());
            assert(overlay_suffixes()[j].last() != s.last());
        }
    }
}

/// Keeping the first citation of each precondition label loses no label and repeats none:
/// every label cited is carried, by exactly one kept citation.
pub proof fn law_assumption_labels_covered_once(items: Seq<(Seq<char>, crate::catalog::assumption::Precondition, Seq<char>)>)
    ensures
        forall|i: int| 0 <= i < items.len() ==> labels_of(first_by_label(items)).contains(#[trigger] items[i].0),
        forall|a: int, b: int|
            0 <= a < b < first_by_label(items).len() ==> #[trigger] first_by_label(items)[a].0 != #[trigger] first_by_label(
                items,
            )[b].0,
        forall|k: int| 0 <= k < first_by_label(items).len() ==> items.contains(#[trigger] first_by_label(items)[k]),
    decreases items.len(),
{
    if items.len() > 0 {
        let rest = items.drop_last();
        law_assumption_labels_covered_once(rest);
        let d = first_by_label(rest);
        let x = items.last();
        assert(items.drop_last() == rest);
        if labels_of(d).contains(x.0) {
            assert(first_by_label(items) == d);
            assert forall|i: int| 0 <= i < items.len() implies labels_of(first_by_label(items)).contains(#[trigger] items[i].0) by {
                if i < items.len() - 1 {
                    assert(rest[i] == items[i]);
                }
            }
            assert forall|k: int| 0 <= k < d.len() implies items.contains(#[trigger] d[k]) by {
                let j = choose|j: int| 0 <= j < rest.len() && rest[j] == d[k];
                assert(items[j] == rest[j]);
            }
        } else {
            let e = d.push(x);
            assert(first_by_label(items) == e);
            assert(labels_of(e) =~= labels_of(d).push(x.0));
            assert forall|i: int| 0 <= i < items.len() implies labels_of(e).contains(#[trigger] items[i].0) by {
                if i < items.len() - 1 {
                    assert(rest[i] == items[i]);
                    let j = choose|j: int| 0 <= j < labels_of(d).len() && labels_of(d)[j] == rest[i].0;
                    assert(labels_of(e)[j] == items[i].0);
                } else {
                    assert(labels_of(e)[d.len() as int] == x.0);
                }
            }
            assert forall|a: int, b: int| 0 <= a < b < e.len() implies #[trigger] e[a].0 != #[trigger] e[b].0 by {
                if b == d.len() {
                    assert(labels_of(d)[a] == d[a].0);
                }
            }
            assert forall|k: int| 0 <= k < e.len() implies items.contains(#[trigger] e[k]) by {
                if k < d.len() {
                    let j = choose|j: int| 0 <= j < rest.len() && rest[j] == d[k];
                    assert(items[j] == rest[j]);
                } else {
                    assert(items[items.len() - 1] == e[k]);
                }
            }
        }
    }
}

/// A system requirement's criteria are known only when every child's are: then they list the
/// children's items, child by child, and at least one. When some child's criteria are unknown the
/// system's are too, with a reason that names the first such child and repeats its reason.
pub proof fn law_system_criteria_need_every_child(children: Seq<Seq<char>>, reqs: Seq<Requirement>, k: int)
    requires
        0 <= k < children.len(),
        criteria_of(reqs, children[k]) is Unknown,
        forall|j: int| 0 <= j < k ==> criteria_of(reqs, children[j]) is Known,
    ensures
        system_criteria(children, reqs) == (CriteriaView::Unknown {
            reason: "functional child "@ + children[k] + " has unknown criteria: "@ + (criteria_of(reqs, children[k])->reason),
        }),
{
    let c = choose|c: int| crate::catalog::requirement::is_first_unknown_child(children, reqs, c);
    assert(crate::catalog::requirement::is_first_unknown_child(children, reqs, k));
    assert(c == k) by {
        if c < k {
            assert(criteria_of(reqs, children[c]) is Known);
        } else if k < c {
            assert(criteria_of(reqs, children[k]) is Known);
        }
    }
}

/// Known system criteria come only from children whose criteria are all known, and are never
/// empty.
pub proof fn law_known_system_criteria(children: Seq<Seq<char>>, reqs: Seq<Requirement>)
    requires
        system_criteria(children, reqs) is Known,
    ensures
        forall|k: int| 0 <= k < children.len() ==> criteria_of(reqs, #[trigger] children[k]) is Known,
        system_criteria(children, reqs)->items.len() > 0,
{
    if exists|k: int| 0 <= k < children.len() && criteria_of(reqs, #[trigger] children[k]) is Unknown {
        let k0 = choose|k: int| 0 <= k < children.len() && criteria_of(reqs, #[trigger] children[k]) is Unknown;
        lemma_first_unknown_exists(children, reqs, k0);
    }
    let items = system_criteria(children, reqs)->items;
    assert(!exists|c: int| crate::catalog::requirement::is_first_unknown_child(children, reqs, c));
    assert(items == concat_items(children, reqs));
}

proof fn lemma_first_unknown_exists(children: Seq<Seq<char>>, reqs: Seq<Requirement>, k: int)
    requires
        0 <= k < children.len(),
        criteria_of(reqs, children[k]) is Unknown,
    ensures
        exists|c: int| crate::catalog::requirement::is_first_unknown_child(children, reqs, c),
    decreases k,
{
    if forall|j: int| 0 <= j < k ==> criteria_of(reqs, #[trigger] children[j]) is Known {
        assert(crate::catalog::requirement::is_first_unknown_child(children, reqs, k));
    } else {
        let j = choose|j: int| 0 <= j < k && !(criteria_of(reqs, #[trigger] children[j]) is Known);
        lemma_first_unknown_exists(children, reqs, j);
    }
}

proof fn lemma_requirement_errors_in_all(journeys: Seq<JourneyAutomation>, reqs: Seq<Requirement>, k: int, e: ValidationErrorView)
    requires
        0 <= k < reqs.len(),
        requirement_errors(journeys, reqs[k]).contains(e),
    ensures
        all_requirement_errors(journeys, reqs).contains(e),
    decreases reqs.len(),
{
    let rest = reqs.drop_last();
    let here = requirement_errors(journeys, reqs.last());
    if k < reqs.len() - 1 {
        assert(rest[k] == reqs[k]);
        lemma_requirement_errors_in_all(journeys, rest, k, e);
        let j = choose|j: int| 0 <= j < all_requirement_errors(journeys, rest).len() && all_requirement_errors(journeys, rest)[j] == e;
        assert((all_requirement_errors(journeys, rest) + here)[j] == e);
    } else {
        let j = choose|j: int| 0 <= j < here.len() && here[j] == e;
        let n = all_requirement_errors(journeys, rest).len();
        assert((all_requirement_errors(journeys, rest) + here)[n + j] == e);
    }
}

/// The structure check flags each requirement by what it lacks: a functional requirement with
/// known but empty criteria, or with no verifying journey, is a functional requirement without
/// criterion; an overlay requirement (id holding "/SYS-OVR/") with known but empty criteria is an
/// overlay without criterion; any other system requirement with no functional child and known
/// criteria is a system without functional children.
pub proof fn law_structure_flags_requirement(
    reqs: Seq<Requirement>,
    capabilities: Seq<DeclaredCapability>,
    journeys: Seq<JourneyAutomation>,
    k: int,
)
    requires
        0 <= k < reqs.len(),
    ensures
        reqs[k].kind == RequirementClass::Functional && (reqs[k].criteria@ matches CriteriaView::Known { items }
            && items.len() == 0) ==> structure_errors(reqs, capabilities, journeys).contains(
            ValidationErrorView::FunctionalWithoutCriterion { id: reqs[k].id.0@ },
        ),
        reqs[k].kind == RequirementClass::Functional && reqs[k].requirement_verifications@.len() == 0
            ==> structure_errors(reqs, capabilities, journeys).contains(
            ValidationErrorView::FunctionalWithoutCriterion { id: reqs[k].id.0@ },
        ),
        crate::text::contains_seq(reqs[k].id.0@, "/SYS-OVR/"@) && (reqs[k].criteria@ matches CriteriaView::Known { items }
            && items.len() == 0) ==> structure_errors(reqs, capabilities, journeys).contains(
            ValidationErrorView::SystemOverlayWithoutCriterion { id: reqs[k].id.0@ },
        ),
        reqs[k].kind == RequirementClass::System && reqs[k].subrequirements@.len() == 0
            && !crate::text::contains_seq(reqs[k].id.0@, "/SYS-OVR/"@) && reqs[k].criteria@ is Known
            ==> structure_errors(reqs, capabilities, journeys).contains(
            ValidationErrorView::SystemWithoutFunctional { id: reqs[k].id.0@ },
        ),
{
    let r = reqs[k];
    let id = r.id.0@;
    let errs = requirement_errors(journeys, r);
    let a = crate::catalog::requirement::emitted_statement_errors(reqs) + capabilities.filter_map(
        |c: DeclaredCapability| missing_system_error(reqs, c),
    );
    let all = all_requirement_errors(journeys, reqs);
    assert(structure_errors(reqs, capabilities, journeys) == a + all);
    assert forall|e: ValidationErrorView| #[trigger] errs.contains(e) implies structure_errors(reqs, capabilities, journeys).contains(e) by {
        lemma_requirement_errors_in_all(journeys, reqs, k, e);
        let j = choose|j: int| 0 <= j < all.len() && all[j] == e;
        assert((a + all)[a.len() + j] == e);
    }
    let functional = r.kind == RequirementClass::Functional;
    let overlay = crate::text::contains_seq(id, "/SYS-OVR/"@);
    let m1 = crate::catalog::structure::maybe(
        r.kind == RequirementClass::System && r.subrequirements@.len() == 0 && !overlay && !(r.criteria@ is Unknown),
        ValidationErrorView::SystemWithoutFunctional { id },
    );
    let m2 = crate::catalog::structure::maybe(
        functional && crate::catalog::structure::known_and_empty(r.criteria@),
        ValidationErrorView::FunctionalWithoutCriterion { id },
    );
    let m3 = crate::catalog::structure::maybe(
        overlay && crate::catalog::structure::known_and_empty(r.criteria@),
        ValidationErrorView::SystemOverlayWithoutCriterion { id },
    );
    let m4 = crate::catalog::structure::maybe(
        functional && r.requirement_verifications@.len() == 0,
        ValidationErrorView::FunctionalWithoutCriterion { id },
    );
    let rest = if functional {
        r.requirement_verifications@.map_values(|j: String| j@).filter_map(
            |j: Seq<char>| crate::catalog::structure::verification_error(journeys, r, j),
        )
    } else {
        seq![]
    };
    assert(errs == m1 + m2 + m3 + m4 + rest);
    if m1.len() > 0 {
        assert(errs[0] == m1[0]);
        assert(errs.contains(m1[0]));
    }
    if m2.len() > 0 {
        assert(errs[m1.len() as int] == m2[0]);
        assert(errs.contains(m2[0]));
    }
    if m3.len() > 0 {
        assert(errs[(m1.len() + m2.len()) as int] == m3[0]);
        assert(errs.contains(m3[0]));
    }
    if m4.len() > 0 {
        assert(errs[(m1.len() + m2.len() + m3.len()) as int] == m4[0]);
        assert(errs.contains(m4[0]));
    }
}

proof fn lemma_missing_in_filter(reqs: Seq<Requirement>, caps: Seq<DeclaredCapability>, c: int)
    requires
        0 <= c < caps.len(),
        missing_system_error(reqs, caps[c]) is Some,
    ensures
        caps.filter_map(|d: DeclaredCapability| missing_system_error(reqs, d)).contains(
            missing_system_error(reqs, caps[c])->0,
        ),
    decreases caps.len(),
{
    let f = |d: DeclaredCapability| missing_system_error(reqs, d);
    let rest = caps.drop_last();
    let e = missing_system_error(reqs, caps[c])->0;
    if c < caps.len() - 1 {
        assert(rest[c] == caps[c]);
        lemma_missing_in_filter(reqs, rest, c);
        let j = choose|j: int| 0 <= j < rest.filter_map(f).len() && rest.filter_map(f)[j] == e;
        assert(caps.filter_map(f) == rest.filter_map(f) + match f(caps.last()) {
            Some(x) => seq![x],
            None => Seq::<ValidationErrorView>::empty(),
        });
        assert(caps.filter_map(f)[j] == e);
    } else {
        assert(caps.last() == caps[c]);
        assert(caps.filter_map(f) == rest.filter_map(f) + seq![e]);
        assert(caps.filter_map(f)[rest.filter_map(f).len() as int] == e);
    }
}

/// A declared capability without a system requirement of its id is reported as missing one.
pub proof fn law_structure_flags_missing_system(
    reqs: Seq<Requirement>,
    capabilities: Seq<DeclaredCapability>,
    journeys: Seq<JourneyAutomation>,
    c: int,
)
    requires
        0 <= c < capabilities.len(),
        forall|k: int|
            0 <= k < reqs.len() ==> !(reqs[k].kind == RequirementClass::System && #[trigger] reqs[k].id.0@ == system_id_of(
                capabilities[c],
            )),
    ensures
        structure_errors(reqs, capabilities, journeys).contains(
            ValidationErrorView::MissingSystemRequirement { feature: capabilities[c].id@ },
        ),
{
    let f = |d: DeclaredCapability| missing_system_error(reqs, d);
    lemma_missing_in_filter(reqs, capabilities, c);
    let a = crate::catalog::requirement::emitted_statement_errors(reqs);
    let b = capabilities.filter_map(f);
    let e = ValidationErrorView::MissingSystemRequirement { feature: capabilities[c].id@ };
    let j = choose|j: int| 0 <= j < b.len() && b[j] == e;
    assert(structure_errors(reqs, capabilities, journeys) == a + b + all_requirement_errors(journeys, reqs));
    assert(structure_errors(reqs, capabilities, journeys)[a.len() + j] == e);
}

proof fn lemma_first_multi_hit_exists(lower: Seq<char>, k: int)
    requires
        0 <= k < multi_token_service_ids().len(),
        multi_token_hit(lower, multi_token_service_ids()[k]),
    ensures
        exists|c: int| c <= k && #[trigger] is_first_multi_hit(lower, c),
    decreases k,
{
    if forall|j: int| 0 <= j < k ==> !multi_token_hit(lower, #[trigger] multi_token_service_ids()[j]) {
        assert(is_first_multi_hit(lower, k));
    } else {
        let j = choose|j: int| 0 <= j < k && multi_token_hit(lower, #[trigger] multi_token_service_ids()[j]);
        lemma_first_multi_hit_exists(lower, j);
    }
}

/// A statement whose lower-cased text holds a multi-token service id (such as "cable_guy") at its
/// first occurrence as a whole word (no letter, digit, '_' or '-' on either side) is contaminated.
/// When neither an HTTP verb nor a route path betrays it first, the piece reported is a
/// multi-token service id, no later in the list than that one, that occurs in the lower-cased text.
pub proof fn law_multi_token_service_id_contaminates(text: Seq<char>, k: int, p: int)
    requires
        0 <= k < multi_token_service_ids().len(),
        is_first_occurrence(ascii_lowercase(text), multi_token_service_ids()[k], p),
        p == 0 || !is_service_id_char(ascii_lowercase(text)[p - 1]),
        p + multi_token_service_ids()[k].len() == ascii_lowercase(text).len() || !is_service_id_char(
            ascii_lowercase(text)[p + multi_token_service_ids()[k].len()],
        ),
    ensures
        contamination(text) is Some,
        verb_contamination(text) is None && route_contamination(text) is None ==> exists|c: int|
            0 <= c <= k && contamination(text) == Some(multi_token_service_ids()[c]) && contains_seq(
                ascii_lowercase(text),
                #[trigger] multi_token_service_ids()[c],
            ),
{
    let lower = ascii_lowercase(text);
    let id = multi_token_service_ids()[k];
    assert(multi_token_hit(lower, id));
    lemma_first_multi_hit_exists(lower, k);
    let c = choose|c: int| is_first_multi_hit(lower, c);
    let c0 = choose|c: int| c <= k && #[trigger] is_first_multi_hit(lower, c);
    assert(c == c0) by {
        if c < c0 {
            assert(multi_token_hit(lower, multi_token_service_ids()[c]));
        } else if c0 < c {
            assert(multi_token_hit(lower, multi_token_service_ids()[c0]));
        }
    }
    let q = choose|q: int| #[trigger] is_first_occurrence(lower, multi_token_service_ids()[c], q)
        && (q == 0 || !is_service_id_char(lower[q - 1])) && (q + multi_token_service_ids()[c].len() == lower.len()
        || !is_service_id_char(lower[q + multi_token_service_ids()[c].len()]));
    assert(crate::text::occurs_at(lower, multi_token_service_ids()[c], q));
}

/// A word of ASCII letters that is an HTTP verb makes a statement contaminated.
pub proof fn law_http_verb_contaminates(text: Seq<char>, i: int, j: int)
    requires
        is_run(text, CharClass::Alpha, i, j),
        http_verbs().contains(text.subrange(i, j)),
    ensures
        contamination(text) is Some,
{
    lemma_first_run_exists(text, CharClass::Alpha, |t: Seq<char>| crate::catalog::contamination::is_http_verb(t), i, j);
}

/// A word of the lower-cased statement (letters and digits) that is a single-token service id
/// (such as "kraken") makes the statement contaminated.
pub proof fn law_single_token_service_id_contaminates(text: Seq<char>, i: int, j: int)
    requires
        is_run(ascii_lowercase(text), CharClass::Alnum, i, j),
        single_token_service_ids().contains(ascii_lowercase(text).subrange(i, j)),
    ensures
        contamination(text) is Some,
{
    lemma_first_run_exists(
        ascii_lowercase(text),
        CharClass::Alnum,
        |t: Seq<char>| crate::catalog::contamination::is_single_token_id(t),
        i,
        j,
    );
    if crate::catalog::contamination::multi_token_contamination(text) is None {
        assert(crate::catalog::contamination::single_token_contamination(text) is Some);
    }
}

/// A run of digits that looks like a port (4 or 5 digits in 1024..=65535, not a year 1900..=2100)
/// or that is an HTTP error status makes a statement contaminated.
pub proof fn law_port_or_status_contaminates(text: Seq<char>, i: int, j: int)
    requires
        is_run(text, CharClass::Digit, i, j),
        is_likely_port(text.subrange(i, j)) || is_status_token(text.subrange(i, j)),
    ensures
        contamination(text) is Some,
{
    if is_likely_port(text.subrange(i, j)) {
        lemma_first_run_exists(text, CharClass::Digit, |t: Seq<char>| is_likely_port(t), i, j);
        assert(crate::catalog::contamination::digit_pred(crate::catalog::contamination::DigitCheck::Port)
            =~= |t: Seq<char>| is_likely_port(t));
    } else {
        lemma_first_run_exists(text, CharClass::Digit, |t: Seq<char>| is_status_token(t), i, j);
        assert(crate::catalog::contamination::digit_pred(crate::catalog::contamination::DigitCheck::Status)
            =~= |t: Seq<char>| is_status_token(t));
    }
}

proof fn lemma_service_findings_in_drift(s: Seq<ServiceView>, facts: Seq<FactsView>, i: int, k: int, e: (Seq<char>, Seq<char>))
    requires
        0 <= i < facts.len(),
        matched_at(s, facts[i], k),
        service_findings(s[k], facts[i]).contains(e),
    ensures
        drift_findings(s, facts).contains(e),
    decreases facts.len(),
{
    let rest = facts.drop_last();
    let f = facts.last();
    let head = drift_findings(s, rest);
    if i < facts.len() - 1 {
        assert(rest[i] == facts[i]);
        lemma_service_findings_in_drift(s, rest, i, k, e);
        let j = choose|j: int| 0 <= j < head.len() && head[j] == e;
        let here = if unmatched(s, f) {
            seq![]
        } else {
            service_findings(s[choose|c: int| matched_at(s, f, c)], f)
        };
        assert(drift_findings(s, facts) == head + here);
        assert(drift_findings(s, facts)[j] == e);
    } else {
        assert(f == facts[i]);
        assert(!unmatched(s, f)) by {
            assert(matched_at(s, f, k));
            assert(crate::catalog::extract::dir_is(f.id)(s[k]) || crate::catalog::extract::tmux_is(f.id)(s[k])
                || (f.tmux_name matches Some(t) && crate::catalog::extract::tmux_is(t)(s[k])));
        }
        let c = choose|c: int| matched_at(s, f, c);
        lemma_matched_unique(s, f, c, k);
        let here = service_findings(s[k], f);
        assert(drift_findings(s, facts) == head + here);
        let j = choose|j: int| 0 <= j < here.len() && here[j] == e;
        assert(drift_findings(s, facts)[head.len() + j] == e);
    }
}

/// For an observation that matches an extracted service, every known observed value that
/// disagrees with the extracted one is reported, as `<id>.<field>` with the observed and the
/// extracted value: the startup tier, the memory limit and the CPU limit.
pub proof fn law_drift_reports_each_disagreement(s: Seq<ServiceView>, facts: Seq<FactsView>, i: int, k: int)
    requires
        0 <= i < facts.len(),
        matched_at(s, facts[i], k),
    ensures
        facts[i].startup_tier matches Some(t) && t != s[k].startup_tier ==> drift_findings(s, facts).contains(
            (
                facts[i].id + ".startup_tier"@,
                "observed "@ + tier_text(facts[i].startup_tier->0) + ", extracted "@ + tier_text(s[k].startup_tier),
            ),
        ),
        facts[i].resource_limits matches Some(l) && l.memory_mb != s[k].memory_mb ==> drift_findings(s, facts).contains(
            (
                facts[i].id + ".memory_mb"@,
                "observed "@ + limit_text(facts[i].resource_limits->0.memory_mb) + ", extracted "@ + limit_text(
                    s[k].memory_mb,
                ),
            ),
        ),
        facts[i].resource_limits matches Some(l) && l.cpu_percent != s[k].cpu_percent ==> drift_findings(
            s,
            facts,
        ).contains(
            (
                facts[i].id + ".cpu_percent"@,
                "observed "@ + limit_text(facts[i].resource_limits->0.cpu_percent) + ", extracted "@ + limit_text(
                    s[k].cpu_percent,
                ),
            ),
        ),
{
    let f = facts[i];
    let sv = s[k];
    let sf = service_findings(sv, f);
    reveal_strlit(".");
    reveal_strlit("startup_tier");
    reveal_strlit(".startup_tier");
    reveal_strlit("memory_mb");
    reveal_strlit(".memory_mb");
    reveal_strlit("cpu_percent");
    reveal_strlit(".cpu_percent");
    assert(f.id + "."@ + "startup_tier"@ =~= f.id + ".startup_tier"@);
    assert(f.id + "."@ + "memory_mb"@ =~= f.id + ".memory_mb"@);
    assert(f.id + "."@ + "cpu_percent"@ =~= f.id + ".cpu_percent"@);
    let tier: Seq<(Seq<char>, Seq<char>)> = match f.startup_tier {
        Some(v) => if v != sv.startup_tier {
            seq![crate::catalog::extract::finding(f.id, "startup_tier"@, tier_text(v), tier_text(sv.startup_tier))]
        } else {
            seq![]
        },
        None => seq![],
    };
    if f.startup_tier matches Some(t) && t != sv.startup_tier {
        assert(sf[0] == tier[0]);
        assert(sf.contains(sf[0]));
        lemma_service_findings_in_drift(s, facts, i, k, sf[0]);
    }
    if let Some(l) = f.resource_limits {
        let mem: Seq<(Seq<char>, Seq<char>)> = if l.memory_mb != sv.memory_mb {
            seq![crate::catalog::extract::finding(f.id, "memory_mb"@, limit_text(l.memory_mb), limit_text(sv.memory_mb))]
        } else {
            seq![]
        };
        let cpu: Seq<(Seq<char>, Seq<char>)> = if l.cpu_percent != sv.cpu_percent {
            seq![crate::catalog::extract::finding(f.id, "cpu_percent"@, limit_text(l.cpu_percent), limit_text(sv.cpu_percent))]
        } else {
            seq![]
        };
        assert(sf == tier + (mem + cpu));
        if l.memory_mb != sv.memory_mb {
            assert(sf[tier.len() as int] == mem[0]);
            assert(sf.contains(sf[tier.len() as int]));
            lemma_service_findings_in_drift(s, facts, i, k, sf[tier.len() as int]);
        }
        if l.cpu_percent != sv.cpu_percent {
            assert(sf[(tier.len() + mem.len()) as int] == cpu[0]);
            assert(sf.contains(sf[(tier.len() + mem.len()) as int]));
            lemma_service_findings_in_drift(s, facts, i, k, sf[(tier.len() + mem.len()) as int]);
        }
    }
}

} // verus!
