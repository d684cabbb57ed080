use vstd::prelude::*;

use crate::catalog::assemble::{children_of, is_overlay_requirement};
use crate::catalog::assumption::same_but_assumptions;
use crate::catalog::derive::requirement_id_text;
use crate::catalog::overlay::SystemOverlayEntry;
use crate::catalog::requirement::{ids_view, Requirement, RequirementClass};
use crate::text::{contains_seq, occurs_at};

verus! {

/// A requirement's feature, as text.
pub open spec fn feature_view(f: Option<String>) -> Option<Seq<char>> {
    match f {
        Some(s) => Some(s@),
        None => None,
    }
}

/// The ids, in order, of the functional requirements whose feature is `feature`.
pub open spec fn functional_ids_of(reqs: Seq<Requirement>, feature: Option<Seq<char>>) -> Seq<Seq<char>>
    decreases reqs.len(),
{
    if reqs.len() == 0 {
        seq![]
    } else {
        let rest = functional_ids_of(reqs.drop_last(), feature);
        let x = reqs.last();
        if x.kind == RequirementClass::Functional && feature_view(x.feature_id) == feature {
            rest.push(x.id.0@)
        } else {
            rest
        }
    }
}

/// The id is that of an overlay system requirement: it holds "/SYS-OVR/".
pub open spec fn is_overlay_id(id: Seq<char>) -> bool {
    contains_seq(id, "/SYS-OVR/"@)
}

/// Requirement `k` is a derived (not overlay) system requirement.
pub open spec fn is_derived_system(reqs: Seq<Requirement>, k: int) -> bool {
    reqs[k].kind == RequirementClass::System && !is_overlay_id(reqs[k].id.0@)
}

/// Each derived system requirement links, in order, to the functional requirements of its
/// feature, and one without children has neither statement nor criteria.
pub open spec fn systems_linked(reqs: Seq<Requirement>) -> bool {
    forall|k: int|
        0 <= k < reqs.len() && #[trigger] is_derived_system(reqs, k) ==> {
            &&& ids_view(reqs[k].subrequirements@) == functional_ids_of(reqs, feature_view(reqs[k].feature_id))
            &&& reqs[k].subrequirements@.len() == 0 ==> (reqs[k].statement@ is Unknown && reqs[k].criteria@ is Unknown)
        }
}

/// Every requirement is functional.
pub open spec fn all_functional(reqs: Seq<Requirement>) -> bool {
    forall|f: int| 0 <= f < reqs.len() ==> (#[trigger] reqs[f]).kind == RequirementClass::Functional
}

/// No requirement is functional.
pub open spec fn none_functional(reqs: Seq<Requirement>) -> bool {
    forall|f: int| 0 <= f < reqs.len() ==> (#[trigger] reqs[f]).kind != RequirementClass::Functional
}

pub proof fn lemma_functional_ids_concat(a: Seq<Requirement>, b: Seq<Requirement>, feature: Option<Seq<char>>)
    ensures
        functional_ids_of(a + b, feature) == functional_ids_of(a, feature) + functional_ids_of(b, feature),
    decreases b.len(),
{
    if b.len() == 0 {
        assert(a + b =~= a);
    } else {
        lemma_functional_ids_concat(a, b.drop_last(), feature);
        assert((a + b).drop_last() =~= a + b.drop_last());
        assert((a + b).last() == b.last());
    }
}

pub proof fn lemma_functional_ids_none(a: Seq<Requirement>, feature: Option<Seq<char>>)
    requires
        none_functional(a),
    ensures
        functional_ids_of(a, feature) == Seq::<Seq<char>>::empty(),
    decreases a.len(),
{
    if a.len() > 0 {
        lemma_functional_ids_none(a.drop_last(), feature);
    }
}

/// Over functional requirements only, a capability's children are the functional ids of its feature.
pub proof fn lemma_children_are_functional_ids(functionals: Seq<Requirement>, capability: Seq<char>)
    requires
        all_functional(functionals),
    ensures
        children_of(functionals, capability) == functional_ids_of(functionals, Some(capability)),
    decreases functionals.len(),
{
    if functionals.len() > 0 {
        let rest = functionals.drop_last();
        lemma_children_are_functional_ids(rest, capability);
        assert(functionals.last() == functionals[functionals.len() - 1]);
    }
}

/// Requirements that differ only in their assumptions give the same functional ids.
proof fn lemma_functional_ids_same(a: Seq<Requirement>, b: Seq<Requirement>, feature: Option<Seq<char>>)
    requires
        a.len() == b.len(),
        forall|k: int| 0 <= k < a.len() ==> same_but_assumptions(#[trigger] b[k], a[k]),
    ensures
        functional_ids_of(a, feature) == functional_ids_of(b, feature),
    decreases a.len(),
{
    if a.len() > 0 {
        assert forall|k: int| 0 <= k < a.len() - 1 implies same_but_assumptions(#[trigger] b.drop_last()[k], a.drop_last()[k]) by {
            assert(same_but_assumptions(b[k], a[k]));
        }
        lemma_functional_ids_same(a.drop_last(), b.drop_last(), feature);
        assert(same_but_assumptions(b[a.len() - 1], a[a.len() - 1]));
    }
}

/// Changing only assumptions keeps every derived system requirement linked to its children.
pub proof fn law_assumptions_keep_links(a: Seq<Requirement>, b: Seq<Requirement>)
    requires
        a.len() == b.len(),
        forall|k: int| 0 <= k < a.len() ==> same_but_assumptions(#[trigger] b[k], a[k]),
        systems_linked(a),
    ensures
        systems_linked(b),
{
    assert forall|k: int| 0 <= k < b.len() && #[trigger] is_derived_system(b, k) implies {
        &&& ids_view(b[k].subrequirements@) == functional_ids_of(b, feature_view(b[k].feature_id))
        &&& b[k].subrequirements@.len() == 0 ==> (b[k].statement@ is Unknown && b[k].criteria@ is Unknown)
    } by {
        assert(same_but_assumptions(b[k], a[k]));
        assert(is_derived_system(a, k));
        lemma_functional_ids_same(a, b, feature_view(a[k].feature_id));
    }
}

/// The id of an overlay requirement is an overlay id.
pub proof fn lemma_overlay_requirement_id(d: Seq<char>, a: Seq<char>, suffix: Seq<char>)
    ensures
        is_overlay_id(requirement_id_text(d, a, "SYS-OVR"@, suffix)),
{
    reveal_strlit("REQ/");
    reveal_strlit("/");
    reveal_strlit("SYS-OVR");
    reveal_strlit("/SYS-OVR/");
    let id = requirement_id_text(d, a, "SYS-OVR"@, suffix);
    let i: int = (4 + d.len() + 1 + a.len()) as int;
    assert(id.subrange(i, i + 9) =~= "/SYS-OVR/"@);
    assert(occurs_at(id, "/SYS-OVR/"@, i));
}

/// Appending overlay requirements keeps every derived system requirement linked to its children.
pub proof fn law_overlay_rows_keep_links(
    old_reqs: Seq<Requirement>,
    new_reqs: Seq<Requirement>,
    entries: Seq<SystemOverlayEntry>,
    placements: Seq<(String, String)>,
)
    requires
        systems_linked(old_reqs),
        placements.len() == entries.len(),
        new_reqs.len() == old_reqs.len() + entries.len(),
        new_reqs.take(old_reqs.len() as int) == old_reqs,
        forall|k: int|
            0 <= k < entries.len() ==> is_overlay_requirement(
                #[trigger] new_reqs[old_reqs.len() + k],
                entries[k],
                placements[k].0@,
                placements[k].1@,
            ),
    ensures
        systems_linked(new_reqs),
{
    let tail = new_reqs.subrange(old_reqs.len() as int, new_reqs.len() as int);
    assert(new_reqs =~= old_reqs + tail);
    assert forall|f: int| 0 <= f < tail.len() implies (#[trigger] tail[f]).kind != RequirementClass::Functional by {
        assert(is_overlay_requirement(new_reqs[old_reqs.len() + f], entries[f], placements[f].0@, placements[f].1@));
    }
    assert forall|k: int| 0 <= k < new_reqs.len() && #[trigger] is_derived_system(new_reqs, k) implies {
        &&& ids_view(new_reqs[k].subrequirements@) == functional_ids_of(new_reqs, feature_view(new_reqs[k].feature_id))
        &&& new_reqs[k].subrequirements@.len() == 0 ==> (new_reqs[k].statement@ is Unknown
            && new_reqs[k].criteria@ is Unknown)
    } by {
        if k >= old_reqs.len() {
            let e = k - old_reqs.len();
            assert(is_overlay_requirement(new_reqs[old_reqs.len() + e], entries[e], placements[e].0@, placements[e].1@));
            lemma_overlay_requirement_id(placements[e].0@, placements[e].1@, entries[e].suffix@);
        } else {
            assert(new_reqs[k] == old_reqs[k]);
            assert(is_derived_system(old_reqs, k));
            lemma_functional_ids_concat(old_reqs, tail, feature_view(old_reqs[k].feature_id));
            lemma_functional_ids_none(tail, feature_view(old_reqs[k].feature_id));
            assert(functional_ids_of(old_reqs, feature_view(old_reqs[k].feature_id)) + Seq::<Seq<char>>::empty()
                =~= functional_ids_of(old_reqs, feature_view(old_reqs[k].feature_id)));
        }
    }
}

/// Each id in the functional ids of a feature is the id of a functional requirement with that
/// feature.
pub proof fn lemma_functional_ids_named(reqs: Seq<Requirement>, feature: Option<Seq<char>>, c: int)
    requires
        0 <= c < functional_ids_of(reqs, feature).len(),
    ensures
        exists|f: int|
            0 <= f < reqs.len() && (#[trigger] reqs[f]).id.0@ == functional_ids_of(reqs, feature)[c]
                && reqs[f].kind == RequirementClass::Functional && feature_view(reqs[f].feature_id) == feature,
    decreases reqs.len(),
{
    let rest = functional_ids_of(reqs.drop_last(), feature);
    if c < rest.len() {
        lemma_functional_ids_named(reqs.drop_last(), feature, c);
        let f = choose|f: int|
            0 <= f < reqs.drop_last().len() && (#[trigger] reqs.drop_last()[f]).id.0@ == rest[c]
                && reqs.drop_last()[f].kind == RequirementClass::Functional && feature_view(reqs.drop_last()[f].feature_id)
                == feature;
        assert(reqs[f] == reqs.drop_last()[f]);
    } else {
        assert(reqs[reqs.len() - 1] == reqs.last());
    }
}

/// In a linked catalog, each child a derived system requirement names is a functional
/// requirement of that catalog with the same feature.
pub proof fn law_linked_children_are_requirements(reqs: Seq<Requirement>, k: int, c: int)
    requires
        systems_linked(reqs),
        0 <= k < reqs.len(),
        is_derived_system(reqs, k),
        0 <= c < reqs[k].subrequirements@.len(),
    ensures
        exists|f: int|
            0 <= f < reqs.len() && (#[trigger] reqs[f]).id.0@ == reqs[k].subrequirements@[c].0@
                && reqs[f].kind == RequirementClass::Functional && feature_view(reqs[f].feature_id) == feature_view(
                reqs[k].feature_id,
            ),
{
    let fv = feature_view(reqs[k].feature_id);
    assert(ids_view(reqs[k].subrequirements@)[c] == reqs[k].subrequirements@[c].0@);
    lemma_functional_ids_named(reqs, fv, c);
}

/// Appending requirements that are neither functional nor system keeps every derived system
/// requirement linked to its children.
pub proof fn law_other_rows_keep_links(old_reqs: Seq<Requirement>, tail: Seq<Requirement>)
    requires
        systems_linked(old_reqs),
        forall|f: int|
            0 <= f < tail.len() ==> (#[trigger] tail[f]).kind != RequirementClass::Functional && tail[f].kind
                != RequirementClass::System,
    ensures
        systems_linked(old_reqs + tail),
{
    let all = old_reqs + tail;
    assert forall|k: int| 0 <= k < all.len() && #[trigger] is_derived_system(all, k) implies {
        &&& ids_view(all[k].subrequirements@) == functional_ids_of(all, feature_view(all[k].feature_id))
        &&& all[k].subrequirements@.len() == 0 ==> (all[k].statement@ is Unknown && all[k].criteria@ is Unknown)
    } by {
        if k >= old_reqs.len() {
            assert(all[k] == tail[k - old_reqs.len()]);
        } else {
            assert(all[k] == old_reqs[k]);
            assert(is_derived_system(old_reqs, k));
            let fv = feature_view(old_reqs[k].feature_id);
            lemma_functional_ids_concat(old_reqs, tail, fv);
            lemma_functional_ids_none(tail, fv);
            assert(functional_ids_of(old_reqs, fv) + Seq::<Seq<char>>::empty() =~= functional_ids_of(old_reqs, fv));
        }
    }
}

} // verus!
