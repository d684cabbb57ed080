use vstd::prelude::*;

use crate::catalog::attribution::{availability_first_tag_key, tag_key};
use crate::catalog::matrix::{text_at_least, text_le};

verus! {

/// Where a journey's behaviour is present: the commit that introduced it, the release tags that
/// carry it (earliest first), and whether the master and 1.4-dev branches do.
pub struct Availability {
    pub intro_commit: String,
    pub present_in_tags: Vec<String>,
    pub present_on_master: bool,
    pub present_on_1_4_dev: bool,
}

/// The first tag an availability lists.
pub open spec fn first_tag_of(a: Availability) -> Option<Seq<char>> {
    if a.present_in_tags@.len() > 0 {
        Some(a.present_in_tags@[0]@)
    } else {
        None
    }
}

/// The tag key and introducing commit by which availabilities are ordered.
pub open spec fn order_key(a: Availability) -> ((u32, u32, u32, u32), Seq<char>) {
    (tag_key(first_tag_of(a)), a.intro_commit@)
}

/// Tuples of four numbers, compared field by field.
pub open spec fn key_lt(a: (u32, u32, u32, u32), b: (u32, u32, u32, u32)) -> bool {
    a.0 < b.0 || (a.0 == b.0 && (a.1 < b.1 || (a.1 == b.1 && (a.2 < b.2 || (a.2 == b.2 && a.3 < b.3)))))
}

/// `a` comes strictly before `b`: by tag key, then by introducing commit.
pub open spec fn comes_before(a: Availability, b: Availability) -> bool {
    let (ka, ca) = order_key(a);
    let (kb, cb) = order_key(b);
    key_lt(ka, kb) || (ka == kb && text_le(ca, cb) && ca != cb)
}

/// Journey `a` is the anchor: the first of those that nothing comes strictly before.
pub open spec fn is_anchor(journeys: Seq<Availability>, a: int) -> bool {
    &&& 0 <= a < journeys.len()
    &&& forall|j: int| 0 <= j < journeys.len() ==> !comes_before(#[trigger] journeys[j], journeys[a])
    &&& forall|j: int| 0 <= j < a ==> comes_before(journeys[a], #[trigger] journeys[j])
}

/// The anchor of a run of journeys.
pub open spec fn anchor_of(journeys: Seq<Availability>) -> int {
    choose|a: int| is_anchor(journeys, a)
}

/// Some journey is present on master.
pub open spec fn any_on_master(journeys: Seq<Availability>) -> bool {
    exists|j: int| 0 <= j < journeys.len() && (#[trigger] journeys[j]).present_on_master
}

/// Some journey is present on 1.4-dev.
pub open spec fn any_on_1_4_dev(journeys: Seq<Availability>) -> bool {
    exists|j: int| 0 <= j < journeys.len() && (#[trigger] journeys[j]).present_on_1_4_dev
}

/// The tags of an availability, as texts.
pub open spec fn tags_view(a: Availability) -> Seq<Seq<char>> {
    a.present_in_tags@.map_values(|t: String| t@)
}

pub proof fn lemma_text_le_total(a: Seq<char>, b: Seq<char>)
    ensures
        text_le(a, b) || text_le(b, a),
        text_le(a, b) && text_le(b, a) ==> a == b,
    decreases a.len(),
{
    if a.len() > 0 && b.len() > 0 && a[0] == b[0] {
        lemma_text_le_total(a.drop_first(), b.drop_first());
        if text_le(a, b) && text_le(b, a) {
            assert(a =~= seq![a[0]] + a.drop_first());
            assert(b =~= seq![b[0]] + b.drop_first());
        }
    }
}

pub proof fn lemma_text_le_trans(a: Seq<char>, b: Seq<char>, c: Seq<char>)
    requires
        text_le(a, b),
        text_le(b, c),
    ensures
        text_le(a, c),
    decreases a.len(),
{
    if a.len() > 0 && b.len() > 0 && c.len() > 0 && a[0] == b[0] && b[0] == c[0] {
        lemma_text_le_trans(a.drop_first(), b.drop_first(), c.drop_first());
    }
}

/// `comes_before` is a strict order that ranks any two availabilities with different keys.
proof fn lemma_comes_before_order(x: Availability, y: Availability, z: Availability)
    ensures
        !comes_before(x, x),
        comes_before(x, y) && comes_before(y, z) ==> comes_before(x, z),
        !comes_before(x, y) && !comes_before(y, x) ==> order_key(x) == order_key(y),
        comes_before(x, y) ==> !comes_before(y, x),
{
    let (kx, cx) = order_key(x);
    let (ky, cy) = order_key(y);
    let (kz, cz) = order_key(z);
    lemma_text_le_total(cx, cy);
    lemma_text_le_total(cy, cz);
    lemma_text_le_total(cx, cz);
    if text_le(cx, cy) && text_le(cy, cz) {
        lemma_text_le_trans(cx, cy, cz);
    }
}

/// Whether `a` comes strictly before `b`, given their keys.
fn before(ka: (u32, u32, u32, u32), ca: &str, kb: (u32, u32, u32, u32), cb: &str) -> (lt: bool)
    ensures
        lt == (key_lt(ka, kb) || (ka == kb && text_le(ca@, cb@) && ca@ != cb@)),
{
    proof {
        lemma_text_le_total(ca@, cb@);
    }
    if ka.0 != kb.0 {
        ka.0 < kb.0
    } else if ka.1 != kb.1 {
        ka.1 < kb.1
    } else if ka.2 != kb.2 {
        ka.2 < kb.2
    } else if ka.3 != kb.3 {
        ka.3 < kb.3
    } else {
        !text_at_least(ca, cb)
    }
}

/// The tag key of an availability's first tag.
fn key_of(a: &Availability) -> (key: (u32, u32, u32, u32))
    ensures
        key == tag_key(first_tag_of(*a)),
{
    if a.present_in_tags.len() > 0 {
        availability_first_tag_key(Some(a.present_in_tags[0].as_str()))
    } else {
        availability_first_tag_key(None)
    }
}

/// The availabilities at positions `picked` of `pool`, in that order.
pub open spec fn picked_of(pool: Seq<Availability>, picked: Seq<usize>) -> Seq<Availability> {
    picked.map_values(|i: usize| pool[i as int])
}

/// `m` is the merged availability of `journeys`: the anchor's introducing commit and tags,
/// present on a branch when any journey is.
pub open spec fn is_merge_of(m: Availability, journeys: Seq<Availability>) -> bool {
    &&& m.intro_commit@ == journeys[anchor_of(journeys)].intro_commit@
    &&& tags_view(m) == tags_view(journeys[anchor_of(journeys)])
    &&& m.present_on_master == any_on_master(journeys)
    &&& m.present_on_1_4_dev == any_on_1_4_dev(journeys)
}

/// The merged availability of the journeys at positions `picked` of `pool`.
fn merge_picked(pool: &[Availability], picked: &[usize]) -> (merged: Option<Availability>)
    requires
        forall|i: int| 0 <= i < picked@.len() ==> #[trigger] picked@[i] < pool@.len(),
    ensures
        merged is None <==> picked@.len() == 0,
        picked@.len() > 0 ==> is_anchor(picked_of(pool@, picked@), anchor_of(picked_of(pool@, picked@))),
        merged matches Some(m) ==> is_merge_of(m, picked_of(pool@, picked@)),
{
    let ghost js = picked_of(pool@, picked@);
    if picked.len() == 0 {
        return None;
    }
    let mut best: usize = 0;
    let first = &pool[picked[0]];
    let mut best_key = key_of(first);
    let mut on_master = first.present_on_master;
    let mut on_dev = first.present_on_1_4_dev;
    let mut i: usize = 1;
    while i < picked.len()
        invariant
            1 <= i <= picked@.len(),
            js == picked_of(pool@, picked@),
            js.len() == picked@.len(),
            forall|i: int| 0 <= i < picked@.len() ==> #[trigger] picked@[i] < pool@.len(),
            best < i,
            best_key == order_key(js[best as int]).0,
            forall|j: int| 0 <= j < i ==> !comes_before(#[trigger] js[j], js[best as int]),
            forall|j: int| 0 <= j < best ==> comes_before(js[best as int], #[trigger] js[j]),
            on_master == exists|j: int| 0 <= j < i && (#[trigger] js[j]).present_on_master,
            on_dev == exists|j: int| 0 <= j < i && (#[trigger] js[j]).present_on_1_4_dev,
        decreases picked@.len() - i,
    {
        let cur = &pool[picked[i]];
        let b = &pool[picked[best]];
        assert(*cur == js[i as int]);
        assert(*b == js[best as int]);
        let key = key_of(cur);
        let lt = before(key, cur.intro_commit.as_str(), best_key, b.intro_commit.as_str());
        proof {
            assert(lt == comes_before(js[i as int], js[best as int]));
        }
        if lt {
            proof {
                let n = js[i as int];
                let bb = js[best as int];
                assert forall|j: int| 0 <= j < i + 1 implies !comes_before(#[trigger] js[j], n) by {
                    lemma_comes_before_order(js[j], bb, n);
                    lemma_comes_before_order(js[j], n, bb);
                    lemma_comes_before_order(n, js[j], bb);
                }
                assert forall|j: int| 0 <= j < i implies comes_before(n, #[trigger] js[j]) by {
                    lemma_comes_before_order(n, bb, js[j]);
                    lemma_comes_before_order(bb, js[j], n);
                    if j != best && !comes_before(bb, js[j]) {
                        lemma_comes_before_order(js[j], bb, n);
                        assert(order_key(js[j]) == order_key(bb));
                    }
                }
            }
            best = i;
            best_key = key;
        } else {
            proof {
                lemma_comes_before_order(js[i as int], js[i as int], js[i as int]);
            }
        }
        if cur.present_on_master {
            on_master = true;
        }
        if cur.present_on_1_4_dev {
            on_dev = true;
        }
        i += 1;
    }
    proof {
        assert(is_anchor(js, best as int));
        let a = anchor_of(js);
        assert(a == best) by {
            if a < best {
                assert(comes_before(js[best as int], js[a]));
            } else if best < a {
                assert(comes_before(js[a], js[best as int]));
            }
        }
    }
    let anchor = &pool[picked[best]];
    assert(*anchor == js[best as int]);
    let merged = Availability {
        intro_commit: anchor.intro_commit.clone(),
        present_in_tags: anchor.present_in_tags.clone(),
        present_on_master: on_master,
        present_on_1_4_dev: on_dev,
    };
    proof {
        assert(tags_view(merged) =~= tags_view(js[best as int]));
    }
    Some(merged)
}

/// The availability of a group of journeys: none for no journeys; else the introducing commit
/// and tags of the anchor (the first journey with the earliest first tag, ties going to the
/// earlier introducing commit), present on a branch when any journey is.
pub fn merge_journey_availabilities(journeys: &[Availability]) -> (merged: Option<Availability>)
    ensures
        merged is None <==> journeys@.len() == 0,
        journeys@.len() > 0 ==> is_anchor(journeys@, anchor_of(journeys@)),
        merged matches Some(m) ==> is_merge_of(m, journeys@),
{
    let mut picked: Vec<usize> = Vec::new();
    let mut i: usize = 0;
    while i < journeys.len()
        invariant
            i <= journeys@.len(),
            picked@.len() == i,
            forall|k: int| 0 <= k < i ==> #[trigger] picked@[k] == k,
        decreases journeys@.len() - i,
    {
        picked.push(i);
        i += 1;
    }
    assert(picked_of(journeys@, picked@) =~= journeys@);
    merge_picked(journeys, &picked)
}

/// What a journey is linked to, for choosing the journeys whose availability a requirement takes.
pub struct JourneyLinks {
    pub id: String,
    /// The capabilities the journey references; `None` when they are not known.
    pub capability_refs: Option<Vec<String>>,
    /// The services the journey takes part in; `None` when they are not known.
    pub services: Option<Vec<String>>,
}

/// The list holds `text`.
pub open spec fn lists(list: Option<Vec<String>>, text: Seq<char>) -> bool {
    list matches Some(v) && exists|k: int| 0 <= k < v@.len() && (#[trigger] v@[k])@ == text
}

/// The positions, in order, of the journeys whose list (`capability_refs` when `by_capability`,
/// else `services`) holds `name`.
pub open spec fn linked_positions(journeys: Seq<JourneyLinks>, name: Seq<char>, by_capability: bool) -> Seq<usize>
    decreases journeys.len(),
{
    if journeys.len() == 0 {
        seq![]
    } else {
        let rest = linked_positions(journeys.drop_last(), name, by_capability);
        let j = journeys.last();
        if lists(if by_capability { j.capability_refs } else { j.services }, name) {
            rest.push((journeys.len() - 1) as usize)
        } else {
            rest
        }
    }
}

fn list_holds(list: &Option<Vec<String>>, text: &str) -> (found: bool)
    ensures
        found == lists(*list, text@),
{
    match list {
        None => false,
        Some(v) => crate::text::holds_str(v, text),
    }
}

fn linked_positions_of(journeys: &[JourneyLinks], name: &str, by_capability: bool) -> (picked: Vec<usize>)
    ensures
        picked@ == linked_positions(journeys@, name@, by_capability),
        forall|i: int| 0 <= i < picked@.len() ==> #[trigger] picked@[i] < journeys@.len(),
{
    let mut picked: Vec<usize> = Vec::new();
    let mut i: usize = 0;
    while i < journeys.len()
        invariant
            i <= journeys@.len(),
            picked@ == linked_positions(journeys@.take(i as int), name@, by_capability),
            forall|k: int| 0 <= k < picked@.len() ==> #[trigger] picked@[k] < i,
        decreases journeys@.len() - i,
    {
        proof {
            assert(journeys@.take(i + 1).drop_last() =~= journeys@.take(i as int));
            assert(journeys@.take(i + 1).last() == journeys@[i as int]);
        }
        let list = if by_capability { &journeys[i].capability_refs } else { &journeys[i].services };
        if list_holds(list, name) {
            picked.push(i);
        }
        i += 1;
    }
    assert(journeys@.take(journeys@.len() as int) =~= journeys@);
    picked
}

/// The availability of a capability: the merge of the journeys that reference it (`links[k]`
/// describing the journey of `availabilities[k]`); none when no journey does.
pub fn availability_for_capability(links: &[JourneyLinks], availabilities: &[Availability], capability: &str) -> (merged: Option<Availability>)
    requires
        links@.len() == availabilities@.len(),
    ensures
        merged is None <==> linked_positions(links@, capability@, true).len() == 0,
        merged matches Some(m) ==> is_merge_of(m, picked_of(availabilities@, linked_positions(links@, capability@, true))),
{
    let picked = linked_positions_of(links, capability, true);
    merge_picked(availabilities, &picked)
}

/// The availability of a service: the merge of the journeys it takes part in; none when it
/// takes part in none.
pub fn availability_for_service(links: &[JourneyLinks], availabilities: &[Availability], service: &str) -> (merged: Option<Availability>)
    requires
        links@.len() == availabilities@.len(),
    ensures
        merged is None <==> linked_positions(links@, service@, false).len() == 0,
        merged matches Some(m) ==> is_merge_of(m, picked_of(availabilities@, linked_positions(links@, service@, false))),
{
    let picked = linked_positions_of(links, service, false);
    merge_picked(availabilities, &picked)
}

/// Journey `k` is the first with id `id`.
pub open spec fn is_first_link_for(links: Seq<JourneyLinks>, id: Seq<char>, k: int) -> bool {
    &&& 0 <= k < links.len()
    &&& links[k].id@ == id
    &&& forall|j: int| 0 <= j < k ==> links[j].id@ != id
}

/// Some journey has id `id`.
pub open spec fn has_link_for(links: Seq<JourneyLinks>, id: Seq<char>) -> bool {
    exists|k: int| 0 <= k < links.len() && (#[trigger] links[k]).id@ == id
}

/// The positions of the journeys named by `ids`, each the first with its id.
pub open spec fn positions_of_ids(links: Seq<JourneyLinks>, ids: Seq<Seq<char>>) -> Seq<usize> {
    ids.map_values(|id: Seq<char>| (choose|k: int| is_first_link_for(links, id, k)) as usize)
}

/// The availability of an overlay requirement: the merge of the journeys it cites by id; none
/// when it cites none.
pub fn overlay_availability_from_ids(links: &[JourneyLinks], availabilities: &[Availability], ids: &[String]) -> (merged: Option<Availability>)
    requires
        links@.len() == availabilities@.len(),
        forall|i: int| 0 <= i < ids@.len() ==> has_link_for(links@, #[trigger] ids@[i]@),
    ensures
        merged is None <==> ids@.len() == 0,
        merged matches Some(m) ==> is_merge_of(
            m,
            picked_of(availabilities@, positions_of_ids(links@, ids@.map_values(|s: String| s@))),
        ),
{
    let ghost want = positions_of_ids(links@, ids@.map_values(|s: String| s@));
    let mut picked: Vec<usize> = Vec::new();
    let mut i: usize = 0;
    while i < ids.len()
        invariant
            i <= ids@.len(),
            links@.len() == availabilities@.len(),
            want == positions_of_ids(links@, ids@.map_values(|s: String| s@)),
            forall|i: int| 0 <= i < ids@.len() ==> has_link_for(links@, #[trigger] ids@[i]@),
            picked@ == want.take(i as int),
            forall|k: int| 0 <= k < picked@.len() ==> #[trigger] picked@[k] < links@.len(),
        decreases ids@.len() - i,
    {
        let mut k: usize = 0;
        while k < links.len() && !crate::text::str_eq(links[k].id.as_str(), ids[i].as_str())
            invariant
                k <= links@.len(),
                i < ids@.len(),
                forall|j: int| 0 <= j < k ==> links@[j].id@ != ids@[i as int]@,
            decreases links@.len() - k,
        {
            k += 1;
        }
        proof {
            let id = ids@[i as int]@;
            assert(has_link_for(links@, id));
            if k == links@.len() {
                let w = choose|w: int| 0 <= w < links@.len() && (#[trigger] links@[w]).id@ == id;
                assert(links@[w].id@ != id);
            }
            assert(is_first_link_for(links@, id, k as int));
            let c = choose|c: int| is_first_link_for(links@, id, c);
            assert(c == k) by {
                if c < k {
                    assert(links@[c].id@ != id);
                } else if k < c {
                    assert(links@[k as int].id@ != id);
                }
            }
            assert(want[i as int] == k);
            assert(want.take(i + 1) =~= want.take(i as int).push(k));
        }
        picked.push(k);
        i += 1;
    }
    assert(want.take(ids@.len() as int) =~= want);
    merge_picked(availabilities, &picked)
}

} // verus!
