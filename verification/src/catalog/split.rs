use vstd::prelude::*;

use crate::catalog::availability::{lemma_text_le_total, lemma_text_le_trans};
use crate::catalog::derive::string_seq;
use crate::catalog::matrix::{text_at_least, text_le};

verus! {

/// The rows of a nested vector, as sequences.
pub open spec fn nested(v: Seq<Vec<usize>>) -> Seq<Seq<usize>> {
    v.map_values(|row: Vec<usize>| row@)
}

/// Several partitions, each as its sequence of groups.
pub open spec fn partitions_view(p: Seq<Vec<Vec<usize>>>) -> Seq<Seq<Seq<usize>>> {
    p.map_values(|q: Vec<Vec<usize>>| nested(q@))
}

/// The group of item `i` in a partition: the last group that lists it, or `usize::MAX` when no
/// group does.
pub open spec fn group_of(groups: Seq<Seq<usize>>, i: usize) -> usize
    decreases groups.len(),
{
    if groups.len() == 0 {
        usize::MAX
    } else if groups.last().contains(i) {
        (groups.len() - 1) as usize
    } else {
        group_of(groups.drop_last(), i)
    }
}

/// `out[i]` is the group of item `i` in `groups`, or `usize::MAX` when no group lists it.
pub fn membership(groups: &[Vec<usize>], n: usize) -> (out: Vec<usize>)
    requires
        forall|g: int, k: int|
            0 <= g < groups@.len() && 0 <= k < groups@[g]@.len() ==> #[trigger] groups@[g]@[k] < n,
    ensures
        out@.len() == n,
        forall|i: int| 0 <= i < n ==> #[trigger] out@[i] == group_of(nested(groups@), i as usize),
{
    let mut out: Vec<usize> = Vec::new();
    let mut i: usize = 0;
    while i < n
        invariant
            i <= n,
            out@.len() == i,
            forall|x: int| 0 <= x < i ==> #[trigger] out@[x] == usize::MAX,
        decreases n - i,
    {
        out.push(usize::MAX);
        i += 1;
    }
    let ghost gv = nested(groups@);
    assert(gv.take(0) =~= Seq::<Seq<usize>>::empty());
    let mut g: usize = 0;
    while g < groups.len()
        invariant
            g <= groups@.len(),
            out@.len() == n,
            gv == nested(groups@),
            gv.len() == groups@.len(),
            forall|gg: int, k: int|
                0 <= gg < groups@.len() && 0 <= k < groups@[gg]@.len() ==> #[trigger] groups@[gg]@[k] < n,
            forall|x: int| 0 <= x < n ==> #[trigger] out@[x] == group_of(gv.take(g as int), x as usize),
        decreases groups@.len() - g,
    {
        let group = &groups[g];
        assert(group@ == gv[g as int]);
        assert(group@.take(0) =~= Seq::<usize>::empty());
        let mut k: usize = 0;
        while k < group.len()
            invariant
                k <= group@.len(),
                out@.len() == n,
                g < groups@.len(),
                group@ == gv[g as int],
                gv == nested(groups@),
                forall|kk: int| 0 <= kk < group@.len() ==> #[trigger] group@[kk] < n,
                forall|x: int|
                    0 <= x < n ==> #[trigger] out@[x] == (if group@.take(k as int).contains(x as usize) {
                        g
                    } else {
                        group_of(gv.take(g as int), x as usize)
                    }),
            decreases group@.len() - k,
        {
            let item = group[k];
            assert(groups@[g as int]@[k as int] == item);
            out.set(item, g);
            proof {
                let before = group@.take(k as int);
                let after = group@.take(k + 1);
                assert(after =~= before.push(item));
                assert forall|x: int| 0 <= x < n implies #[trigger] out@[x] == (if after.contains(x as usize) {
                    g
                } else {
                    group_of(gv.take(g as int), x as usize)
                }) by {
                    if x as usize == item {
                        assert(after[k as int] == item);
                    } else {
                        if after.contains(x as usize) {
                            let w = choose|w: int| 0 <= w < after.len() && after[w] == x as usize;
                            assert(before[w] == x as usize);
                        }
                        if before.contains(x as usize) {
                            let w = choose|w: int| 0 <= w < before.len() && before[w] == x as usize;
                            assert(after[w] == x as usize);
                        }
                    }
                }
            }
            k += 1;
        }
        proof {
            assert(group@.take(group@.len() as int) =~= group@);
            assert(gv.take(g + 1).drop_last() =~= gv.take(g as int));
            assert(gv.take(g + 1).last() == gv[g as int]);
        }
        g += 1;
    }
    assert(gv.take(groups@.len() as int) =~= gv);
    out
}

/// Items `i` and `j` share a group of the partition.
pub open spec fn together(groups: Seq<Seq<usize>>, i: usize, j: usize) -> bool {
    group_of(groups, i) != usize::MAX && group_of(groups, i) == group_of(groups, j)
}

/// How many of the partitions put items `i` and `j` in one group.
pub open spec fn agreement(parts: Seq<Seq<Seq<usize>>>, i: usize, j: usize) -> nat
    decreases parts.len(),
{
    if parts.len() == 0 {
        0
    } else {
        agreement(parts.drop_last(), i, j) + (if together(parts.last(), i, j) { 1nat } else { 0nat })
    }
}

proof fn lemma_agreement_bound(parts: Seq<Seq<Seq<usize>>>, i: usize, j: usize)
    ensures
        agreement(parts, i, j) <= parts.len(),
    decreases parts.len(),
{
    if parts.len() > 0 {
        lemma_agreement_bound(parts.drop_last(), i, j);
    }
}

/// The agreement matrix over `n` items: off the diagonal, how many partitions agree on the pair.
pub open spec fn agreement_matrix(parts: Seq<Seq<Seq<usize>>>, n: nat) -> Seq<Seq<usize>> {
    Seq::new(
        n,
        |i: int| Seq::new(n, |j: int| if i == j { 0usize } else { agreement(parts, i as usize, j as usize) as usize }),
    )
}

/// An edge of the graph that an agreement matrix and a threshold define: a pair `i < j` whose
/// entry in row `i` reaches the threshold (only the upper triangle is read).
pub open spec fn edge(agree: Seq<Seq<usize>>, t: usize, i: int, j: int) -> bool {
    0 <= i < j && i < agree.len() && j < agree[i].len() && agree[i][j] >= t
}

/// `a` and `b` are joined by an edge, in either direction.
pub open spec fn adjacent(agree: Seq<Seq<usize>>, t: usize, a: int, b: int) -> bool {
    edge(agree, t, a, b) || edge(agree, t, b, a)
}

/// Step `k` of the walk `p` follows an edge.
pub open spec fn walk_step(agree: Seq<Seq<usize>>, t: usize, p: Seq<int>, k: int) -> bool {
    adjacent(agree, t, p[k], p[k + 1])
}

/// `p` is a walk of the graph.
pub open spec fn is_walk(agree: Seq<Seq<usize>>, t: usize, p: Seq<int>) -> bool {
    p.len() >= 1 && forall|k: int| 0 <= k < p.len() - 1 ==> #[trigger] walk_step(agree, t, p, k)
}

/// Some walk leads from `a` to `b`.
pub open spec fn linked(agree: Seq<Seq<usize>>, t: usize, a: int, b: int) -> bool {
    exists|p: Seq<int>| #[trigger] is_walk(agree, t, p) && p[0] == a && p.last() == b
}

proof fn lemma_linked_refl(agree: Seq<Seq<usize>>, t: usize, a: int)
    ensures
        linked(agree, t, a, a),
{
    let p = seq![a];
    assert(is_walk(agree, t, p));
}

proof fn lemma_linked_step(agree: Seq<Seq<usize>>, t: usize, a: int, b: int, c: int)
    requires
        linked(agree, t, a, b),
        adjacent(agree, t, b, c),
    ensures
        linked(agree, t, a, c),
{
    let p = choose|p: Seq<int>| #[trigger] is_walk(agree, t, p) && p[0] == a && p.last() == b;
    let q = p.push(c);
    assert forall|k: int| 0 <= k < q.len() - 1 implies #[trigger] walk_step(agree, t, q, k) by {
        if k < p.len() - 1 {
            assert(walk_step(agree, t, p, k));
        }
    }
    assert(is_walk(agree, t, q));
}

proof fn lemma_linked_sym(agree: Seq<Seq<usize>>, t: usize, a: int, b: int)
    requires
        linked(agree, t, a, b),
    ensures
        linked(agree, t, b, a),
{
    let p = choose|p: Seq<int>| #[trigger] is_walk(agree, t, p) && p[0] == a && p.last() == b;
    let q = p.reverse();
    assert forall|k: int| 0 <= k < q.len() - 1 implies #[trigger] walk_step(agree, t, q, k) by {
        let m = p.len() - 2 - k;
        assert(walk_step(agree, t, p, m));
        assert(q[k] == p[m + 1]);
        assert(q[k + 1] == p[m]);
    }
    assert(is_walk(agree, t, q));
}

proof fn lemma_linked_trans(agree: Seq<Seq<usize>>, t: usize, a: int, b: int, c: int)
    requires
        linked(agree, t, a, b),
        linked(agree, t, b, c),
    ensures
        linked(agree, t, a, c),
{
    let p = choose|p: Seq<int>| #[trigger] is_walk(agree, t, p) && p[0] == a && p.last() == b;
    let q = choose|q: Seq<int>| #[trigger] is_walk(agree, t, q) && q[0] == b && q.last() == c;
    let r = p + q.skip(1);
    assert forall|k: int| 0 <= k < r.len() - 1 implies #[trigger] walk_step(agree, t, r, k) by {
        if k < p.len() - 1 {
            assert(walk_step(agree, t, p, k));
        } else {
            let m = k - (p.len() - 1);
            assert(walk_step(agree, t, q, m));
            if m == 0 {
                assert(r[k] == p.last());
            } else {
                assert(r[k] == q[m]);
            }
            assert(r[k + 1] == q[m + 1]);
        }
    }
    if q.len() == 1 {
        assert(r =~= p);
    }
    assert(is_walk(agree, t, r));
}

/// Labels that agree along every edge agree along every walk.
proof fn lemma_walk_keeps_label(agree: Seq<Seq<usize>>, t: usize, labels: Seq<usize>, p: Seq<int>)
    requires
        is_walk(agree, t, p),
        0 <= p[0] < labels.len(),
        forall|a: int, b: int|
            #![trigger edge(agree, t, a, b)]
            edge(agree, t, a, b) ==> b < labels.len() && labels[a] == labels[b],
    ensures
        0 <= p.last() < labels.len(),
        labels[p.last()] == labels[p[0]],
    decreases p.len(),
{
    if p.len() > 1 {
        let q = p.drop_last();
        assert forall|k: int| 0 <= k < q.len() - 1 implies #[trigger] walk_step(agree, t, q, k) by {
            assert(walk_step(agree, t, p, k));
        }
        lemma_walk_keeps_label(agree, t, labels, q);
        assert(walk_step(agree, t, p, p.len() - 2));
    }
}

/// The sum of a list of labels.
pub open spec fn label_sum(s: Seq<usize>) -> nat
    decreases s.len(),
{
    if s.len() == 0 {
        0
    } else {
        label_sum(s.drop_last()) + s.last() as nat
    }
}

proof fn lemma_label_sum_update(s: Seq<usize>, i: int, v: usize)
    requires
        0 <= i < s.len(),
    ensures
        label_sum(s.update(i, v)) + s[i] == label_sum(s) + v,
    decreases s.len(),
{
    let u = s.update(i, v);
    if i < s.len() - 1 {
        assert(u.drop_last() =~= s.drop_last().update(i, v));
        lemma_label_sum_update(s.drop_last(), i, v);
    } else {
        assert(u.drop_last() =~= s.drop_last());
    }
}

/// `s` is in strictly ascending order.
pub open spec fn strictly_ascending(s: Seq<usize>) -> bool {
    forall|a: int, b: int| 0 <= a < b < s.len() ==> s[a] < s[b]
}

/// Some group of `comps` lists item `x`.
pub open spec fn lists_item(comps: Seq<Seq<usize>>, x: int) -> bool {
    exists|g: int, k: int| 0 <= g < comps.len() && 0 <= k < comps[g].len() && #[trigger] comps[g][k] == x
}

/// `comps` lists the connected components of the graph over items `0..n`: each component is
/// non-empty and in ascending order, every item lies in one, two listed items share a component
/// exactly when a walk joins them, and the components come in ascending order of their least
/// item.
pub open spec fn are_components(comps: Seq<Seq<usize>>, n: nat, agree: Seq<Seq<usize>>, t: usize) -> bool {
    &&& forall|g: int|
        #![trigger comps[g]]
        0 <= g < comps.len() ==> comps[g].len() > 0 && strictly_ascending(comps[g]) && forall|k: int|
            0 <= k < comps[g].len() ==> #[trigger] comps[g][k] < n
    &&& forall|x: int| 0 <= x < n ==> #[trigger] lists_item(comps, x)
    &&& forall|g1: int, k1: int, g2: int, k2: int|
        0 <= g1 < comps.len() && 0 <= k1 < comps[g1].len() && 0 <= g2 < comps.len() && 0 <= k2
            < comps[g2].len() ==> (g1 == g2 <==> linked(
            agree,
            t,
            #[trigger] comps[g1][k1] as int,
            #[trigger] comps[g2][k2] as int,
        ))
    &&& forall|g1: int, g2: int| 0 <= g1 < g2 < comps.len() ==> #[trigger] comps[g1][0] < #[trigger] comps[g2][0]
}

/// Connected components over the agreement graph, keeping `agree >= threshold` edges of the upper
/// triangle; components and their members come in ascending order.
pub fn components(n: usize, agree: &[Vec<usize>], threshold: usize) -> (comps: Vec<Vec<usize>>)
    requires
        forall|i: int, j: int| #[trigger] edge(nested(agree@), threshold, i, j) ==> j < n,
    ensures
        are_components(nested(comps@), n as nat, nested(agree@), threshold),
{
    let ghost av = nested(agree@);
    let mut labels: Vec<usize> = Vec::new();
    let mut x: usize = 0;
    while x < n
        invariant
            x <= n,
            labels@.len() == x,
            forall|y: int| 0 <= y < x ==> #[trigger] labels@[y] == y,
        decreases n - x,
    {
        labels.push(x);
        x += 1;
    }
    assert forall|y: int| 0 <= y < n implies #[trigger] labels@[y] <= y && linked(av, threshold, y, labels@[y] as int) by {
        lemma_linked_refl(av, threshold, y);
    }
    loop
        invariant
            av == nested(agree@),
            av.len() == agree@.len(),
            forall|i: int, j: int| #[trigger] edge(av, threshold, i, j) ==> j < n,
            labels@.len() == n,
            forall|y: int| 0 <= y < n ==> #[trigger] labels@[y] <= y && linked(av, threshold, y, labels@[y] as int),
        ensures
            forall|a: int, b: int|
                #![trigger edge(av, threshold, a, b)]
                edge(av, threshold, a, b) ==> b < labels@.len() && labels@[a] == labels@[b],
        decreases label_sum(labels@),
    {
        let ghost start = labels@;
        let mut changed = false;
        let mut i: usize = 0;
        while i < agree.len()
            invariant
                av == nested(agree@),
                av.len() == agree@.len(),
                i <= agree@.len(),
                forall|a: int, b: int| #[trigger] edge(av, threshold, a, b) ==> b < n,
                labels@.len() == n,
                forall|y: int| 0 <= y < n ==> #[trigger] labels@[y] <= y && linked(av, threshold, y, labels@[y] as int),
                label_sum(labels@) <= label_sum(start),
                changed ==> label_sum(labels@) < label_sum(start),
                !changed ==> labels@ == start,
                !changed ==> forall|a: int, b: int|
                    #![trigger edge(av, threshold, a, b)]
                    edge(av, threshold, a, b) && a < i ==> labels@[a] == labels@[b],
            decreases agree@.len() - i,
        {
            let row = &agree[i];
            assert(row@ == av[i as int]);
            let mut j: usize = i + 1;
            while j < row.len()
                invariant
                    av == nested(agree@),
                    av.len() == agree@.len(),
                    i < agree@.len(),
                    row@ == av[i as int],
                    i + 1 <= j,
                    j <= row@.len() || j == i + 1,
                    forall|a: int, b: int| #[trigger] edge(av, threshold, a, b) ==> b < n,
                    labels@.len() == n,
                    forall|y: int| 0 <= y < n ==> #[trigger] labels@[y] <= y && linked(av, threshold, y, labels@[y] as int),
                    label_sum(labels@) <= label_sum(start),
                    changed ==> label_sum(labels@) < label_sum(start),
                    !changed ==> labels@ == start,
                    !changed ==> forall|a: int, b: int|
                        #![trigger edge(av, threshold, a, b)]
                        edge(av, threshold, a, b) && (a < i || (a == i && b < j)) ==> labels@[a] == labels@[b],
                decreases row@.len() - j,
            {
                if row[j] >= threshold {
                    assert(edge(av, threshold, i as int, j as int));
                    let a = labels[i];
                    let b = labels[j];
                    if a < b {
                        proof {
                            assert(adjacent(av, threshold, i as int, j as int));
                            lemma_linked_sym(av, threshold, i as int, a as int);
                            assert(adjacent(av, threshold, j as int, i as int));
                            lemma_linked_refl(av, threshold, j as int);
                            lemma_linked_step(av, threshold, j as int, j as int, i as int);
                            lemma_linked_trans(av, threshold, j as int, i as int, a as int);
                            lemma_label_sum_update(labels@, j as int, a);
                        }
                        labels.set(j, a);
                        changed = true;
                    } else if b < a {
                        proof {
                            assert(adjacent(av, threshold, i as int, j as int));
                            lemma_linked_refl(av, threshold, i as int);
                            lemma_linked_step(av, threshold, i as int, i as int, j as int);
                            lemma_linked_trans(av, threshold, i as int, j as int, b as int);
                            lemma_label_sum_update(labels@, i as int, b);
                        }
                        labels.set(i, b);
                        changed = true;
                    }
                }
                j += 1;
            }
            i += 1;
        }
        if !changed {
            break;
        }
    }
    // Each label is the least item of its class, and labels itself.
    assert forall|y: int| 0 <= y < n implies #[trigger] labels@[labels@[y] as int] == labels@[y] by {
        let l = labels@[y] as int;
        let p = choose|p: Seq<int>| #[trigger] is_walk(av, threshold, p) && p[0] == y && p.last() == l;
        lemma_walk_keeps_label(av, threshold, labels@, p);
    }
    assert forall|a: int, b: int|
        0 <= a < n && 0 <= b < n && linked(av, threshold, a, b) implies #[trigger] labels@[a] == #[trigger] labels@[b] by {
        let p = choose|p: Seq<int>| #[trigger] is_walk(av, threshold, p) && p[0] == a && p.last() == b;
        lemma_walk_keeps_label(av, threshold, labels@, p);
    }
    let mut comps: Vec<Vec<usize>> = Vec::new();
    let ghost mut gidx: Seq<int> = Seq::new(n as nat, |y: int| 0);
    let mut r: usize = 0;
    while r < n
        invariant
            r <= n,
            labels@.len() == n,
            gidx.len() == n,
            forall|y: int| 0 <= y < n ==> #[trigger] labels@[y] <= y,
            forall|y: int| 0 <= y < n ==> #[trigger] labels@[labels@[y] as int] == labels@[y],
            forall|y: int| 0 <= y < n ==> linked(av, threshold, y, #[trigger] labels@[y] as int),
            forall|a: int, b: int|
                0 <= a < n && 0 <= b < n && linked(av, threshold, a, b) ==> #[trigger] labels@[a] == #[trigger] labels@[b],
            forall|g: int|
                #![trigger comps@[g]]
                0 <= g < comps@.len() ==> {
                    let c = comps@[g]@;
                    &&& c.len() > 0
                    &&& strictly_ascending(c)
                    &&& c[0] < r
                    &&& labels@[c[0] as int] == c[0]
                    &&& forall|k: int| 0 <= k < c.len() ==> #[trigger] c[k] < n && labels@[c[k] as int] == c[0]
                    &&& forall|y: int| 0 <= y < n && labels@[y] == c[0] ==> #[trigger] c.contains(y as usize)
                },
            forall|g1: int, g2: int| 0 <= g1 < g2 < comps@.len() ==> #[trigger] comps@[g1]@[0] < #[trigger] comps@[g2]@[0],
            forall|q: int|
                0 <= q < r && labels@[q] == q ==> 0 <= #[trigger] gidx[q] < comps@.len() && comps@[gidx[q]]@[0] == q,
        decreases n - r,
    {
        if labels[r] == r {
            let mut comp: Vec<usize> = Vec::new();
            comp.push(r);
            proof {
                assert forall|z: int| 0 <= z < r + 1 && labels@[z] == r implies #[trigger] comp@.contains(z as usize) by {
                    if z == r {
                        assert(comp@[0] == r);
                    } else {
                        assert(labels@[z] <= z);
                    }
                }
            }
            let mut y: usize = r + 1;
            while y < n
                invariant
                    r < y <= n,
                    labels@.len() == n,
                    labels@[r as int] == r,
                    forall|z: int| 0 <= z < n ==> #[trigger] labels@[z] <= z,
                    comp@.len() > 0,
                    comp@[0] == r,
                    strictly_ascending(comp@),
                    forall|k: int| 0 <= k < comp@.len() ==> #[trigger] comp@[k] < y && labels@[comp@[k] as int] == r,
                    forall|z: int| 0 <= z < y && labels@[z] == r ==> #[trigger] comp@.contains(z as usize),
                decreases n - y,
            {
                if labels[y] == r {
                    let ghost before = comp@;
                    comp.push(y);
                    proof {
                        assert forall|z: int| 0 <= z < y + 1 && labels@[z] == r implies #[trigger] comp@.contains(z as usize) by {
                            if z == y {
                                assert(comp@[comp@.len() - 1] == y);
                            } else {
                                assert(before.contains(z as usize));
                                let w = choose|w: int| 0 <= w < before.len() && before[w] == z as usize;
                                assert(comp@[w] == z as usize);
                            }
                        }
                    }
                } else {
                    proof {
                        assert forall|z: int| 0 <= z < y + 1 && labels@[z] == r implies #[trigger] comp@.contains(z as usize) by {
                            assert(z != y);
                        }
                    }
                }
                y += 1;
            }
            proof {
                assert forall|z: int| 0 <= z < n && labels@[z] == r implies #[trigger] comp@.contains(z as usize) by {
                    if z < r {
                        assert(labels@[z] <= z);
                    } else if z == r {
                        assert(comp@[0] == r);
                    }
                }
                gidx = gidx.update(r as int, comps@.len() as int);
            }
            let ghost old_comps = comps@;
            comps.push(comp);
            proof {
                assert(comps@[comps@.len() - 1]@ == comp@);
                assert forall|g: int| 0 <= g < old_comps.len() implies #[trigger] comps@[g] == old_comps[g] by {}
            }
        }
        r += 1;
    }
    proof {
        let cv = nested(comps@);
        assert forall|x: int| 0 <= x < n implies #[trigger] lists_item(cv, x) by {
            let l = labels@[x] as int;
            let g = gidx[l];
            assert(comps@[g]@[0] == l);
            assert(comps@[g]@.contains(x as usize));
            let k = choose|k: int| 0 <= k < comps@[g]@.len() && comps@[g]@[k] == x as usize;
            assert(cv[g][k] == x);
        }
        assert forall|g1: int, k1: int, g2: int, k2: int|
            0 <= g1 < cv.len() && 0 <= k1 < cv[g1].len() && 0 <= g2 < cv.len() && 0 <= k2
                < cv[g2].len() implies (g1 == g2 <==> linked(
            av,
            threshold,
            #[trigger] cv[g1][k1] as int,
            #[trigger] cv[g2][k2] as int,
        )) by {
            let a = cv[g1][k1] as int;
            let b = cv[g2][k2] as int;
            assert(comps@[g1]@[k1] == a);
            assert(comps@[g2]@[k2] == b);
            if g1 == g2 {
                let l = comps@[g1]@[0] as int;
                assert(labels@[a] == l);
                assert(labels@[b] == l);
                lemma_linked_sym(av, threshold, b, l);
                lemma_linked_trans(av, threshold, a, l, b);
            } else {
                if linked(av, threshold, a, b) {
                    assert(labels@[a] == labels@[b]);
                    if g1 < g2 {
                        assert(comps@[g1]@[0] < comps@[g2]@[0]);
                    } else {
                        assert(comps@[g2]@[0] < comps@[g1]@[0]);
                    }
                }
            }
        }
        assert forall|g: int| #![trigger cv[g]] 0 <= g < cv.len() implies cv[g].len() > 0 && strictly_ascending(cv[g])
            && forall|k: int| 0 <= k < cv[g].len() ==> #[trigger] cv[g][k] < n by {
            assert(cv[g] == comps@[g]@);
        }
        assert forall|g1: int, g2: int| 0 <= g1 < g2 < cv.len() implies #[trigger] cv[g1][0] < #[trigger] cv[g2][0] by {
            assert(cv[g1] == comps@[g1]@);
            assert(cv[g2] == comps@[g2]@);
        }
    }
    comps
}

/// One pair of items that at least one partition puts together: `(i, j, agree)` with `i < j`.
pub type PairAgreement = (usize, usize, usize);

/// `a` comes before `b` in the listing of pair agreements: more agreement first, then by the
/// first item, then by the second.
pub open spec fn pair_before(a: PairAgreement, b: PairAgreement) -> bool {
    a.2 > b.2 || (a.2 == b.2 && (a.0 < b.0 || (a.0 == b.0 && a.1 < b.1)))
}

/// `e` is the agreement of a pair `i < j` of items `0..n` that at least one partition puts
/// together.
pub open spec fn is_pair_entry(parts: Seq<Seq<Seq<usize>>>, n: nat, e: PairAgreement) -> bool {
    e.0 < e.1 < n && e.2 == agreement(parts, e.0, e.1) && e.2 > 0
}

/// Pairwise agreement and the majority-consensus clustering over index partitions.
pub struct ConsensusIdx {
    /// `(i, j, agree)` for `i < j` with `agree >= 1`, by agreement descending.
    pub pair_agreement: Vec<PairAgreement>,
    pub total: usize,
    pub majority_threshold: usize,
    /// Connected components of the "agree >= majority" graph; every item appears once.
    pub clusters: Vec<Vec<usize>>,
}

/// All groups of all partitions list only items below `n`.
pub open spec fn items_below(parts: Seq<Seq<Seq<usize>>>, n: nat) -> bool {
    forall|m: int, g: int, k: int|
        0 <= m < parts.len() && 0 <= g < parts[m].len() && 0 <= k < parts[m][g].len() ==> #[trigger] parts[m][g][k] < n
}

/// How often each pair of the `n` items lands together across the partitions, and the clusters
/// that the pairs agreed on by a majority of the partitions form.
pub fn consensus_over(partitions: &[Vec<Vec<usize>>], n: usize) -> (result: ConsensusIdx)
    requires
        items_below(partitions_view(partitions@), n as nat),
    ensures
        result.total == partitions@.len(),
        result.majority_threshold == partitions@.len() / 2 + 1,
        forall|a: int, b: int|
            0 <= a < b < result.pair_agreement@.len() ==> pair_before(
                #[trigger] result.pair_agreement@[a],
                #[trigger] result.pair_agreement@[b],
            ),
        forall|e: PairAgreement|
            #[trigger] result.pair_agreement@.contains(e) <==> is_pair_entry(partitions_view(partitions@), n as nat, e),
        are_components(
            nested(result.clusters@),
            n as nat,
            agreement_matrix(partitions_view(partitions@), n as nat),
            result.majority_threshold,
        ),
{
    let ghost pv = partitions_view(partitions@);
    let total = partitions.len();
    let mut memberships: Vec<Vec<usize>> = Vec::new();
    let mut m: usize = 0;
    while m < partitions.len()
        invariant
            m <= partitions@.len(),
            pv == partitions_view(partitions@),
            items_below(pv, n as nat),
            memberships@.len() == m,
            forall|mm: int, i: int|
                0 <= mm < m && 0 <= i < n ==> #[trigger] memberships@[mm]@[i] == group_of(pv[mm], i as usize) && memberships@[mm]@.len() == n,
        decreases partitions@.len() - m,
    {
        let part = &partitions[m];
        assert(nested(part@) == pv[m as int]);
        assert forall|g: int, k: int| 0 <= g < part@.len() && 0 <= k < part@[g]@.len() implies #[trigger] part@[g]@[k] < n by {
            assert(pv[m as int][g][k] < n);
        }
        let row = membership(part.as_slice(), n);
        memberships.push(row);
        m += 1;
    }
    let mut agree: Vec<Vec<usize>> = Vec::new();
    let mut i: usize = 0;
    while i < n
        invariant
            i <= n,
            pv.len() == memberships@.len(),
            forall|mm: int, x: int|
                0 <= mm < memberships@.len() && 0 <= x < n ==> #[trigger] memberships@[mm]@[x] == group_of(pv[mm], x as usize) && memberships@[mm]@.len() == n,
            agree@.len() == i,
            forall|a: int| 0 <= a < i ==> (#[trigger] agree@[a])@ == agreement_matrix(pv, n as nat)[a],
        decreases n - i,
    {
        let mut row: Vec<usize> = Vec::new();
        let mut j: usize = 0;
        while j < n
            invariant
                i < n,
                j <= n,
                pv.len() == memberships@.len(),
                forall|mm: int, x: int|
                    0 <= mm < memberships@.len() && 0 <= x < n ==> #[trigger] memberships@[mm]@[x] == group_of(pv[mm], x as usize) && memberships@[mm]@.len() == n,
                row@.len() == j,
                forall|b: int| 0 <= b < j ==> #[trigger] row@[b] == agreement_matrix(pv, n as nat)[i as int][b],
            decreases n - j,
        {
            if i == j {
                row.push(0);
            } else {
                let mut count: usize = 0;
                let mut mm: usize = 0;
                assert(pv.take(0) =~= Seq::<Seq<Seq<usize>>>::empty());
                while mm < memberships.len()
                    invariant
                        i < n,
                        j < n,
                        mm <= memberships@.len(),
                        pv.len() == memberships@.len(),
                        forall|m2: int, x: int|
                            0 <= m2 < memberships@.len() && 0 <= x < n ==> #[trigger] memberships@[m2]@[x] == group_of(pv[m2], x as usize) && memberships@[m2]@.len() == n,
                        count == agreement(pv.take(mm as int), i, j),
                        count <= mm,
                    decreases memberships@.len() - mm,
                {
                    let member = &memberships[mm];
                    assert(member@[i as int] == group_of(pv[mm as int], i));
                    assert(member@[j as int] == group_of(pv[mm as int], j));
                    if member[i] != usize::MAX && member[i] == member[j] {
                        count += 1;
                    }
                    proof {
                        assert(pv.take(mm + 1).drop_last() =~= pv.take(mm as int));
                        assert(pv.take(mm + 1).last() == pv[mm as int]);
                    }
                    mm += 1;
                }
                proof {
                    assert(pv.take(pv.len() as int) =~= pv);
                }
                row.push(count);
            }
            j += 1;
        }
        proof {
            assert(row@ =~= agreement_matrix(pv, n as nat)[i as int]);
        }
        agree.push(row);
        i += 1;
    }
    let ghost matrix = agreement_matrix(pv, n as nat);
    assert(nested(agree@) =~= matrix);
    let majority_threshold = total / 2 + 1;
    proof {
        assert forall|a: int, b: int| #[trigger] edge(nested(agree@), majority_threshold, a, b) implies b < n by {}
    }
    let clusters = components(n, agree.as_slice(), majority_threshold);

    let mut pairs: Vec<PairAgreement> = Vec::new();
    let mut c: usize = total;
    proof {
        assert forall|e: PairAgreement| is_pair_entry(pv, n as nat, e) && e.2 > c implies #[trigger] pairs@.contains(e) by {
            lemma_agreement_bound(pv, e.0, e.1);
        }
    }
    while c > 0
        invariant
            c <= total,
            total == pv.len(),
            nested(agree@) == matrix,
            matrix == agreement_matrix(pv, n as nat),
            agree@.len() == n,
            forall|a: int, b: int| 0 <= a < b < pairs@.len() ==> pair_before(#[trigger] pairs@[a], #[trigger] pairs@[b]),
            forall|e: PairAgreement| #[trigger] pairs@.contains(e) ==> is_pair_entry(pv, n as nat, e) && e.2 > c,
            forall|e: PairAgreement| is_pair_entry(pv, n as nat, e) && e.2 > c ==> #[trigger] pairs@.contains(e),
        decreases c,
    {
        let mut i: usize = 0;
        while i < n
            invariant
                0 < c <= total,
                total == pv.len(),
                i <= n,
                nested(agree@) == matrix,
                matrix == agreement_matrix(pv, n as nat),
                agree@.len() == n,
                forall|a: int, b: int| 0 <= a < b < pairs@.len() ==> pair_before(#[trigger] pairs@[a], #[trigger] pairs@[b]),
                forall|e: PairAgreement|
                    #[trigger] pairs@.contains(e) ==> is_pair_entry(pv, n as nat, e) && (e.2 > c || (e.2 == c && e.0 < i)),
                forall|e: PairAgreement|
                    is_pair_entry(pv, n as nat, e) && (e.2 > c || (e.2 == c && e.0 < i)) ==> #[trigger] pairs@.contains(e),
            decreases n - i,
        {
            let row = &agree[i];
            assert(row@ == matrix[i as int]);
            let mut j: usize = i + 1;
            while j < n
                invariant
                    0 < c <= total,
                    total == pv.len(),
                    i < n,
                    i < j <= n || j == i + 1,
                    row@ == matrix[i as int],
                    matrix == agreement_matrix(pv, n as nat),
                    forall|a: int, b: int| 0 <= a < b < pairs@.len() ==> pair_before(#[trigger] pairs@[a], #[trigger] pairs@[b]),
                    forall|e: PairAgreement|
                        #[trigger] pairs@.contains(e) ==> is_pair_entry(pv, n as nat, e) && (e.2 > c || (e.2 == c
                            && (e.0 < i || (e.0 == i && e.1 < j)))),
                    forall|e: PairAgreement|
                        is_pair_entry(pv, n as nat, e) && (e.2 > c || (e.2 == c && (e.0 < i || (e.0 == i && e.1 < j))))
                            ==> #[trigger] pairs@.contains(e),
                decreases n - j,
            {
                let count = row[j];
                proof {
                    lemma_agreement_bound(pv, i, j);
                    assert(count == agreement(pv, i, j));
                }
                let ghost before = pairs@;
                let ghost e = (i, j, count);
                if count == c {
                    pairs.push((i, j, count));
                    proof {
                        assert(pairs@ == before.push(e));
                        assert(pairs@[before.len() as int] == e);
                        assert forall|a: int, b: int| 0 <= a < b < pairs@.len() implies pair_before(
                            #[trigger] pairs@[a],
                            #[trigger] pairs@[b],
                        ) by {
                            if b == before.len() {
                                assert(before.contains(before[a]));
                            } else {
                                assert(pairs@[a] == before[a]);
                                assert(pairs@[b] == before[b]);
                            }
                        }
                        assert forall|f: PairAgreement| #[trigger] pairs@.contains(f) implies is_pair_entry(pv, n as nat, f)
                            && (f.2 > c || (f.2 == c && (f.0 < i || (f.0 == i && f.1 < j + 1)))) by {
                            let w = choose|w: int| 0 <= w < pairs@.len() && pairs@[w] == f;
                            if w < before.len() {
                                assert(before[w] == f);
                                assert(before.contains(f));
                            }
                        }
                        assert forall|f: PairAgreement|
                            is_pair_entry(pv, n as nat, f) && (f.2 > c || (f.2 == c && (f.0 < i || (f.0 == i && f.1 < j + 1))))
                            implies #[trigger] pairs@.contains(f) by {
                            if f.0 == i && f.1 == j {
                                assert(pairs@[before.len() as int] == f);
                            } else {
                                assert(before.contains(f));
                                let w = choose|w: int| 0 <= w < before.len() && before[w] == f;
                                assert(pairs@[w] == f);
                            }
                        }
                    }
                } else {
                    proof {
                        assert forall|f: PairAgreement|
                            is_pair_entry(pv, n as nat, f) && (f.2 > c || (f.2 == c && (f.0 < i || (f.0 == i && f.1 < j + 1))))
                            implies #[trigger] pairs@.contains(f) by {
                            if f.0 == i && f.1 == j {
                                assert(f.2 == count);
                            }
                        }
                    }
                }
                j += 1;
            }
            i += 1;
        }
        c -= 1;
    }
    ConsensusIdx { pair_agreement: pairs, total, majority_threshold, clusters }
}

/// `groups` groups the indices of `keys` by key: each group is non-empty, ascending, and holds
/// exactly the indices of one key; every index lies in a group; and the groups come in ascending
/// order of their keys.
pub open spec fn are_key_groups(groups: Seq<Seq<usize>>, keys: Seq<u64>) -> bool {
    &&& forall|g: int|
        #![trigger groups[g]]
        0 <= g < groups.len() ==> {
            &&& groups[g].len() > 0
            &&& strictly_ascending(groups[g])
            &&& forall|k: int|
                0 <= k < groups[g].len() ==> #[trigger] groups[g][k] < keys.len() && keys[groups[g][k] as int]
                    == keys[groups[g][0] as int]
            &&& forall|x: int|
                0 <= x < keys.len() && keys[x] == keys[groups[g][0] as int] ==> #[trigger] groups[g].contains(x as usize)
        }
    &&& forall|x: int| 0 <= x < keys.len() ==> #[trigger] lists_item(groups, x)
    &&& forall|g1: int, g2: int|
        0 <= g1 < g2 < groups.len() ==> keys[#[trigger] groups[g1][0] as int] < keys[#[trigger] groups[g2][0] as int]
}

/// Groups the item indices by their key, returning the index groups in ascending key order.
pub fn group_by_key(keys: &[u64]) -> (groups: Vec<Vec<usize>>)
    ensures
        are_key_groups(nested(groups@), keys@),
{
    // The distinct keys, in ascending order; `source[q]` is an index whose key is `distinct[q]`.
    let mut distinct: Vec<u64> = Vec::new();
    let ghost mut source: Seq<int> = Seq::empty();
    let mut i: usize = 0;
    while i < keys.len()
        invariant
            i <= keys@.len(),
            source.len() == distinct@.len(),
            forall|a: int, b: int| 0 <= a < b < distinct@.len() ==> #[trigger] distinct@[a] < #[trigger] distinct@[b],
            forall|q: int| 0 <= q < distinct@.len() ==> 0 <= #[trigger] source[q] < i && keys@[source[q]] == distinct@[q],
            forall|x: int| 0 <= x < i ==> #[trigger] distinct@.contains(keys@[x]),
        decreases keys@.len() - i,
    {
        let key = keys[i];
        let mut p: usize = 0;
        while p < distinct.len() && distinct[p] < key
            invariant
                p <= distinct@.len(),
                forall|q: int| 0 <= q < p ==> #[trigger] distinct@[q] < key,
            decreases distinct@.len() - p,
        {
            p += 1;
        }
        if p < distinct.len() && distinct[p] == key {
            proof {
                assert(distinct@[p as int] == keys@[i as int]);
                assert forall|x: int| 0 <= x < i + 1 implies #[trigger] distinct@.contains(keys@[x]) by {
                    if x == i {
                        assert(distinct@[p as int] == keys@[x]);
                    }
                }
            }
        } else {
            let ghost before = distinct@;
            let ghost old_source = source;
            distinct.insert(p, key);
            proof {
                source = source.insert(p as int, i as int);
                assert(distinct@ == before.insert(p as int, key));
                assert forall|a: int, b: int| 0 <= a < b < distinct@.len() implies #[trigger] distinct@[a] < #[trigger] distinct@[b] by {
                    if a < p as int {
                        assert(distinct@[a] == before[a]);
                    }
                    if b > p as int {
                        assert(distinct@[b] == before[b - 1]);
                        if a > p as int {
                            assert(distinct@[a] == before[a - 1]);
                        }
                    }
                    if b < p as int {
                        assert(distinct@[b] == before[b]);
                    }
                }
                assert forall|x: int| 0 <= x < i + 1 implies #[trigger] distinct@.contains(keys@[x]) by {
                    if x == i {
                        assert(distinct@[p as int] == keys@[x]);
                    } else {
                        assert(before.contains(keys@[x]));
                        let w = choose|w: int| 0 <= w < before.len() && before[w] == keys@[x];
                        if w < p {
                            assert(distinct@[w] == keys@[x]);
                        } else {
                            assert(distinct@[w + 1] == keys@[x]);
                        }
                    }
                }
                assert forall|q: int| 0 <= q < distinct@.len() implies 0 <= #[trigger] source[q] < i + 1
                    && keys@[source[q]] == distinct@[q] by {
                    if q < p {
                        assert(source[q] == old_source[q]);
                        assert(distinct@[q] == before[q]);
                    } else if q > p {
                        assert(source[q] == old_source[q - 1]);
                        assert(distinct@[q] == before[q - 1]);
                    }
                }
            }
        }
        i += 1;
    }
    // One group per distinct key.
    let mut groups: Vec<Vec<usize>> = Vec::new();
    let mut d: usize = 0;
    while d < distinct.len()
        invariant
            d <= distinct@.len(),
            groups@.len() == d,
            forall|a: int, b: int| 0 <= a < b < distinct@.len() ==> #[trigger] distinct@[a] < #[trigger] distinct@[b],
            source.len() == distinct@.len(),
            forall|q: int| 0 <= q < distinct@.len() ==> 0 <= #[trigger] source[q] < keys@.len() && keys@[source[q]] == distinct@[q],
            forall|x: int| 0 <= x < keys@.len() ==> #[trigger] distinct@.contains(keys@[x]),
            forall|g: int|
                #![trigger groups@[g]]
                0 <= g < d ==> {
                    let c = groups@[g]@;
                    &&& c.len() > 0
                    &&& strictly_ascending(c)
                    &&& keys@[c[0] as int] == distinct@[g]
                    &&& forall|k: int| 0 <= k < c.len() ==> #[trigger] c[k] < keys@.len() && keys@[c[k] as int] == distinct@[g]
                    &&& forall|x: int| 0 <= x < keys@.len() && keys@[x] == distinct@[g] ==> #[trigger] c.contains(x as usize)
                },
        decreases distinct@.len() - d,
    {
        let key = distinct[d];
        let mut group: Vec<usize> = Vec::new();
        let mut x: usize = 0;
        while x < keys.len()
            invariant
                x <= keys@.len(),
                strictly_ascending(group@),
                forall|k: int| 0 <= k < group@.len() ==> #[trigger] group@[k] < x && keys@[group@[k] as int] == key,
                forall|y: int| 0 <= y < x && keys@[y] == key ==> #[trigger] group@.contains(y as usize),
            decreases keys@.len() - x,
        {
            if keys[x] == key {
                let ghost before = group@;
                group.push(x);
                proof {
                    assert forall|y: int| 0 <= y < x + 1 && keys@[y] == key implies #[trigger] group@.contains(y as usize) by {
                        if y == x {
                            assert(group@[group@.len() - 1] == y as usize);
                        } else {
                            assert(before.contains(y as usize));
                            let w = choose|w: int| 0 <= w < before.len() && before[w] == y as usize;
                            assert(group@[w] == y as usize);
                        }
                    }
                }
            }
            x += 1;
        }
        proof {
            let w = source[d as int];
            assert(group@.contains(w as usize));
            assert(group@.len() > 0);
        }
        let ghost old_groups = groups@;
        groups.push(group);
        proof {
            assert forall|g: int| 0 <= g < old_groups.len() implies #[trigger] groups@[g] == old_groups[g] by {}
        }
        d += 1;
    }
    proof {
        let gv = nested(groups@);
        assert forall|g: int| #![trigger gv[g]] 0 <= g < gv.len() implies gv[g] == groups@[g]@ by {}
        assert forall|x: int| 0 <= x < keys@.len() implies #[trigger] lists_item(gv, x) by {
            assert(distinct@.contains(keys@[x]));
            let g = choose|g: int| 0 <= g < distinct@.len() && distinct@[g] == keys@[x];
            assert(groups@[g]@.contains(x as usize));
            let k = choose|k: int| 0 <= k < groups@[g]@.len() && groups@[g]@[k] == x as usize;
            assert(gv[g][k] == x);
        }
        assert forall|g1: int, g2: int|
            0 <= g1 < g2 < gv.len() implies keys@[#[trigger] gv[g1][0] as int] < keys@[#[trigger] gv[g2][0] as int] by {
            assert(gv[g1] == groups@[g1]@);
            assert(gv[g2] == groups@[g2]@);
            assert(distinct@[g1] < distinct@[g2]);
        }
    }
    groups
}

/// `a` sorts strictly before `b`, character by character.
pub open spec fn text_lt(a: Seq<char>, b: Seq<char>) -> bool {
    text_le(a, b) && a != b
}

/// `groups` groups the item indices by their text key: like `are_key_groups`, with the groups
/// in ascending order of their keys.
pub open spec fn are_text_key_groups(groups: Seq<Seq<usize>>, keys: Seq<Seq<char>>) -> bool {
    &&& forall|g: int|
        #![trigger groups[g]]
        0 <= g < groups.len() ==> {
            &&& groups[g].len() > 0
            &&& strictly_ascending(groups[g])
            &&& forall|k: int|
                0 <= k < groups[g].len() ==> #[trigger] groups[g][k] < keys.len() && keys[groups[g][k] as int]
                    == keys[groups[g][0] as int]
            &&& forall|x: int|
                0 <= x < keys.len() && keys[x] == keys[groups[g][0] as int] ==> #[trigger] groups[g].contains(x as usize)
        }
    &&& forall|x: int| 0 <= x < keys.len() ==> #[trigger] lists_item(groups, x)
    &&& forall|g1: int, g2: int|
        0 <= g1 < g2 < groups.len() ==> text_lt(keys[#[trigger] groups[g1][0] as int], keys[#[trigger] groups[g2][0] as int])
}

/// How many of the first `m` keys sort strictly before `t`.
pub open spec fn count_before(keys: Seq<Seq<char>>, m: int, t: Seq<char>) -> nat
    decreases m,
{
    if m <= 0 {
        0
    } else {
        count_before(keys, m - 1, t) + if text_lt(keys[m - 1], t) {
            1nat
        } else {
            0nat
        }
    }
}

proof fn lemma_text_lt_order(a: Seq<char>, b: Seq<char>, c: Seq<char>)
    ensures
        text_lt(a, b) && text_lt(b, c) ==> text_lt(a, c),
        text_lt(a, b) ==> !text_lt(b, a),
        !text_lt(a, b) && !text_lt(b, a) ==> a == b,
        !text_lt(a, a),
{
    lemma_text_le_total(a, b);
    lemma_text_le_total(b, c);
    lemma_text_le_total(a, c);
    if text_le(a, b) && text_le(b, c) {
        lemma_text_le_trans(a, b, c);
    }
}

proof fn lemma_count_before_bound(keys: Seq<Seq<char>>, m: int, t: Seq<char>)
    requires
        0 <= m,
    ensures
        count_before(keys, m, t) <= m,
    decreases m,
{
    if m > 0 {
        lemma_count_before_bound(keys, m - 1, t);
    }
}

/// A key that sorts before another counts fewer keys before it: at least one fewer once the
/// smaller key itself is among those counted.
proof fn lemma_count_before_grows(keys: Seq<Seq<char>>, m: int, i: int, a: Seq<char>, b: Seq<char>)
    requires
        0 <= m <= keys.len(),
        0 <= i < keys.len(),
        keys[i] == a,
        text_lt(a, b),
    ensures
        count_before(keys, m, a) + (if m > i { 1int } else { 0int }) <= count_before(keys, m, b),
    decreases m,
{
    if m > 0 {
        lemma_count_before_grows(keys, m - 1, i, a, b);
        lemma_text_lt_order(keys[m - 1], a, b);
    }
}

/// Counts the keys that sort strictly before `keys[i]`.
fn rank_of(keys: &[String], i: usize) -> (rank: u64)
    requires
        i < keys@.len(),
        keys@.len() <= u64::MAX,
    ensures
        rank == count_before(string_seq(keys@), keys@.len() as int, keys@[i as int]@),
{
    let ghost ks = string_seq(keys@);
    let mut rank: u64 = 0;
    let mut j: usize = 0;
    while j < keys.len()
        invariant
            j <= keys@.len() <= u64::MAX,
            i < keys@.len(),
            ks == string_seq(keys@),
            rank == count_before(ks, j as int, keys@[i as int]@),
        decreases keys@.len() - j,
    {
        proof {
            lemma_count_before_bound(ks, j as int, keys@[i as int]@);
            lemma_text_le_total(keys@[i as int]@, keys@[j as int]@);
            assert(ks[j as int] == keys@[j as int]@);
        }
        if !text_at_least(keys[j].as_str(), keys[i].as_str()) {
            rank = rank + 1;
        }
        j += 1;
    }
    rank
}

/// Groups the item indices by their text key, returning the index groups in ascending order of
/// their keys (character by character).
pub fn group_by_text_key(keys: &[String]) -> (groups: Vec<Vec<usize>>)
    requires
        keys@.len() <= u64::MAX,
    ensures
        are_text_key_groups(nested(groups@), string_seq(keys@)),
{
    let ghost ks = string_seq(keys@);
    let mut ranks: Vec<u64> = Vec::new();
    let mut i: usize = 0;
    while i < keys.len()
        invariant
            i <= keys@.len() <= u64::MAX,
            ks == string_seq(keys@),
            ranks@.len() == i,
            forall|x: int| 0 <= x < i ==> #[trigger] ranks@[x] == count_before(ks, ks.len() as int, ks[x]),
        decreases keys@.len() - i,
    {
        let r = rank_of(keys, i);
        ranks.push(r);
        i += 1;
    }
    proof {
        // Ranks are equal exactly when keys are, and ordered as the keys are.
        assert forall|x: int, y: int| 0 <= x < ks.len() && 0 <= y < ks.len() implies {
            &&& (#[trigger] ranks@[x] == #[trigger] ranks@[y] <==> ks[x] == ks[y])
            &&& (ranks@[x] < ranks@[y] <==> text_lt(ks[x], ks[y]))
        } by {
            lemma_text_lt_order(ks[x], ks[y], ks[x]);
            if text_lt(ks[x], ks[y]) {
                lemma_count_before_grows(ks, ks.len() as int, x, ks[x], ks[y]);
            }
            if text_lt(ks[y], ks[x]) {
                lemma_count_before_grows(ks, ks.len() as int, y, ks[y], ks[x]);
            }
        }
    }
    let groups = group_by_key(&ranks);
    proof {
        let gs = nested(groups@);
        assert(are_key_groups(gs, ranks@));
        assert forall|g: int| #![trigger gs[g]] 0 <= g < gs.len() implies {
            &&& forall|k: int|
                0 <= k < gs[g].len() ==> #[trigger] gs[g][k] < ks.len() && ks[gs[g][k] as int] == ks[gs[g][0] as int]
            &&& forall|x: int| 0 <= x < ks.len() && ks[x] == ks[gs[g][0] as int] ==> #[trigger] gs[g].contains(x as usize)
        } by {
            assert(gs[g].len() > 0);
            assert forall|k: int| 0 <= k < gs[g].len() implies #[trigger] gs[g][k] < ks.len() && ks[gs[g][k] as int]
                == ks[gs[g][0] as int] by {
                assert(ranks@[gs[g][k] as int] == ranks@[gs[g][0] as int]);
            }
            assert forall|x: int| 0 <= x < ks.len() && ks[x] == ks[gs[g][0] as int] implies #[trigger] gs[g].contains(
                x as usize,
            ) by {
                assert(ranks@[x] == ranks@[gs[g][0] as int]);
            }
        }
        assert forall|g1: int, g2: int| 0 <= g1 < g2 < gs.len() implies text_lt(
            ks[#[trigger] gs[g1][0] as int],
            ks[#[trigger] gs[g2][0] as int],
        ) by {
            assert(ranks@[gs[g1][0] as int] < ranks@[gs[g2][0] as int]);
        }
    }
    groups
}

} // verus!
