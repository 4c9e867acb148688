//! Grouping the saved simulations by their tag.

use vstd::prelude::*;

verus! {

/// The texts and ids of a list of `(tag, id)` pairs.
pub open spec fn pairs_view(ps: Seq<(String, usize)>) -> Seq<(Seq<char>, usize)> {
    ps.map_values(|p: (String, usize)| (p.0@, p.1))
}

/// The ids paired with tag `t`, in the order in which they occur.
pub open spec fn ids_with_tag(ps: Seq<(Seq<char>, usize)>, t: Seq<char>) -> Seq<usize>
    decreases ps.len(),
{
    if ps.len() == 0 {
        Seq::empty()
    } else {
        let rest = ids_with_tag(ps.drop_last(), t);
        if ps.last().0 == t {
            rest.push(ps.last().1)
        } else {
            rest
        }
    }
}

/// The texts and ids of a list of groups.
pub open spec fn groups_view(gs: Seq<(String, Vec<usize>)>) -> Seq<(Seq<char>, Seq<usize>)> {
    gs.map_values(|g: (String, Vec<usize>)| (g.0@, g.1@))
}

/// `gs` groups the pairs `ps` by tag: one group for each tag that occurs,
/// none for another, and each holding the ids of its tag in their order.
pub open spec fn is_grouping(ps: Seq<(Seq<char>, usize)>, gs: Seq<(Seq<char>, Seq<usize>)>) -> bool {
    &&& forall|i: int, j: int| 0 <= i < j < gs.len() ==> gs[i].0 != gs[j].0
    &&& forall|i: int|
        0 <= i < gs.len() ==> #[trigger] gs[i].1 == ids_with_tag(ps, gs[i].0) && gs[i].1.len() > 0
    &&& forall|k: int| 0 <= k < ps.len() ==> exists|i: int| 0 <= i < gs.len() && #[trigger] gs[i].0 == #[trigger] ps[k].0
}

/// Grouping loses no simulation: the id of every pair is among the ids of
/// its tag, and the ids of a tag are exactly as many as the pairs with it.
pub proof fn lemma_grouping_keeps_every_id(ps: Seq<(Seq<char>, usize)>, k: int)
    requires
        0 <= k < ps.len(),
    ensures
        ids_with_tag(ps, ps[k].0).contains(ps[k].1),
        ids_with_tag(ps, ps[k].0).len() == ps.filter(|p: (Seq<char>, usize)| p.0 == ps[k].0).len(),
    decreases ps.len(),
{
    let t = ps[k].0;
    lemma_ids_with_tag_len(ps, t);
    assert((|p: (Seq<char>, usize)| p.0 == t) =~= (|p: (Seq<char>, usize)| p.0 == ps[k].0));
    if k == ps.len() - 1 {
        let rest = ids_with_tag(ps.drop_last(), t);
        assert(ids_with_tag(ps, t) == rest.push(ps.last().1));
        assert(ids_with_tag(ps, t)[rest.len() as int] == ps[k].1);
    } else {
        lemma_grouping_keeps_every_id(ps.drop_last(), k);
        assert(ps.drop_last()[k] == ps[k]);
        let rest = ids_with_tag(ps.drop_last(), t);
        let i = choose|i: int| 0 <= i < rest.len() && rest[i] == ps[k].1;
        if ps.last().0 == t {
            assert(ids_with_tag(ps, t)[i] == ps[k].1);
        }
    }
}

/// The number of ids in all the groups together.
pub open spec fn total_ids(gs: Seq<(Seq<char>, Seq<usize>)>) -> nat
    decreases gs.len(),
{
    if gs.len() == 0 {
        0
    } else {
        total_ids(gs.drop_last()) + gs.last().1.len()
    }
}

proof fn lemma_total_ids_update(gs: Seq<(Seq<char>, Seq<usize>)>, k: int, g: (Seq<char>, Seq<usize>))
    requires
        0 <= k < gs.len(),
    ensures
        total_ids(gs.update(k, g)) + gs[k].1.len() == total_ids(gs) + g.1.len(),
    decreases gs.len(),
{
    if k < gs.len() - 1 {
        lemma_total_ids_update(gs.drop_last(), k, g);
        assert(gs.update(k, g).drop_last() =~= gs.drop_last().update(k, g));
    } else {
        assert(gs.update(k, g).drop_last() =~= gs.drop_last());
    }
}

proof fn lemma_total_ids_remove(gs: Seq<(Seq<char>, Seq<usize>)>, k: int)
    requires
        0 <= k < gs.len(),
    ensures
        total_ids(gs.remove(k)) + gs[k].1.len() == total_ids(gs),
    decreases gs.len(),
{
    if k < gs.len() - 1 {
        lemma_total_ids_remove(gs.drop_last(), k);
        assert(gs.remove(k).drop_last() =~= gs.drop_last().remove(k));
        assert(gs.remove(k).last() == gs.last());
    } else {
        assert(gs.remove(k) =~= gs.drop_last());
    }
}

/// Grouping neither loses nor repeats a simulation: all the groups together
/// hold exactly as many ids as there are pairs.
pub proof fn lemma_grouping_total(ps: Seq<(Seq<char>, usize)>, gs: Seq<(Seq<char>, Seq<usize>)>)
    requires
        is_grouping(ps, gs),
    ensures
        total_ids(gs) == ps.len(),
    decreases ps.len(),
{
    if ps.len() == 0 {
        if gs.len() > 0 {
            assert(gs[0].1 == ids_with_tag(ps, gs[0].0));
        }
    } else {
        let prev = ps.drop_last();
        let t = ps.last().0;
        let last = ps.len() - 1;
        assert(ps[last].0 == t);
        let k = choose|i: int| 0 <= i < gs.len() && #[trigger] gs[i].0 == ps[last].0;
        assert(gs[k].1 == ids_with_tag(ps, t));
        let rest = ids_with_tag(prev, t);
        assert(ids_with_tag(ps, t) == rest.push(ps.last().1));
        assert forall|i: int| 0 <= i < gs.len() && i != k implies #[trigger] gs[i].1 == ids_with_tag(
            prev,
            gs[i].0,
        ) by {
            assert(gs[i].0 != t);
            assert(gs[i].1 == ids_with_tag(ps, gs[i].0));
        }
        if rest.len() > 0 {
            let g2 = gs.update(k, (t, rest));
            assert forall|i: int| 0 <= i < g2.len() implies #[trigger] g2[i].1 == ids_with_tag(
                prev,
                g2[i].0,
            ) && g2[i].1.len() > 0 by {
                if i != k {
                    assert(g2[i] == gs[i]);
                    assert(gs[i].1 == ids_with_tag(ps, gs[i].0));
                }
            }
            assert forall|m: int| 0 <= m < prev.len() implies exists|i: int|
                0 <= i < g2.len() && #[trigger] g2[i].0 == #[trigger] prev[m].0 by {
                assert(prev[m] == ps[m]);
                let i = choose|i: int| 0 <= i < gs.len() && #[trigger] gs[i].0 == #[trigger] ps[m].0;
                assert(g2[i].0 == gs[i].0);
            }
            lemma_grouping_total(prev, g2);
            lemma_total_ids_update(gs, k, (t, rest));
        } else {
            let g2 = gs.remove(k);
            assert forall|i: int| 0 <= i < g2.len() implies #[trigger] g2[i].1 == ids_with_tag(
                prev,
                g2[i].0,
            ) && g2[i].1.len() > 0 by {
                let j = if i < k { i } else { i + 1 };
                assert(g2[i] == gs[j]);
                assert(gs[j].1 == ids_with_tag(ps, gs[j].0));
            }
            assert forall|a: int, b: int| 0 <= a < b < g2.len() implies g2[a].0 != g2[b].0 by {
                let ja = if a < k { a } else { a + 1 };
                let jb = if b < k { b } else { b + 1 };
                assert(g2[a] == gs[ja] && g2[b] == gs[jb]);
            }
            assert forall|m: int| 0 <= m < prev.len() implies exists|i: int|
                0 <= i < g2.len() && #[trigger] g2[i].0 == #[trigger] prev[m].0 by {
                assert(prev[m] == ps[m]);
                let i = choose|i: int| 0 <= i < gs.len() && #[trigger] gs[i].0 == #[trigger] ps[m].0;
                if i == k {
                    lemma_grouping_keeps_every_id(prev, m);
                    assert(false);
                }
                let j = if i < k { i } else { i - 1 };
                assert(g2[j] == gs[i]);
            }
            lemma_grouping_total(prev, g2);
            lemma_total_ids_remove(gs, k);
        }
    }
}

/// The ids of a tag are as many as the pairs that carry it.
proof fn lemma_ids_with_tag_len(ps: Seq<(Seq<char>, usize)>, t: Seq<char>)
    ensures
        ids_with_tag(ps, t).len() == ps.filter(|p: (Seq<char>, usize)| p.0 == t).len(),
    decreases ps.len(),
{
    let pred = |p: (Seq<char>, usize)| p.0 == t;
    if ps.len() > 0 {
        lemma_ids_with_tag_len(ps.drop_last(), t);
        assert(ps.drop_last().push(ps.last()) =~= ps);
        ps.drop_last().lemma_filter_push(ps.last(), pred);
    } else {
        assert(ps.filter(pred) =~= Seq::<(Seq<char>, usize)>::empty());
    }
}

/// The ids of a tag are those of the pairs that carry it, kept in the
/// order of the pairs.
pub proof fn lemma_ids_with_tag_in_order(ps: Seq<(Seq<char>, usize)>, t: Seq<char>)
    ensures
        ids_with_tag(ps, t) == ps.filter(|p: (Seq<char>, usize)| p.0 == t).map_values(
            |p: (Seq<char>, usize)| p.1,
        ),
    decreases ps.len(),
{
    let pred = |p: (Seq<char>, usize)| p.0 == t;
    let proj = |p: (Seq<char>, usize)| p.1;
    if ps.len() == 0 {
        assert(ps.filter(pred) =~= Seq::<(Seq<char>, usize)>::empty());
        assert(ps.filter(pred).map_values(proj) =~= Seq::<usize>::empty());
    } else {
        lemma_ids_with_tag_in_order(ps.drop_last(), t);
        assert(ps.drop_last().push(ps.last()) =~= ps);
        ps.drop_last().lemma_filter_push(ps.last(), pred);
        if pred(ps.last()) {
            assert(ps.drop_last().filter(pred).push(ps.last()).map_values(proj) =~= ps.drop_last().filter(
                pred,
            ).map_values(proj).push(ps.last().1));
        }
    }
}

/// A tag that no pair carries has no ids.
proof fn lemma_ids_with_absent_tag(ps: Seq<(Seq<char>, usize)>, t: Seq<char>)
    requires
        forall|k: int| 0 <= k < ps.len() ==> ps[k].0 != t,
    ensures
        ids_with_tag(ps, t) == Seq::<usize>::empty(),
    decreases ps.len(),
{
    if ps.len() > 0 {
        lemma_ids_with_absent_tag(ps.drop_last(), t);
    }
}

/// The simulations grouped by tag: for each tag among the `(tag, id)` pairs
/// that the listing of saved simulations gives, the ids saved under it, in
/// the order of the listing.
pub fn list_simulations_by_tag(pairs: Vec<(String, usize)>) -> (groups: Vec<(String, Vec<usize>)>)
    ensures
        is_grouping(pairs_view(pairs@), groups_view(groups@)),
        total_ids(groups_view(groups@)) == pairs@.len(),
{
    let ghost ps = pairs_view(pairs@);
    let mut groups: Vec<(String, Vec<usize>)> = Vec::new();
    let mut k: usize = 0;
    assert(ps.take(0) =~= Seq::<(Seq<char>, usize)>::empty());
    while k < pairs.len()
        invariant
            k <= pairs.len(),
            ps == pairs_view(pairs@),
            is_grouping(ps.take(k as int), groups_view(groups@)),
        decreases pairs.len() - k,
    {
        let tag = pairs[k].0.clone();
        let id = pairs[k].1;
        let ghost before = groups_view(groups@);
        let ghost prefix = ps.take(k as int);
        let ghost next = ps.take(k + 1);
        assert(ps[k as int] == (tag@, id));
        assert(next =~= prefix.push((tag@, id)));
        assert(next.drop_last() =~= prefix);
        let mut j: usize = 0;
        while j < groups.len() && !(groups[j].0 == tag)
            invariant
                j <= groups.len(),
                before == groups_view(groups@),
                forall|i: int| 0 <= i < j ==> before[i].0 != tag@,
            decreases groups.len() - j,
        {
            j = j + 1;
        }
        if j < groups.len() {
            let (t, mut ids) = groups.remove(j);
            ids.push(id);
            groups.insert(j, (t, ids));
            let ghost after = groups_view(groups@);
            assert(after =~= before.update(j as int, (tag@, before[j as int].1.push(id))));
            assert forall|i: int| 0 <= i < after.len() implies #[trigger] after[i].1 == ids_with_tag(
                next,
                after[i].0,
            ) && after[i].1.len() > 0 by {
                assert(after[i].1 == ids_with_tag(next, after[i].0));
            }
            assert forall|m: int| 0 <= m < next.len() implies exists|i: int|
                0 <= i < after.len() && #[trigger] after[i].0 == #[trigger] next[m].0 by {
                if m < k {
                    assert(next[m] == prefix[m]);
                    let i = choose|i: int| 0 <= i < before.len() && before[i].0 == prefix[m].0;
                    assert(after[i].0 == next[m].0);
                } else {
                    assert(after[j as int].0 == next[m].0);
                }
            }
        } else {
            proof {
                assert forall|m: int| 0 <= m < prefix.len() implies prefix[m].0 != tag@ by {
                    let i = choose|i: int| 0 <= i < before.len() && before[i].0 == prefix[m].0;
                }
                lemma_ids_with_absent_tag(prefix, tag@);
            }
            let mut ids: Vec<usize> = Vec::new();
            ids.push(id);
            groups.push((tag, ids));
            let ghost after = groups_view(groups@);
            assert(after =~= before.push((tag@, seq![id])));
            assert(ids_with_tag(next, tag@) =~= seq![id]);
            assert forall|i: int| 0 <= i < after.len() implies #[trigger] after[i].1 == ids_with_tag(
                next,
                after[i].0,
            ) && after[i].1.len() > 0 by {
                if i < before.len() {
                    assert(after[i] == before[i]);
                }
            }
            assert forall|m: int| 0 <= m < next.len() implies exists|i: int|
                0 <= i < after.len() && #[trigger] after[i].0 == #[trigger] next[m].0 by {
                if m < k {
                    assert(next[m] == prefix[m]);
                    let i = choose|i: int| 0 <= i < before.len() && before[i].0 == prefix[m].0;
                    assert(after[i].0 == next[m].0);
                } else {
                    assert(after[before.len() as int].0 == next[m].0);
                }
            }
        }
        k = k + 1;
    }
    assert(ps.take(pairs.len() as int) =~= ps);
    proof {
        lemma_grouping_total(ps, groups_view(groups@));
    }
    groups
}

/// The ids of the simulations saved under `tag`, in the order of the
/// listing of `(tag, id)` pairs: those that an export by tag writes out.
pub fn ids_of_tag(pairs: &Vec<(String, usize)>, tag: &str) -> (ids: Vec<usize>)
    ensures
        ids@ == ids_with_tag(pairs_view(pairs@), tag@),
{
    let ghost ps = pairs_view(pairs@);
    let mut ids: Vec<usize> = Vec::new();
    let mut k: usize = 0;
    assert(ps.take(0) =~= Seq::<(Seq<char>, usize)>::empty());
    while k < pairs.len()
        invariant
            k <= pairs.len(),
            ps == pairs_view(pairs@),
            ids@ == ids_with_tag(ps.take(k as int), tag@),
        decreases pairs.len() - k,
    {
        assert(ps.take(k + 1).drop_last() =~= ps.take(k as int));
        assert(ps[k as int] == (pairs@[k as int].0@, pairs@[k as int].1));
        if str_eq(pairs[k].0.as_str(), tag) {
            ids.push(pairs[k].1);
        }
        k = k + 1;
    }
    assert(ps.take(pairs.len() as int) =~= ps);
    ids
}

/// Whether two texts are equal.
fn str_eq(a: &str, b: &str) -> (r: bool)
    ensures
        r == (a@ == b@),
{
    let la = a.unicode_len();
    if la != b.unicode_len() {
        return false;
    }
    let mut i: usize = 0;
    while i < la
        invariant
            la == a@.len(),
            la == b@.len(),
            i <= la,
            forall|j: int| 0 <= j < i ==> a@[j] == b@[j],
        decreases la - i,
    {
        if a.get_char(i) != b.get_char(i) {
            return false;
        }
        i = i + 1;
    }
    assert(a@ =~= b@);
    true
}

} // verus!
