use crate::dist::DIM_MAX;
use crate::dist::dist2;
use crate::dist::dist2_exec;
use vstd::prelude::*;
use vstd::relations::sorted_by;
use vstd::relations::total_ordering;
use vstd::seq_lib::lemma_multiset_commutative;
use vstd::seq_lib::lemma_sorted_unique;

verus! {

/// The entries of an index as mathematical pairs of id and coordinates.
pub open spec fn entries_view(entries: Seq<(u64, Vec<i32>)>) -> Seq<(u64, Seq<i32>)> {
    entries.map_values(|e: (u64, Vec<i32>)| (e.0, e.1@))
}

/// The order a search ranks scored entries by: ascending squared distance,
/// with ties in distance broken toward the smaller id.
pub open spec fn score_le(x: (int, u64), y: (int, u64)) -> bool {
    x.0 < y.0 || (x.0 == y.0 && x.1 <= y.1)
}

/// The ranking as a relation value, for the sorting lemmas.
pub open spec fn score_leq() -> spec_fn((int, u64), (int, u64)) -> bool {
    |x: (int, u64), y: (int, u64)| score_le(x, y)
}

/// The ranking is a total order, so a sorted arrangement of scores is
/// unique.
pub proof fn lemma_score_leq_total()
    ensures
        total_ordering(score_leq()),
{
}

/// Every entry scored against the query: the squared distance to the query
/// paired with the entry's id.
pub open spec fn scores_of(entries: Seq<(u64, Seq<i32>)>, q: Seq<i32>) -> Seq<(int, u64)> {
    entries.map_values(|e: (u64, Seq<i32>)| (dist2(e.1, q), e.0))
}

/// What a search returns: the ids of the k best-ranked entries, in ranking
/// order; all of them when the index holds fewer than k.
pub open spec fn search_spec(entries: Seq<(u64, Seq<i32>)>, q: Seq<i32>, k: int) -> Seq<u64> {
    let sorted = scores_of(entries, q).sort_by(score_leq());
    let n = if k < sorted.len() { k } else { sorted.len() as int };
    sorted.take(n).map_values(|p: (int, u64)| p.1)
}

/// True when some entry of the index carries the given id.
pub open spec fn has_entry_id(entries: Seq<(u64, Seq<i32>)>, id: u64) -> bool {
    crate::assoc::assoc_has(entries, id)
}

/// A search returns min(k, n) ids when the index holds n entries, and every
/// returned id is the id of some entry.
pub proof fn lemma_search_spec_props(entries: Seq<(u64, Seq<i32>)>, q: Seq<i32>, k: int)
    requires
        0 <= k,
    ensures
        search_spec(entries, q, k).len() == if k < entries.len() {
            k
        } else {
            entries.len() as int
        },
        forall|j: int|
            0 <= j < search_spec(entries, q, k).len() ==> has_entry_id(
                entries,
                #[trigger] search_spec(entries, q, k)[j],
            ),
{
    broadcast use vstd::seq_lib::group_to_multiset_ensures;
    broadcast use vstd::multiset::group_multiset_axioms;
    broadcast use vstd::seq_lib::lemma_seq_contains;

    lemma_score_leq_total();
    let scores = scores_of(entries, q);
    scores.lemma_sort_by_ensures(score_leq());
    let sorted = scores.sort_by(score_leq());
    assert(scores.to_multiset() =~= sorted.to_multiset());
    assert(scores.len() == scores.to_multiset().len());
    assert(sorted.len() == sorted.to_multiset().len());
    assert(sorted.len() == scores.len());
    let r = search_spec(entries, q, k);
    assert forall|j: int| 0 <= j < r.len() implies has_entry_id(entries, #[trigger] r[j]) by {
        let n = if k < sorted.len() {
            k
        } else {
            sorted.len() as int
        };
        assert(r[j] == sorted.take(n)[j].1);
        assert(sorted.contains(sorted[j]));
        assert(sorted.to_multiset().count(sorted[j]) > 0);
        assert(scores.to_multiset().count(sorted[j]) > 0);
        assert(scores.contains(sorted[j]));
        let i = choose|i: int| 0 <= i < scores.len() && scores[i] == sorted[j];
        assert(scores[i] == (dist2(entries[i].1, q), entries[i].0));
        assert(0 <= i < entries.len() && entries[i].0 == r[j]);
    }
}

/// When exactly one entry's vector equals the query and at least one result
/// is asked for, a search finds it: that entry's id comes back first.
pub proof fn lemma_unique_exact_match_first(
    entries: Seq<(u64, Seq<i32>)>,
    q: Seq<i32>,
    k: int,
    i: int,
)
    requires
        1 <= k,
        0 <= i < entries.len(),
        entries[i].1 == q,
        forall|m: int| 0 <= m < entries.len() ==> (#[trigger] entries[m].1).len() == q.len(),
        forall|m: int| 0 <= m < entries.len() && m != i ==> (#[trigger] entries[m].1) != q,
    ensures
        search_spec(entries, q, k).len() >= 1,
        search_spec(entries, q, k)[0] == entries[i].0,
{
    broadcast use vstd::seq_lib::group_to_multiset_ensures;
    broadcast use vstd::multiset::group_multiset_axioms;
    broadcast use vstd::seq_lib::lemma_seq_contains;

    lemma_score_leq_total();
    let scores = scores_of(entries, q);
    scores.lemma_sort_by_ensures(score_leq());
    let sorted = scores.sort_by(score_leq());
    assert(scores.to_multiset() =~= sorted.to_multiset());
    assert(scores.len() == scores.to_multiset().len());
    assert(sorted.len() == sorted.to_multiset().len());
    assert(sorted.len() == scores.len());
    crate::dist::lemma_dist2_zero_iff(entries[i].1, q);
    assert(scores[i] == (0int, entries[i].0));
    assert forall|m: int| 0 <= m < scores.len() && m != i implies (#[trigger] scores[m]).0 > 0 by {
        crate::dist::lemma_dist2_zero_iff(entries[m].1, q);
        crate::dist::lemma_dist2_nonneg(entries[m].1, q);
    }
    assert(scores.contains(scores[i]));
    assert(scores.to_multiset().count(scores[i]) > 0);
    assert(sorted.to_multiset().count(scores[i]) > 0);
    assert(sorted.contains(scores[i]));
    let p = choose|p: int| 0 <= p < sorted.len() && sorted[p] == scores[i];
    if p > 0 {
        assert(score_leq()(sorted[0], sorted[p]));
        assert(score_le(sorted[0], (0int, entries[i].0)));
        assert(sorted.contains(sorted[0]));
        assert(scores.contains(sorted[0]));
        let m0 = choose|m0: int| 0 <= m0 < scores.len() && scores[m0] == sorted[0];
        crate::dist::lemma_dist2_nonneg(entries[m0].1, q);
        assert(sorted[0].0 == 0);
        if m0 != i {
            assert(scores[m0].0 > 0);
            assert(false);
        }
        assert(sorted[0] == scores[i]);
    } else {
        assert(sorted[0] == scores[i]);
    }
    assert(search_spec(entries, q, k)[0] == sorted.take(
        if k < sorted.len() {
            k
        } else {
            sorted.len() as int
        },
    )[0].1);
}

/// A search never returns an id that no entry carries: once an id's entry
/// is removed from the index, no query returns that id any more.
pub proof fn lemma_absent_id_not_returned(entries: Seq<(u64, Seq<i32>)>, q: Seq<i32>, k: int, id: u64)
    requires
        0 <= k,
        !has_entry_id(entries, id),
    ensures
        forall|j: int|
            0 <= j < search_spec(entries, q, k).len() ==> #[trigger] search_spec(entries, q, k)[j]
                != id,
{
    lemma_search_spec_props(entries, q, k);
}

/// The scores of an executable score list.
pub open spec fn scores_view(s: Seq<(i128, u64)>) -> Seq<(int, u64)> {
    s.map_values(|p: (i128, u64)| (p.0 as int, p.1))
}

fn score_le_exec(x: (i128, u64), y: (i128, u64)) -> (r: bool)
    ensures
        r == score_le((x.0 as int, x.1), (y.0 as int, y.1)),
{
    x.0 < y.0 || (x.0 == y.0 && x.1 <= y.1)
}

/// Searches the given index entries for the (up to) k entries closest to
/// the query, ranking by ascending squared distance with ties broken toward
/// the smaller id.
pub fn search_entries(entries: &Vec<(u64, Vec<i32>)>, q: &Vec<i32>, k: usize) -> (r: Vec<u64>)
    requires
        q@.len() <= DIM_MAX,
        forall|i: int|
            0 <= i < entries@.len() ==> (#[trigger] entries@[i].1)@.len() == q@.len(),
    ensures
        r@ == search_spec(entries_view(entries@), q@, k as int),
{
    broadcast use vstd::seq_lib::group_to_multiset_ensures;
    broadcast use vstd::multiset::group_multiset_axioms;

    let ghost eview = entries_view(entries@);
    let ghost target = scores_of(eview, q@);

    let mut scored: Vec<(i128, u64)> = Vec::new();
    let mut i: usize = 0;
    while i < entries.len()
        invariant
            i <= entries@.len(),
            scored@.len() == i,
            scores_view(scored@) == target.take(i as int),
        decreases entries@.len() - i,
    {
        let d = dist2_exec(&entries[i].1, q);
        scored.push((d, entries[i].0));
        proof {
            assert(scores_view(scored@) =~= target.take(i + 1 as int));
        }
        i = i + 1;
    }
    proof {
        assert(target.take(target.len() as int) =~= target);
    }

    let mut out: Vec<(i128, u64)> = Vec::new();
    i = 0;
    while i < scored.len()
        invariant
            i <= scored@.len(),
            out@.len() == i,
            sorted_by(scores_view(out@), score_leq()),
            scores_view(out@).to_multiset() == scores_view(scored@.take(i as int)).to_multiset(),
        decreases scored@.len() - i,
    {
        let x = scored[i];
        let ghost xs = (x.0 as int, x.1);
        let mut j: usize = 0;
        while j < out.len() && score_le_exec(out[j], x)
            invariant
                j <= out@.len(),
                forall|m: int| 0 <= m < j ==> score_le(#[trigger] scores_view(out@)[m], xs),
            decreases out@.len() - j,
        {
            j = j + 1;
        }
        let ghost old_view = scores_view(out@);
        out.insert(j, x);
        proof {
            let new_view = scores_view(out@);
            assert(new_view =~= old_view.insert(j as int, xs));
            assert(forall|m: int| 0 <= m < j ==> score_le(#[trigger] old_view[m], xs));
            if (j as int) < old_view.len() {
                assert(score_le(xs, old_view[j as int]));
            }
            // The inserted element ranks at or after everything before it
            // and at or before everything after it, so the list stays
            // sorted.
            assert forall|a: int, b: int| 0 <= a < b < new_view.len() implies #[trigger] score_leq()(
                new_view[a],
                new_view[b],
            ) by {
                if a < j {
                    assert(new_view[a] == old_view[a]);
                }
                if (j as int) < a {
                    assert(new_view[a] == old_view[a - 1]);
                }
                if b < j {
                    assert(new_view[b] == old_view[b]);
                }
                if (j as int) < b {
                    assert(new_view[b] == old_view[b - 1]);
                }
                if a < b && b < j {
                    assert(score_leq()(old_view[a], old_view[b]));
                } else if a == j && (j as int) < b {
                    if (j as int) < b - 1 {
                        assert(score_leq()(old_view[j as int], old_view[b - 1]));
                    }
                } else if a < j && (j as int) < b {
                    if a < b - 1 {
                        assert(score_leq()(old_view[a], old_view[b - 1]));
                    }
                } else if (j as int) < a {
                    assert(score_leq()(old_view[a - 1], old_view[b - 1]));
                }
            }
            assert(sorted_by(new_view, score_leq()));
            // The new list holds exactly the old scores plus the new one.
            let sub0 = old_view.subrange(0, j as int);
            let sub1 = old_view.subrange(j as int, old_view.len() as int);
            assert(old_view.insert(j as int, xs) == sub0.push(xs) + sub1);
            lemma_multiset_commutative(sub0.push(xs), sub1);
            lemma_multiset_commutative(sub0, sub1);
            assert(sub0 + sub1 =~= old_view);
            assert(new_view.to_multiset() =~= old_view.to_multiset().insert(xs));
            assert(scored@.take(i + 1 as int) =~= scored@.take(i as int).push(x));
            assert(scores_view(scored@.take(i + 1 as int)) =~= scores_view(
                scored@.take(i as int),
            ).push(xs));
        }
        i = i + 1;
    }
    proof {
        assert(scored@.take(scored@.len() as int) =~= scored@);
        lemma_score_leq_total();
        target.lemma_sort_by_ensures(score_leq());
        lemma_sorted_unique(scores_view(out@), target.sort_by(score_leq()), score_leq());
        assert(scores_view(out@) == target.sort_by(score_leq()));
    }

    let n: usize = if k < out.len() {
        k
    } else {
        out.len()
    };
    let mut ids: Vec<u64> = Vec::new();
    let mut m: usize = 0;
    while m < n
        invariant
            m <= n,
            ids@.len() == m,
            forall|a: int| 0 <= a < m ==> ids@[a] == scores_view(out@)[a].1,
        decreases n - m,
    {
        ids.push(out[m].1);
        m = m + 1;
    }
    proof {
        let sorted = target.sort_by(score_leq());
        let nn = if (k as int) < sorted.len() {
            k as int
        } else {
            sorted.len() as int
        };
        assert(ids@ =~= sorted.take(nn).map_values(|p: (int, u64)| p.1));
    }
    ids
}

} // verus!
