use vstd::prelude::*;

verus! {

/// True when the association sequence holds a pair with the given id.
pub open spec fn assoc_has<V>(s: Seq<(u64, V)>, id: u64) -> bool {
    exists|i: int| 0 <= i < s.len() && (#[trigger] s[i]).0 == id
}

/// The position of the pair with the given id; under `assoc_unique` there
/// is at most one.
pub open spec fn assoc_index<V>(s: Seq<(u64, V)>, id: u64) -> int {
    choose|i: int| 0 <= i < s.len() && (#[trigger] s[i]).0 == id
}

/// The value the given id maps to.
pub open spec fn assoc_get<V>(s: Seq<(u64, V)>, id: u64) -> V {
    s[assoc_index(s, id)].1
}

/// True when the ids of the sequence are pairwise distinct: the sequence
/// is a mapping.
pub open spec fn assoc_unique<V>(s: Seq<(u64, V)>) -> bool {
    forall|i: int, j: int| 0 <= i < j < s.len() ==> (#[trigger] s[i]).0 != (#[trigger] s[j]).0
}

/// Binds the id to the value: in place when the id is present, appended
/// otherwise.
pub open spec fn assoc_upsert<V>(s: Seq<(u64, V)>, id: u64, v: V) -> Seq<(u64, V)> {
    if assoc_has(s, id) {
        s.update(assoc_index(s, id), (id, v))
    } else {
        s.push((id, v))
    }
}

/// Binds every pair, in order.
pub open spec fn assoc_upsert_all<V>(s: Seq<(u64, V)>, pairs: Seq<(u64, V)>) -> Seq<(u64, V)>
    decreases pairs.len(),
{
    if pairs.len() == 0 {
        s
    } else {
        assoc_upsert(assoc_upsert_all(s, pairs.drop_last()), pairs.last().0, pairs.last().1)
    }
}

/// Removes every pair whose id is listed, keeping the order of the rest.
pub open spec fn assoc_remove_ids<V>(s: Seq<(u64, V)>, ids: Seq<u64>) -> Seq<(u64, V)> {
    s.filter(|e: (u64, V)| !ids.contains(e.0))
}

/// Binding an id keeps the mapping a mapping; afterwards the id maps to the
/// new value, everything else is untouched, and every pair of the result
/// comes from the old mapping or is the new pair.
pub proof fn lemma_assoc_upsert<V>(s: Seq<(u64, V)>, id: u64, v: V)
    requires
        assoc_unique(s),
    ensures
        assoc_unique(assoc_upsert(s, id, v)),
        forall|x: u64| assoc_has(assoc_upsert(s, id, v), x) <==> assoc_has(s, x) || x == id,
        assoc_has(assoc_upsert(s, id, v), id),
        assoc_get(assoc_upsert(s, id, v), id) == v,
        forall|x: u64|
            x != id && assoc_has(s, x) ==> assoc_get(assoc_upsert(s, id, v), x) == assoc_get(s, x)
                && assoc_index(assoc_upsert(s, id, v), x) == assoc_index(s, x),
        forall|j: int|
            0 <= j < assoc_upsert(s, id, v).len() ==> (#[trigger] assoc_upsert(s, id, v)[j]) == (
            id,
            v,
        ) || s.contains(assoc_upsert(s, id, v)[j]),
{
    let r = assoc_upsert(s, id, v);
    if assoc_has(s, id) {
        let p = assoc_index(s, id);
        assert(0 <= p < s.len() && s[p].0 == id);
        assert forall|x: u64| assoc_has(r, x) implies assoc_has(s, x) || x == id by {
            let i = choose|i: int| 0 <= i < r.len() && (#[trigger] r[i]).0 == x;
            if i != p {
                assert(s[i].0 == x);
            }
        }
        assert(r[p].0 == id);
        assert(assoc_has(r, id));
        let p2 = assoc_index(r, id);
        assert(0 <= p2 < r.len() && r[p2].0 == id);
        if p2 != p {
            assert(s[p2].0 == id);
            assert(false);
        }
        assert forall|x: u64| x != id && assoc_has(s, x) implies assoc_get(r, x) == assoc_get(
            s,
            x,
        ) && assoc_index(r, x) == assoc_index(s, x) by {
            let i = assoc_index(s, x);
            assert(0 <= i < s.len() && s[i].0 == x);
            assert(i != p);
            assert(r[i].0 == x);
            assert(assoc_has(r, x));
            let i2 = assoc_index(r, x);
            assert(0 <= i2 < r.len() && r[i2].0 == x);
            if i2 != i {
                assert(i2 != p);
                assert(s[i2].0 == x);
                assert(false);
            }
        }
        assert forall|j: int| 0 <= j < r.len() implies (#[trigger] r[j]) == (id, v) || s.contains(
            r[j],
        ) by {
            if j != p {
                assert(r[j] == s[j]);
            }
        }
    } else {
        assert(r == s.push((id, v)));
        assert(r[s.len() as int].0 == id);
        assert(assoc_has(r, id));
        assert forall|x: u64| assoc_has(r, x) implies assoc_has(s, x) || x == id by {
            let i = choose|i: int| 0 <= i < r.len() && (#[trigger] r[i]).0 == x;
            if i < s.len() {
                assert(s[i].0 == x);
            }
        }
        assert(assoc_unique(r)) by {
            assert forall|i: int, j: int| 0 <= i < j < r.len() implies (#[trigger] r[i]).0 != (
            #[trigger] r[j]).0 by {
                if j == s.len() {
                    assert(r[i].0 == s[i].0);
                    assert(!assoc_has(s, id));
                    if s[i].0 == id {
                        assert(assoc_has(s, id));
                    }
                }
            }
        }
        let p2 = assoc_index(r, id);
        assert(0 <= p2 < r.len() && r[p2].0 == id);
        if p2 != s.len() {
            assert(s[p2].0 == id);
            assert(assoc_has(s, id));
            assert(false);
        }
        assert forall|x: u64| x != id && assoc_has(s, x) implies assoc_get(r, x) == assoc_get(
            s,
            x,
        ) && assoc_index(r, x) == assoc_index(s, x) by {
            let i = assoc_index(s, x);
            assert(0 <= i < s.len() && s[i].0 == x);
            assert(r[i].0 == x);
            assert(assoc_has(r, x));
            let i2 = assoc_index(r, x);
            assert(0 <= i2 < r.len() && r[i2].0 == x);
            if i2 != i {
                if i2 == s.len() {
                    assert(r[i2].0 == id);
                    assert(false);
                }
                assert(s[i2].0 == x);
                assert(false);
            }
        }
        assert forall|j: int| 0 <= j < r.len() implies (#[trigger] r[j]) == (id, v) || s.contains(
            r[j],
        ) by {
            if j < s.len() {
                assert(r[j] == s[j]);
            }
        }
    }
}

/// Removing ids keeps the mapping a mapping; afterwards exactly the ids not
/// listed remain, with their values untouched, and every pair of the result
/// comes from the old mapping.
pub proof fn lemma_assoc_remove_ids<V>(s: Seq<(u64, V)>, ids: Seq<u64>)
    requires
        assoc_unique(s),
    ensures
        assoc_unique(assoc_remove_ids(s, ids)),
        forall|x: u64|
            assoc_has(assoc_remove_ids(s, ids), x) <==> assoc_has(s, x) && !ids.contains(x),
        forall|j: int|
            0 <= j < assoc_remove_ids(s, ids).len() ==> s.contains(
                #[trigger] assoc_remove_ids(s, ids)[j],
            ),
    decreases s.len(),
{
    reveal(Seq::filter);
    let r = assoc_remove_ids(s, ids);
    if s.len() == 0 {
    } else {
        let butlast = s.drop_last();
        assert(assoc_unique(butlast));
        lemma_assoc_remove_ids(butlast, ids);
        let rb = assoc_remove_ids(butlast, ids);
        if !ids.contains(s.last().0) {
            assert(r == rb.push(s.last()));
        } else {
            assert(r == rb);
        }
        assert forall|j: int| 0 <= j < r.len() implies s.contains(#[trigger] r[j]) by {
            if j < rb.len() {
                assert(rb[j] == r[j]);
                assert(butlast.contains(rb[j]));
                let i = choose|i: int| 0 <= i < butlast.len() && butlast[i] == rb[j];
                assert(s[i] == r[j]);
            } else {
                assert(r[j] == s.last());
                assert(s[s.len() - 1] == r[j]);
            }
        }
        assert forall|x: u64| assoc_has(r, x) implies assoc_has(s, x) && !ids.contains(x) by {
            let j = choose|j: int| 0 <= j < r.len() && (#[trigger] r[j]).0 == x;
            if j < rb.len() {
                assert(assoc_has(rb, x));
            } else {
                assert(r[j] == s.last());
            }
            assert(s.contains(r[j]));
            let i = choose|i: int| 0 <= i < s.len() && s[i] == r[j];
        }
        assert forall|x: u64| assoc_has(s, x) && !ids.contains(x) implies assoc_has(r, x) by {
            let i = choose|i: int| 0 <= i < s.len() && (#[trigger] s[i]).0 == x;
            if i < s.len() - 1 {
                assert(butlast[i].0 == x);
                assert(assoc_has(butlast, x));
                let m = choose|m: int| 0 <= m < rb.len() && (#[trigger] rb[m]).0 == x;
                assert(r[m].0 == x);
            } else {
                assert(!ids.contains(s.last().0));
                assert(r[rb.len() as int].0 == x);
            }
        }
        assert(assoc_unique(r)) by {
            assert forall|i: int, j: int| 0 <= i < j < r.len() implies (#[trigger] r[i]).0 != (
            #[trigger] r[j]).0 by {
                assert(s.contains(r[i]));
                assert(s.contains(r[j]));
                let a = choose|a: int| 0 <= a < s.len() && s[a] == r[i];
                let b = choose|b: int| 0 <= b < s.len() && s[b] == r[j];
                if r[i].0 == r[j].0 {
                    if a != b {
                    } else {
                        assert(r[i] == r[j]);
                        if j < rb.len() {
                            assert(assoc_unique(rb));
                        } else {
                            assert(r[j] == s.last());
                            assert(rb.contains(r[i]));
                            let m = choose|m: int| 0 <= m < butlast.len() && butlast[m] == r[i];
                            assert(s[m] == s.last());
                            assert(s[m].0 == s[s.len() - 1].0);
                        }
                    }
                }
            }
        }
    }
}

/// Keeping the head of a sequence under a filter keeps it first.
pub proof fn lemma_filter_keeps_head<A>(s: Seq<A>, pred: spec_fn(A) -> bool)
    requires
        s.len() > 0,
        pred(s[0]),
    ensures
        s.filter(pred).len() > 0,
        s.filter(pred)[0] == s[0],
    decreases s.len(),
{
    reveal(Seq::filter);
    if s.len() == 1 {
        assert(s.drop_last().len() == 0);
    } else {
        assert(s.drop_last()[0] == s[0]);
        lemma_filter_keeps_head(s.drop_last(), pred);
    }
}

/// Removing an absent id changes nothing.
pub proof fn lemma_assoc_remove_absent<V>(s: Seq<(u64, V)>, id: u64)
    requires
        !assoc_has(s, id),
    ensures
        assoc_remove_ids(s, seq![id]) == s,
    decreases s.len(),
{
    reveal(Seq::filter);
    if s.len() == 0 {
        assert(assoc_remove_ids(s, seq![id]) =~= s);
    } else {
        assert(!assoc_has(s.drop_last(), id)) by {
            if assoc_has(s.drop_last(), id) {
                let i = choose|i: int|
                    0 <= i < s.drop_last().len() && (#[trigger] s.drop_last()[i]).0 == id;
                assert(s[i].0 == id);
            }
        }
        lemma_assoc_remove_absent(s.drop_last(), id);
        assert(s[s.len() - 1].0 != id) by {
            if s[s.len() - 1].0 == id {
                assert(assoc_has(s, id));
            }
        }
        assert(!seq![id].contains(s.last().0)) by {
            if seq![id].contains(s.last().0) {
                assert(seq![id][0] == id);
            }
        }
        assert(assoc_remove_ids(s, seq![id]) =~= s.drop_last().push(s.last()));
        assert(s.drop_last().push(s.last()) =~= s);
    }
}

/// Removing one present id of a mapping removes exactly its pair.
pub proof fn lemma_assoc_remove_single<V>(s: Seq<(u64, V)>, p: int, id: u64)
    requires
        assoc_unique(s),
        0 <= p < s.len(),
        s[p].0 == id,
    ensures
        assoc_remove_ids(s, seq![id]) == s.remove(p),
    decreases s.len(),
{
    reveal(Seq::filter);
    assert(seq![id].contains(id)) by {
        assert(seq![id][0] == id);
    }
    if p == s.len() - 1 {
        assert(!assoc_has(s.drop_last(), id)) by {
            if assoc_has(s.drop_last(), id) {
                let i = choose|i: int|
                    0 <= i < s.drop_last().len() && (#[trigger] s.drop_last()[i]).0 == id;
                assert(s[i].0 == id && i < p);
            }
        }
        lemma_assoc_remove_absent(s.drop_last(), id);
        assert(s.last().0 == id);
        assert(assoc_remove_ids(s, seq![id]) =~= s.drop_last());
        assert(s.remove(p) =~= s.drop_last());
    } else {
        assert(s.last().0 != id) by {
            if s[s.len() - 1].0 == id {
                assert(s[p].0 == s[s.len() - 1].0);
            }
        }
        assert(!seq![id].contains(s.last().0)) by {
            if seq![id].contains(s.last().0) {
                assert(seq![id][0] == id);
            }
        }
        assert(assoc_unique(s.drop_last()));
        assert(s.drop_last()[p].0 == id);
        lemma_assoc_remove_single(s.drop_last(), p, id);
        assert(assoc_remove_ids(s, seq![id]) =~= s.drop_last().remove(p).push(s.last()));
        assert(s.drop_last().remove(p).push(s.last()) =~= s.remove(p));
    }
}

/// Removes the pair with the given id from the executable mapping, if one
/// is there.
pub fn assoc_remove_id_exec<V>(s: &mut Vec<(u64, V)>, id: u64)
    requires
        assoc_unique(old(s)@),
    ensures
        final(s)@ == assoc_remove_ids(old(s)@, seq![id]),
{
    match assoc_find(s, id) {
        Some(p) => {
            let ghost orig = s@;
            s.remove(p);
            proof {
                lemma_assoc_remove_single(orig, p as int, id);
            }
        },
        None => {
            proof {
                lemma_assoc_remove_absent(s@, id);
            }
        },
    }
}

/// Looks an id up, giving some position that holds it.
pub fn assoc_find<V>(s: &Vec<(u64, V)>, id: u64) -> (r: Option<usize>)
    ensures
        r is Some ==> r->0 < s@.len() && s@[r->0 as int].0 == id,
        r is None ==> !assoc_has(s@, id),
{
    let mut i: usize = 0;
    while i < s.len()
        invariant
            i <= s@.len(),
            forall|m: int| 0 <= m < i ==> (#[trigger] s@[m]).0 != id,
        decreases s@.len() - i,
    {
        if s[i].0 == id {
            return Some(i);
        }
        i = i + 1;
    }
    None
}

/// Binds the id to the value in the executable mapping.
pub fn assoc_upsert_exec<V>(s: &mut Vec<(u64, V)>, id: u64, v: V)
    requires
        assoc_unique(old(s)@),
    ensures
        final(s)@ == assoc_upsert(old(s)@, id, v),
{
    match assoc_find(s, id) {
        Some(p) => {
            let ghost orig = s@;
            s.remove(p);
            s.insert(p, (id, v));
            proof {
                assert(assoc_has(orig, id));
                let pi = assoc_index(orig, id);
                assert(0 <= pi < orig.len() && orig[pi].0 == id);
                if pi != p as int {
                    assert(orig[p as int].0 == orig[pi].0);
                    assert(false);
                }
                assert(s@ =~= orig.update(p as int, (id, v)));
            }
        },
        None => {
            s.push((id, v));
        },
    }
}

} // verus!
