use crate::assoc::assoc_find;
use crate::assoc::assoc_get;
use crate::assoc::assoc_has;
use crate::assoc::assoc_remove_id_exec;
use crate::assoc::assoc_remove_ids;
use crate::assoc::assoc_unique;
use crate::assoc::assoc_upsert;
use crate::assoc::assoc_upsert_all;
use crate::assoc::assoc_upsert_exec;
use crate::assoc::lemma_assoc_remove_ids;
use crate::assoc::lemma_assoc_upsert;
use crate::dist::DIM_MAX;
use crate::error::AsimovError;
use crate::render::id_list;
use crate::render::id_list_string;
use crate::embed::Embed;
use crate::input::Embeddable;
use crate::input::Input;
use crate::input::hash_string;
use crate::input::key_render_fails;
use crate::input::key_renders_to;
use crate::input::renders_to;
use crate::input::xxhash64_of;
use crate::namespace::Namespace;
use crate::namespace::valid_namespace;
use crate::search::entries_view;
use crate::search::search_entries;
use crate::search::search_spec;
use vstd::pervasive::cloned;
use vstd::prelude::*;
use vstd::string::StringExecFns;

verus! {

/// Copies a coordinate vector.
fn copy_vec(v: &Vec<i32>) -> (r: Vec<i32>)
    ensures
        r@ == v@,
{
    let mut r: Vec<i32> = Vec::new();
    let mut i: usize = 0;
    while i < v.len()
        invariant
            i <= v@.len(),
            r@ == v@.take(i as int),
        decreases v@.len() - i,
    {
        r.push(v[i]);
        proof {
            assert(r@ =~= v@.take(i + 1 as int));
        }
        i = i + 1;
    }
    proof {
        assert(v@.take(v@.len() as int) =~= v@);
    }
    r
}

/// True when the list of ids holds the given id.
fn contains_id(ids: &Vec<u64>, id: u64) -> (r: bool)
    ensures
        r == ids@.contains(id),
{
    let mut i: usize = 0;
    while i < ids.len()
        invariant
            i <= ids@.len(),
            forall|m: int| 0 <= m < i ==> ids@[m] != id,
        decreases ids@.len() - i,
    {
        if ids[i] == id {
            return true;
        }
        i = i + 1;
    }
    false
}

/// The mapped ids and ids of an entry list agree with the raw list.
pub proof fn lemma_entries_view_assoc(s: Seq<(u64, Vec<i32>)>)
    ensures
        entries_view(s).len() == s.len(),
        forall|i: int| 0 <= i < s.len() ==> (#[trigger] entries_view(s)[i]).0 == s[i].0,
        forall|id: u64| assoc_has(entries_view(s), id) <==> assoc_has(s, id),
        assoc_unique(entries_view(s)) <==> assoc_unique(s),
{
    assert forall|id: u64| assoc_has(entries_view(s), id) implies assoc_has(s, id) by {
        let i = choose|i: int| 0 <= i < entries_view(s).len() && (#[trigger] entries_view(s)[i]).0
            == id;
        assert(s[i].0 == id);
    }
    assert forall|id: u64| assoc_has(s, id) implies assoc_has(entries_view(s), id) by {
        let i = choose|i: int| 0 <= i < s.len() && (#[trigger] s[i]).0 == id;
        assert(entries_view(s)[i].0 == id);
    }
    if assoc_unique(s) {
        assert forall|i: int, j: int| 0 <= i < j < entries_view(s).len() implies (
        #[trigger] entries_view(s)[i]).0 != (#[trigger] entries_view(s)[j]).0 by {
            assert((#[trigger] s[i]).0 != (#[trigger] s[j]).0);
        }
        assert(assoc_unique(entries_view(s)));
    }
    if assoc_unique(entries_view(s)) {
        assert forall|i: int, j: int| 0 <= i < j < s.len() implies (#[trigger] s[i]).0 != (
        #[trigger] s[j]).0 by {
            assert((#[trigger] entries_view(s)[i]).0 != (#[trigger] entries_view(s)[j]).0);
        }
        assert(assoc_unique(s));
    }
}

/// Binding a pair commutes with taking the mathematical view of the
/// entries.
pub proof fn lemma_upsert_view_commute(s: Seq<(u64, Vec<i32>)>, id: u64, v: Vec<i32>)
    requires
        assoc_unique(s),
    ensures
        entries_view(assoc_upsert(s, id, v)) == assoc_upsert(entries_view(s), id, v@),
{
    lemma_entries_view_assoc(s);
    let ev = entries_view(s);
    if assoc_has(s, id) {
        let p = crate::assoc::assoc_index(s, id);
        assert(0 <= p < s.len() && s[p].0 == id);
        let p2 = crate::assoc::assoc_index(ev, id);
        assert(assoc_has(ev, id));
        assert(0 <= p2 < ev.len() && ev[p2].0 == id);
        if p2 != p {
            assert(s[p2].0 == id);
            assert(false);
        }
        assert(entries_view(s.update(p, (id, v))) =~= ev.update(p, (id, v@)));
    } else {
        assert(!assoc_has(ev, id));
        assert(entries_view(s.push((id, v))) =~= ev.push((id, v@)));
    }
}

/// The ids of a batch that are absent from the entries, in batch order.
pub open spec fn missing_ids(entries: Seq<(u64, Seq<i32>)>, ids: Seq<u64>) -> Seq<u64> {
    ids.filter(|id: u64| !assoc_has(entries, id))
}

/// No id of a batch is missing exactly when every id of the batch is
/// present.
pub proof fn lemma_missing_ids(entries: Seq<(u64, Seq<i32>)>, ids: Seq<u64>)
    ensures
        missing_ids(entries, ids).len() == 0 <==> (forall|j: int|
            0 <= j < ids.len() ==> assoc_has(entries, #[trigger] ids[j])),
    decreases ids.len(),
{
    reveal(Seq::filter);
    if ids.len() == 0 {
    } else {
        lemma_missing_ids(entries, ids.drop_last());
        if missing_ids(entries, ids).len() == 0 {
            assert(missing_ids(entries, ids.drop_last()).len() == 0);
            assert forall|j: int| 0 <= j < ids.len() implies assoc_has(
                entries,
                #[trigger] ids[j],
            ) by {
                if j < ids.len() - 1 {
                    assert(ids.drop_last()[j] == ids[j]);
                }
            }
        } else {
            let m = missing_ids(entries, ids);
            if !assoc_has(entries, ids.last()) {
            } else {
                assert(missing_ids(entries, ids.drop_last()).len() > 0);
                let j = choose|j: int|
                    0 <= j < ids.drop_last().len() && !assoc_has(
                        entries,
                        #[trigger] ids.drop_last()[j],
                    );
                assert(ids[j] == ids.drop_last()[j]);
            }
        }
    }
}

/// A per-namespace index collection of the in-memory backend: it owns the
/// authoritative raw-vector mapping and a derived search index over it.
/// Every mutation rebuilds the index from the mapping before returning, so
/// the two are in sync whenever the collection is queryable.
pub struct HoraCollection {
    dim: usize,
    collection: Vec<(u64, Vec<i32>)>,
    store: Vec<(u64, Vec<i32>)>,
}

impl HoraCollection {
    /// The fixed dimension of the collection's vector space.
    pub closed spec fn spec_dim(&self) -> nat {
        self.dim as nat
    }

    /// The authoritative raw-vector mapping: each stored id with its
    /// vector, in insertion order.
    pub closed spec fn entries(&self) -> Seq<(u64, Seq<i32>)> {
        entries_view(self.store@)
    }

    /// The derived search index, rebuilt from the mapping after every
    /// mutation.
    pub closed spec fn index_entries(&self) -> Seq<(u64, Seq<i32>)> {
        entries_view(self.collection@)
    }

    /// True when the collection stores a vector under the id.
    pub open spec fn has_id(&self, id: u64) -> bool {
        assoc_has(self.entries(), id)
    }

    /// Well-formed: the dimension is within bounds, every stored vector
    /// has that dimension, ids are unique, and the search index holds
    /// exactly the raw-vector mapping.
    pub open spec fn wf(&self) -> bool {
        &&& self.spec_dim() <= DIM_MAX as nat
        &&& forall|i: int|
            0 <= i < self.entries().len() ==> (#[trigger] self.entries()[i]).1.len()
                == self.spec_dim()
        &&& assoc_unique(self.entries())
        &&& self.index_entries() == self.entries()
    }

    /// Creates an empty collection for vectors of the given dimension.
    pub fn new(dim: usize) -> (r: HoraCollection)
        requires
            dim <= DIM_MAX,
        ensures
            r.wf(),
            r.spec_dim() == dim as nat,
            r.entries() == Seq::<(u64, Seq<i32>)>::empty(),
    {
        let r = HoraCollection { dim, collection: Vec::new(), store: Vec::new() };
        proof {
            assert(r.entries() =~= Seq::<(u64, Seq<i32>)>::empty());
            assert(r.index_entries() =~= Seq::<(u64, Seq<i32>)>::empty());
        }
        r
    }

    /// The dimension the collection was created with.
    pub fn dim(&self) -> (d: usize)
        ensures
            d as nat == self.spec_dim(),
    {
        self.dim
    }

    /// How many vectors the collection stores.
    pub fn len(&self) -> (n: usize)
        ensures
            n == self.entries().len(),
    {
        proof {
            lemma_entries_view_assoc(self.store@);
        }
        self.store.len()
    }

    /// True when a vector is stored under the id.
    pub fn contains(&self, id: u64) -> (r: bool)
        ensures
            r == self.has_id(id),
    {
        proof {
            lemma_entries_view_assoc(self.store@);
        }
        match assoc_find(&self.store, id) {
            Some(p) => {
                proof {
                    assert(self.store@[p as int].0 == id);
                    assert(assoc_has(self.store@, id));
                }
                true
            },
            None => false,
        }
    }

    /// Rebuilds the search index from the raw-vector mapping.
    fn rebuild(&mut self)
        ensures
            final(self).index_entries() == final(self).entries(),
            final(self).entries() == old(self).entries(),
            final(self).spec_dim() == old(self).spec_dim(),
    {
        self.collection = Vec::new();
        let mut i: usize = 0;
        while i < self.store.len()
            invariant
                i <= self.store@.len(),
                self.collection@.len() == i,
                self.store == old(self).store,
                self.dim == old(self).dim,
                entries_view(self.collection@) == entries_view(self.store@).take(i as int),
            decreases self.store@.len() - i,
        {
            let v = copy_vec(&self.store[i].1);
            self.collection.push((self.store[i].0, v));
            proof {
                assert(entries_view(self.collection@) =~= entries_view(self.store@).take(
                    i + 1 as int,
                ));
            }
            i = i + 1;
        }
        proof {
            assert(entries_view(self.store@).take(self.store@.len() as int) =~= entries_view(
                self.store@,
            ));
        }
    }

    /// Stores every pair of the batch (replacing the vector of an id
    /// already present), then rebuilds the index once for the whole batch.
    /// A batch holding a vector of the wrong dimension is rejected whole,
    /// before anything is stored.
    pub fn add_batch(&mut self, keys: Vec<(u64, Vec<i32>)>) -> (r: Result<(), AsimovError>)
        requires
            old(self).wf(),
        ensures
            final(self).wf(),
            final(self).spec_dim() == old(self).spec_dim(),
            r is Ok <==> (forall|j: int|
                0 <= j < keys@.len() ==> (#[trigger] keys@[j].1)@.len() == old(self).spec_dim()),
            r is Err ==> *final(self) == *old(self) && r->Err_0 is Hora,
            r is Ok ==> final(self).entries() == assoc_upsert_all(
                old(self).entries(),
                entries_view(keys@),
            ),
    {
        let mut j: usize = 0;
        while j < keys.len()
            invariant
                j <= keys@.len(),
                forall|m: int|
                    0 <= m < j ==> (#[trigger] keys@[m].1)@.len() == self.spec_dim(),
            decreases keys@.len() - j,
        {
            if keys[j].1.len() != self.dim {
                return Err(
                    AsimovError::Hora(
                        String::from_str("Could not add vectors to the Hora collection."),
                    ),
                );
            }
            j = j + 1;
        }
        let ghost orig = self.entries();
        let ghost all_pairs = entries_view(keys@);
        let mut keys = keys;
        let ghost remaining = keys@;
        let mut i: usize = 0;
        proof {
            assert(all_pairs.take(0) =~= Seq::<(u64, Seq<i32>)>::empty());
            lemma_entries_view_assoc(self.store@);
        }
        while keys.len() > 0
            invariant
                i as int + keys@.len() == all_pairs.len(),
                keys@ == remaining.skip(i as int),
                self.entries() == assoc_upsert_all(orig, all_pairs.take(i as int)),
                assoc_unique(self.entries()),
                assoc_unique(self.store@),
                self.spec_dim() == old(self).spec_dim(),
                forall|m: int|
                    0 <= m < self.entries().len() ==> (#[trigger] self.entries()[m]).1.len()
                        == self.spec_dim(),
                all_pairs == entries_view(remaining),
                forall|m: int|
                    0 <= m < remaining.len() ==> (#[trigger] remaining[m].1)@.len()
                        == self.spec_dim(),
            decreases keys@.len(),
        {
            let ghost pre = self.entries();
            let ghost pre_store = self.store@;
            let (id, v) = keys.remove(0);
            let ghost vv = v@;
            proof {
                assert(remaining.skip(i as int)[0] == remaining[i as int]);
                assert(keys@ =~= remaining.skip(i + 1 as int));
            }
            assoc_upsert_exec(&mut self.store, id, v);
            proof {
                assert(remaining[i as int] == (id, v));
                lemma_upsert_view_commute(pre_store, id, v);
                assert(self.entries() == assoc_upsert(pre, id, vv));
                lemma_assoc_upsert(pre, id, vv);
                assert(all_pairs.take(i + 1 as int).drop_last() =~= all_pairs.take(i as int));
                assert(all_pairs.take(i + 1 as int).last() == all_pairs[i as int]);
                assert(all_pairs[i as int] == (id, vv));
                assert(self.entries() == assoc_upsert_all(orig, all_pairs.take(i + 1 as int)));
                lemma_entries_view_assoc(self.store@);
                assert forall|m: int| 0 <= m < self.entries().len() implies (
                #[trigger] self.entries()[m]).1.len() == self.spec_dim() by {
                    if self.entries()[m] == (id, vv) {
                    } else {
                        assert(pre.contains(self.entries()[m]));
                        let w = choose|w: int| 0 <= w < pre.len() && pre[w] == self.entries()[m];
                    }
                }
            }
            i = i + 1;
        }
        proof {
            assert(all_pairs.take(all_pairs.len() as int) =~= all_pairs);
        }
        self.rebuild();
        Ok(())
    }

    /// Removes every listed id, then rebuilds the index from the remaining
    /// vectors. When any listed id is absent the whole call fails, naming
    /// the missing ids, and the collection is left exactly as it was.
    #[verifier::rlimit(40)]
    pub fn delete_batch(&mut self, ids: Vec<u64>) -> (r: Result<(), AsimovError>)
        requires
            old(self).wf(),
        ensures
            final(self).wf(),
            final(self).spec_dim() == old(self).spec_dim(),
            r is Ok <==> (forall|j: int|
                0 <= j < ids@.len() ==> old(self).has_id(#[trigger] ids@[j])),
            r is Err ==> *final(self) == *old(self),
            r is Err ==> r->Err_0 is KeyNotFound && r->Err_0->KeyNotFound_0@ == "Could not find "@
                + id_list(missing_ids(old(self).entries(), ids@)),
            r is Ok ==> final(self).entries() == assoc_remove_ids(old(self).entries(), ids@),
    {
        let mut missing: Vec<u64> = Vec::new();
        let mut i: usize = 0;
        proof {
            reveal(Seq::filter);
            assert(missing@ =~= missing_ids(self.entries(), ids@.take(0)));
        }
        while i < ids.len()
            invariant
                i <= ids@.len(),
                missing@ == missing_ids(self.entries(), ids@.take(i as int)),
            decreases ids@.len() - i,
        {
            if !self.contains(ids[i]) {
                missing.push(ids[i]);
            }
            proof {
                reveal(Seq::filter);
                assert(ids@.take(i + 1 as int).drop_last() =~= ids@.take(i as int));
                assert(ids@.take(i + 1 as int).last() == ids@[i as int]);
            }
            i = i + 1;
        }
        proof {
            assert(ids@.take(ids@.len() as int) =~= ids@);
            lemma_missing_ids(self.entries(), ids@);
        }
        if missing.len() > 0 {
            let mut msg = String::from_str("Could not find ");
            msg.append(id_list_string(&missing).as_str());
            return Err(AsimovError::KeyNotFound(msg));
        }

        let ghost orig = self.entries();
        let mut kept: Vec<(u64, Vec<i32>)> = Vec::new();
        let mut m: usize = 0;
        proof {
            reveal(Seq::filter);
            assert(entries_view(kept@) =~= assoc_remove_ids(orig.take(0), ids@));
        }
        while m < self.store.len()
            invariant
                m <= self.store@.len(),
                entries_view(kept@) == assoc_remove_ids(self.entries().take(m as int), ids@),
                self.entries() == orig,
            decreases self.store@.len() - m,
        {
            let keep = !contains_id(&ids, self.store[m].0);
            if keep {
                let v = copy_vec(&self.store[m].1);
                kept.push((self.store[m].0, v));
            }
            proof {
                reveal(Seq::filter);
                assert(self.entries().take(m + 1 as int).drop_last() =~= self.entries().take(
                    m as int,
                ));
                assert(self.entries().take(m + 1 as int).last() == self.entries()[m as int]);
                assert(self.entries()[m as int] == (self.store@[m as int].0, self.store@[m as int].1@));
                if keep {
                    assert(entries_view(kept@) =~= assoc_remove_ids(
                        self.entries().take(m as int),
                        ids@,
                    ).push(self.entries()[m as int]));
                }
            }
            m = m + 1;
        }
        proof {
            assert(self.entries().take(self.entries().len() as int) =~= self.entries());
        }
        self.store = kept;
        proof {
            lemma_assoc_remove_ids(orig, ids@);
            assert forall|w: int| 0 <= w < self.entries().len() implies (
            #[trigger] self.entries()[w]).1.len() == self.spec_dim() by {
                assert(orig.contains(self.entries()[w]));
                let z = choose|z: int| 0 <= z < orig.len() && orig[z] == self.entries()[w];
            }
        }
        self.rebuild();
        Ok(())
    }

    /// Removes one id; fails with `KeyNotFound` naming the id when it is
    /// absent, exactly as a single-element batch delete does.
    pub fn delete(&mut self, id: u64) -> (r: Result<(), AsimovError>)
        requires
            old(self).wf(),
        ensures
            final(self).wf(),
            final(self).spec_dim() == old(self).spec_dim(),
            r is Ok <==> old(self).has_id(id),
            r is Err ==> *final(self) == *old(self) && r->Err_0 is KeyNotFound,
            r is Err ==> r->Err_0->KeyNotFound_0@ == "Could not find "@ + id_list(seq![id]),
            r is Ok ==> final(self).entries() == assoc_remove_ids(old(self).entries(), seq![id]),
    {
        let ids = vec![id];
        proof {
            assert(ids@ =~= seq![id]);
        }
        let r = self.delete_batch(ids);
        proof {
            if r is Err {
                reveal(Seq::filter);
                assert(!old(self).has_id(id));
                assert(seq![id].drop_last() =~= Seq::<u64>::empty());
                assert(missing_ids(old(self).entries(), seq![id]) =~= seq![id]);
            }
        }
        r
    }

    /// Searches the index for the (up to) k stored vectors closest to the
    /// given one.
    pub fn search(&self, embedding: &Vec<i32>, k: usize) -> (r: Vec<u64>)
        requires
            self.wf(),
            embedding@.len() == self.spec_dim(),
        ensures
            r@ == search_spec(self.index_entries(), embedding@, k as int),
    {
        proof {
            assert forall|i: int| 0 <= i < self.collection@.len() implies (
            #[trigger] self.collection@[i].1)@.len() == embedding@.len() by {
                assert(self.index_entries()[i] == (self.collection@[i].0, self.collection@[i].1@));
                assert(self.index_entries()[i].1.len() == self.spec_dim());
            }
        }
        search_entries(&self.collection, embedding, k)
    }
}

/// The id-to-vector pairs of a point batch.
pub open spec fn pts_pairs<I>(points: Seq<(u64, Vec<i32>, I)>) -> Seq<(u64, Seq<i32>)> {
    points.map_values(|p: (u64, Vec<i32>, I)| (p.0, p.1@))
}

/// The id-to-item pairs of a point batch.
pub open spec fn pts_objs<I>(points: Seq<(u64, Vec<i32>, I)>) -> Seq<(u64, I)> {
    points.map_values(|p: (u64, Vec<i32>, I)| (p.0, p.2))
}

/// Rebuilding the index from the same raw-vector mapping gives equivalent
/// search results: under the sync invariant a search is a function of the
/// mapping, the query and k alone, so rebuilding twice from one mapping
/// cannot change what a fixed query returns.
pub proof fn lemma_search_determined_by_mapping(
    c1: &HoraCollection,
    c2: &HoraCollection,
    q: Seq<i32>,
    k: int,
)
    requires
        c1.wf(),
        c2.wf(),
        c1.entries() == c2.entries(),
    ensures
        search_spec(c1.index_entries(), q, k) == search_spec(c2.index_entries(), q, k),
{
}

/// When exactly one vector stored in a namespace equals the query and at
/// least one result is asked for, a search of that namespace ranks the
/// matching vector's id first.
pub proof fn lemma_exact_match_ranked_first<E: Embed, I: Embeddable + Clone>(
    db: &HoraDb<E, I>,
    name: Seq<char>,
    q: Seq<i32>,
    k: int,
    i: int,
)
    requires
        db.wf(),
        db.has_ns(name),
        1 <= k,
        q.len() == db.spec_dim(),
        0 <= i < db.ns_entries(name).len(),
        db.ns_entries(name)[i].1 == q,
        forall|m: int|
            0 <= m < db.ns_entries(name).len() && m != i ==> (#[trigger] db.ns_entries(name)[m]).1
                != q,
    ensures
        search_spec(db.ns_entries(name), q, k).len() >= 1,
        search_spec(db.ns_entries(name), q, k)[0] == db.ns_entries(name)[i].0,
{
    let p = db.ns_idx(name);
    assert(0 <= p < db.colls().len() && db.colls()[p].0 == name);
    assert(db.collections@[p].1.wf());
    assert(db.colls()[p].1 == db.collections@[p].1.entries());
    assert(db.collections@[p].1.spec_dim() == db.spec_dim());
    assert forall|m: int| 0 <= m < db.ns_entries(name).len() implies (
    #[trigger] db.ns_entries(name)[m]).1.len() == q.len() by {
        assert(db.collections@[p].1.entries()[m].1.len() == db.collections@[p].1.spec_dim());
    }
    crate::search::lemma_unique_exact_match_first(db.ns_entries(name), q, k, i);
}

/// True when the embedding call on this capability could return this
/// vector for the text.
pub open spec fn embeds_to<E: Embed>(llm: E, t: String, v: Vec<i32>) -> bool {
    exists|s: &str| s@ == t@ && #[trigger] call_ensures(E::embed, (&llm, s), Ok(v))
}

/// True when the embedding call on this capability could fail with this
/// error for the text.
pub open spec fn embed_fails<E: Embed>(llm: E, t: String, e: AsimovError) -> bool {
    exists|s: &str| s@ == t@ && #[trigger] call_ensures(E::embed, (&llm, s), Err(e))
}

/// True when a stored point was derived from the item as the store derives
/// it: some rendering of the item's key gives both the point's id (its
/// content hash) and, through the embedding capability, its vector.
pub open spec fn point_from_item<E: Embed, I: Embeddable>(
    llm: E,
    item: I,
    p: (u64, Vec<i32>, I),
) -> bool {
    exists|t: String|
        {
            &&& #[trigger] key_renders_to(item, t)
            &&& p.0 == xxhash64_of(t@)
            &&& embeds_to(llm, t, p.1)
        }
}

/// The ids of a search result that the object store can resolve, in
/// result order.
pub open spec fn present_ids<I>(objects: Seq<(u64, I)>, ids: Seq<u64>) -> Seq<u64> {
    ids.filter(|id: u64| assoc_has(objects, id))
}

/// When the first id of a search result is stored, a query's first
/// returned item is a clone of the item stored under that id.
pub proof fn lemma_first_result_resolves<E: Embed, I: Embeddable + Clone>(
    db: &HoraDb<E, I>,
    name: Seq<char>,
    q: Seq<i32>,
    k: int,
    results: Seq<I>,
)
    requires
        db.knn_post(name, q, k, results),
        search_spec(db.ns_entries(name), q, k).len() > 0,
        db.has_obj(search_spec(db.ns_entries(name), q, k)[0]),
    ensures
        results.len() > 0,
        vstd::pervasive::cloned::<I>(
            db.obj_at(search_spec(db.ns_entries(name), q, k)[0]),
            results[0],
        ),
{
    let ids = search_spec(db.ns_entries(name), q, k);
    crate::assoc::lemma_filter_keeps_head(ids, |id: u64| assoc_has(db.objects(), id));
    assert(present_ids(db.objects(), ids)[0] == ids[0]);
}

/// Once an id's vector is removed from a namespace, no query of that
/// namespace returns the id any more: a search returns only stored ids.
pub proof fn lemma_deleted_id_not_searchable<E: Embed, I: Embeddable + Clone>(
    db: &HoraDb<E, I>,
    name: Seq<char>,
    q: Seq<i32>,
    k: int,
    id: u64,
)
    requires
        0 <= k,
        !assoc_has(db.ns_entries(name), id),
    ensures
        forall|j: int|
            0 <= j < search_spec(db.ns_entries(name), q, k).len() ==> #[trigger] search_spec(
                db.ns_entries(name),
                q,
                k,
            )[j] != id,
{
    crate::search::lemma_absent_id_not_returned(db.ns_entries(name), q, k, id);
}

/// The in-memory vector space store: it composes one embedding capability
/// with a directory of namespace-keyed index collections and an object
/// store mapping each stored id back to the original item.
pub struct HoraDb<E: Embed, I: Embeddable + Clone> {
    llm: E,
    dim: usize,
    collections: Vec<(Namespace, HoraCollection)>,
    store: Vec<(u64, I)>,
}

impl<E: Embed, I: Embeddable + Clone> HoraDb<E, I> {
    /// The dimension of the vector space, taken from the embedding
    /// capability at construction.
    pub closed spec fn spec_dim(&self) -> nat {
        self.dim as nat
    }

    /// The namespace directory: each namespace's name with the entries of
    /// its index collection, in creation order.
    pub closed spec fn colls(&self) -> Seq<(Seq<char>, Seq<(u64, Seq<i32>)>)> {
        self.collections@.map_values(
            |c: (Namespace, HoraCollection)| (c.0@, c.1.entries()),
        )
    }

    /// The object store: each stored id with the original item.
    pub closed spec fn objects(&self) -> Seq<(u64, I)> {
        self.store@
    }

    /// The embedding capability the store was built around.
    pub closed spec fn capability(&self) -> E {
        self.llm
    }

    /// The names of the existing namespaces, in creation order.
    pub open spec fn ns_names(&self) -> Seq<Seq<char>> {
        self.colls().map_values(|c: (Seq<char>, Seq<(u64, Seq<i32>)>)| c.0)
    }

    /// True when a namespace with the given name exists.
    pub open spec fn has_ns(&self, name: Seq<char>) -> bool {
        exists|i: int| 0 <= i < self.colls().len() && (#[trigger] self.colls()[i]).0 == name
    }

    /// The directory position of the named namespace.
    pub open spec fn ns_idx(&self, name: Seq<char>) -> int {
        choose|i: int| 0 <= i < self.colls().len() && (#[trigger] self.colls()[i]).0 == name
    }

    /// The entries of the named namespace's index collection.
    pub open spec fn ns_entries(&self, name: Seq<char>) -> Seq<(u64, Seq<i32>)> {
        self.colls()[self.ns_idx(name)].1
    }

    /// True when an item is stored under the id.
    pub open spec fn has_obj(&self, id: u64) -> bool {
        assoc_has(self.objects(), id)
    }

    /// The item stored under the id.
    pub open spec fn obj_at(&self, id: u64) -> I {
        assoc_get(self.objects(), id)
    }

    /// True when the two stores hold the same namespaces, entries and
    /// objects.
    pub open spec fn same_state(&self, other: &Self) -> bool {
        &&& self.spec_dim() == other.spec_dim()
        &&& self.colls() == other.colls()
        &&& self.objects() == other.objects()
    }

    /// Well-formed: namespace names are valid and unique, every collection
    /// is well-formed with the store's dimension, and object ids are
    /// unique.
    pub closed spec fn wf(&self) -> bool {
        &&& forall|i: int|
            0 <= i < self.collections@.len() ==> valid_namespace(
                (#[trigger] self.collections@[i]).0@,
            )
        &&& forall|i: int, j: int|
            0 <= i < j < self.collections@.len() ==> (#[trigger] self.collections@[i]).0@ != (
            #[trigger] self.collections@[j]).0@
        &&& forall|i: int|
            0 <= i < self.collections@.len() ==> (#[trigger] self.collections@[i]).1.wf()
                && self.collections@[i].1.spec_dim() == self.spec_dim()
        &&& assoc_unique(self.objects())
    }

    /// Creates an empty store around the given embedding capability.
    pub fn new(llm: E) -> (r: HoraDb<E, I>)
        ensures
            r.wf(),
            r.colls() == Seq::<(Seq<char>, Seq<(u64, Seq<i32>)>)>::empty(),
            r.objects() == Seq::<(u64, I)>::empty(),
    {
        let dim = llm.dim();
        let r = HoraDb { llm, dim, collections: Vec::new(), store: Vec::new() };
        proof {
            assert(r.colls() =~= Seq::<(Seq<char>, Seq<(u64, Seq<i32>)>)>::empty());
        }
        r
    }

    /// Looks a namespace up by name in the directory.
    fn find_ns(&self, name: &String) -> (r: Option<usize>)
        requires
            self.wf(),
        ensures
            r is Some ==> r->0 < self.colls().len() && self.colls()[r->0 as int].0 == name@
                && self.has_ns(name@) && self.ns_idx(name@) == r->0 as int,
            r is None ==> !self.has_ns(name@),
    {
        let mut i: usize = 0;
        while i < self.collections.len()
            invariant
                i <= self.collections@.len(),
                forall|m: int| 0 <= m < i ==> (#[trigger] self.colls()[m]).0 != name@,
            decreases self.collections@.len() - i,
        {
            if self.collections[i].0.eq_string(name) {
                proof {
                    assert(self.colls()[i as int].0 == name@);
                    let p2 = self.ns_idx(name@);
                    assert(0 <= p2 < self.colls().len() && self.colls()[p2].0 == name@);
                    if p2 != i as int {
                        assert(self.collections@[p2].0@ == self.collections@[i as int].0@);
                        assert(false);
                    }
                }
                return Some(i);
            }
            proof {
                assert(self.colls()[i as int].0 == self.collections@[i as int].0@);
            }
            i = i + 1;
        }
        None
    }

    /// Whether the namespace exists; fails with `InvalidNamespace` on a
    /// malformed name. The store is left untouched.
    pub fn namespace_exists(&mut self, namespace: &str) -> (r: Result<bool, AsimovError>)
        requires
            old(self).wf(),
        ensures
            *final(self) == *old(self),
            final(self).wf(),
            r is Ok <==> valid_namespace(namespace@),
            r is Err ==> r->Err_0 == AsimovError::InvalidNamespace,
            r is Ok ==> r->Ok_0 == old(self).has_ns(namespace@),
    {
        let name = String::from_str(namespace);
        match Namespace::new(name) {
            Ok(_) => {},
            Err(_) => {
                return Err(AsimovError::InvalidNamespace);
            },
        }
        let name = String::from_str(namespace);
        match self.find_ns(&name) {
            Some(_) => Ok(true),
            None => Ok(false),
        }
    }

    /// Creates the namespace with an empty index collection. Fails with
    /// `InvalidNamespace` on a malformed name, with `KeyCollision` when the
    /// namespace already exists, and with a backend error when the
    /// embedding dimension is too large to index; a failed call leaves the
    /// store untouched.
    pub fn create_namespace(&mut self, namespace: &str) -> (r: Result<(), AsimovError>)
        requires
            old(self).wf(),
        ensures
            final(self).wf(),
            final(self).spec_dim() == old(self).spec_dim(),
            final(self).objects() == old(self).objects(),
            r is Err ==> old(self).same_state(final(self)),
            !valid_namespace(namespace@) ==> r is Err && r->Err_0 == AsimovError::InvalidNamespace,
            valid_namespace(namespace@) && old(self).has_ns(namespace@) ==> r is Err && r->Err_0
                is KeyCollision && r->Err_0->KeyCollision_0@ == namespace@,
            r is Ok <==> valid_namespace(namespace@) && !old(self).has_ns(namespace@) && old(self).spec_dim() <= DIM_MAX as nat,
            r is Ok ==> final(self).colls() == old(self).colls().push(
                (namespace@, Seq::<(u64, Seq<i32>)>::empty()),
            ),
            r is Ok ==> final(self).has_ns(namespace@) && final(self).ns_entries(namespace@)
                == Seq::<(u64, Seq<i32>)>::empty(),
    {
        let name = String::from_str(namespace);
        let ns = match Namespace::new(name) {
            Ok(ns) => ns,
            Err(_) => {
                return Err(AsimovError::InvalidNamespace);
            },
        };
        let name = String::from_str(namespace);
        if self.find_ns(&name).is_some() {
            return Err(AsimovError::KeyCollision(String::from_str(namespace)));
        }
        if self.dim > DIM_MAX {
            return Err(
                AsimovError::Hora(
                    String::from_str("the embedding dimension is too large to index"),
                ),
            );
        }
        let collection = HoraCollection::new(self.dim);
        let ghost pre = *self;
        self.collections.push((ns, collection));
        proof {
            assert(self.colls() =~= pre.colls().push(
                (namespace@, Seq::<(u64, Seq<i32>)>::empty()),
            ));
            assert forall|i: int, j: int| 0 <= i < j < self.collections@.len() implies (
            #[trigger] self.collections@[i]).0@ != (#[trigger] self.collections@[j]).0@ by {
                if j == self.collections@.len() - 1 {
                    assert(self.collections@[i] == pre.collections@[i]);
                    assert(pre.colls()[i].0 == pre.collections@[i].0@);
                    assert(!pre.has_ns(namespace@));
                }
            }
            let p = self.ns_idx(namespace@);
            assert(self.colls()[self.colls().len() - 1].0 == namespace@);
            assert(self.has_ns(namespace@));
            assert(0 <= p < self.colls().len() && self.colls()[p].0 == namespace@);
            if p != self.colls().len() - 1 {
                assert(self.collections@[p].0@ == namespace@);
                assert(pre.colls()[p].0 == namespace@);
                assert(pre.has_ns(namespace@));
                assert(false);
            }
        }
        Ok(())
    }

    /// Deletes the namespace, releasing its index collection. Fails with
    /// `InvalidNamespace` on a malformed name and with `KeyNotFound` when
    /// the namespace is absent; a failed call leaves the store untouched.
    /// Items in the object store are not collected by this call alone.
    pub fn delete_namespace(&mut self, namespace: &str) -> (r: Result<(), AsimovError>)
        requires
            old(self).wf(),
        ensures
            final(self).wf(),
            final(self).spec_dim() == old(self).spec_dim(),
            final(self).objects() == old(self).objects(),
            r is Err ==> old(self).same_state(final(self)),
            !valid_namespace(namespace@) ==> r is Err && r->Err_0 == AsimovError::InvalidNamespace,
            valid_namespace(namespace@) && !old(self).has_ns(namespace@) ==> r is Err && r->Err_0
                is KeyNotFound && r->Err_0->KeyNotFound_0@ == namespace@,
            r is Ok <==> valid_namespace(namespace@) && old(self).has_ns(namespace@),
            r is Ok ==> final(self).colls() == old(self).colls().remove(
                old(self).ns_idx(namespace@),
            ),
            r is Ok ==> !final(self).has_ns(namespace@),
    {
        let name = String::from_str(namespace);
        match Namespace::new(name) {
            Ok(_) => {},
            Err(_) => {
                return Err(AsimovError::InvalidNamespace);
            },
        }
        let name = String::from_str(namespace);
        let p = match self.find_ns(&name) {
            Some(p) => p,
            None => {
                return Err(AsimovError::KeyNotFound(String::from_str(namespace)));
            },
        };
        let ghost pre = *self;
        self.collections.remove(p);
        proof {
            assert(self.colls() =~= pre.colls().remove(p as int));
            assert forall|i: int| 0 <= i < self.collections@.len() implies (
            #[trigger] self.collections@[i]).1.wf() && self.collections@[i].1.spec_dim()
                == self.spec_dim() && valid_namespace(self.collections@[i].0@) by {
                if i < p as int {
                    assert(self.collections@[i] == pre.collections@[i]);
                } else {
                    assert(self.collections@[i] == pre.collections@[i + 1]);
                }
            }
            assert forall|i: int, j: int| 0 <= i < j < self.collections@.len() implies (
            #[trigger] self.collections@[i]).0@ != (#[trigger] self.collections@[j]).0@ by {
                let i0 = if i < p as int { i } else { i + 1 };
                let j0 = if j < p as int { j } else { j + 1 };
                assert(self.collections@[i] == pre.collections@[i0]);
                assert(self.collections@[j] == pre.collections@[j0]);
            }
            if self.has_ns(namespace@) {
                let q = choose|q: int|
                    0 <= q < self.colls().len() && (#[trigger] self.colls()[q]).0 == namespace@;
                let q0 = if q < p as int { q } else { q + 1 };
                assert(self.collections@[q] == pre.collections@[q0]);
                assert(pre.colls()[q0].0 == namespace@);
                assert(pre.colls()[p as int].0 == namespace@);
                assert(q0 != p as int);
                assert(false);
            }
        }
        Ok(())
    }

    /// What a successful batch add leaves behind: one stored point per
    /// item, each derived from its item's rendered key (the content-hash
    /// id and an embedding of that same text), bound in batch order into
    /// the namespace's raw-vector mapping and the object store; every
    /// other namespace is untouched.
    pub open spec fn added_points(
        self,
        post: Self,
        name: Seq<char>,
        items: Seq<I>,
        points: Seq<(u64, Vec<i32>, I)>,
    ) -> bool {
        &&& points.len() == items.len()
        &&& (forall|j: int| 0 <= j < points.len() ==> (#[trigger] points[j]).2 == items[j])
        &&& (forall|j: int|
            0 <= j < points.len() ==> (#[trigger] points[j]).1@.len() == self.spec_dim())
        &&& (forall|j: int|
            0 <= j < points.len() ==> point_from_item(
                self.capability(),
                items[j],
                #[trigger] points[j],
            ))
        &&& post.colls() == self.colls().update(
            self.ns_idx(name),
            (name, assoc_upsert_all(self.ns_entries(name), pts_pairs(points))),
        )
        &&& post.objects() == assoc_upsert_all(self.objects(), pts_objs(points))
    }

    /// The only failures an add can report once the namespace is known to
    /// exist: some item's key failed to render (that error handed back
    /// unchanged), the embedding call failed on some item's rendered key
    /// (that error handed back unchanged), or the embedding of some item's
    /// rendered key had the wrong dimension and the backend rejected the
    /// batch. An empty batch admits none of these, so it must succeed.
    pub open spec fn add_failure(self, items: Seq<I>, e: AsimovError) -> bool {
        ||| (exists|j: int| 0 <= j < items.len() && key_render_fails(#[trigger] items[j], e))
        ||| (exists|j: int, t: String|
            0 <= j < items.len() && #[trigger] key_renders_to(items[j], t) && embed_fails(
                self.capability(),
                t,
                e,
            ))
        ||| (e is Hora && exists|j: int, t: String, v: Vec<i32>|
            #![trigger key_renders_to(items[j], t), embeds_to(self.capability(), t, v)]
            0 <= j < items.len() && key_renders_to(items[j], t) && embeds_to(
                self.capability(),
                t,
                v,
            ) && v@.len() != self.spec_dim())
    }

    /// Stores a batch of already-embedded points in the namespace: each id
    /// with its vector in the namespace's index collection (rebuilt once
    /// for the whole batch) and with its item in the object store. Fails
    /// with `InvalidNamespace` on a malformed name, with `KeyNotFound` when
    /// the namespace is absent, and with a backend error when any vector
    /// has the wrong dimension; a failed call leaves the store untouched.
    pub fn add_points(&mut self, namespace: &str, points: Vec<(u64, Vec<i32>, I)>) -> (r: Result<
        (),
        AsimovError,
    >)
        requires
            old(self).wf(),
        ensures
            final(self).wf(),
            final(self).spec_dim() == old(self).spec_dim(),
            r is Err ==> old(self).same_state(final(self)),
            !valid_namespace(namespace@) ==> r is Err && r->Err_0 == AsimovError::InvalidNamespace,
            valid_namespace(namespace@) && !old(self).has_ns(namespace@) ==> r is Err && r->Err_0
                is KeyNotFound && r->Err_0->KeyNotFound_0@ == namespace@,
            r is Ok <==> valid_namespace(namespace@) && old(self).has_ns(namespace@) && (forall|j: int|
                0 <= j < points@.len() ==> (#[trigger] points@[j].1)@.len() == old(self).spec_dim()),
            valid_namespace(namespace@) && old(self).has_ns(namespace@) && !(forall|j: int|
                0 <= j < points@.len() ==> (#[trigger] points@[j].1)@.len() == old(self).spec_dim()) ==> r is Err && r->Err_0 is Hora,
            r is Ok ==> final(self).colls() == old(self).colls().update(
                old(self).ns_idx(namespace@),
                (
                    namespace@,
                    assoc_upsert_all(old(self).ns_entries(namespace@), pts_pairs(points@)),
                ),
            ),
            r is Ok ==> final(self).ns_idx(namespace@) == old(self).ns_idx(namespace@) && final(self).ns_entries(namespace@) == assoc_upsert_all(
                old(self).ns_entries(namespace@),
                pts_pairs(points@),
            ),
            r is Ok ==> final(self).objects() == assoc_upsert_all(
                old(self).objects(),
                pts_objs(points@),
            ),
    {
        let name = String::from_str(namespace);
        match Namespace::new(name) {
            Ok(_) => {},
            Err(_) => {
                return Err(AsimovError::InvalidNamespace);
            },
        }
        let name = String::from_str(namespace);
        let p = match self.find_ns(&name) {
            Some(p) => p,
            None => {
                return Err(AsimovError::KeyNotFound(String::from_str(namespace)));
            },
        };

        let ghost allp = points@;
        let mut points = points;
        let n = points.len();
        let mut pairs: Vec<(u64, Vec<i32>)> = Vec::new();
        let mut objs: Vec<(u64, I)> = Vec::new();
        let mut i: usize = 0;
        while points.len() > 0
            invariant
                i <= n,
                n == allp.len(),
                i as int + points@.len() == allp.len(),
                points@ == allp.skip(i as int),
                pairs@.len() == i,
                objs@.len() == i,
                forall|m: int|
                    0 <= m < i ==> (#[trigger] pairs@[m]).0 == allp[m].0 && pairs@[m].1@
                        == allp[m].1@,
                forall|m: int| 0 <= m < i ==> #[trigger] objs@[m] == (allp[m].0, allp[m].2),
            decreases points@.len(),
        {
            let (id, v, item) = points.remove(0);
            proof {
                assert(allp.skip(i as int)[0] == allp[i as int]);
                assert(points@ =~= allp.skip(i + 1 as int));
            }
            pairs.push((id, v));
            objs.push((id, item));
            i = i + 1;
        }
        proof {
            assert(entries_view(pairs@) =~= pts_pairs(allp));
            assert(objs@ =~= pts_objs(allp));
        }

        let ghost pre = *self;
        let ghost pairsv = pairs@;
        let (ns, mut coll) = self.collections.remove(p);
        let ghost coll0 = coll;
        match coll.add_batch(pairs) {
            Err(e) => {
                self.collections.insert(p, (ns, coll));
                proof {
                    assert((ns, coll) == pre.collections@[p as int]);
                    assert(self.collections@ =~= pre.collections@);
                    assert(self.colls() =~= pre.colls());
                    assert(coll0.spec_dim() == pre.spec_dim());
                    if forall|j: int|
                        0 <= j < allp.len() ==> (#[trigger] allp[j].1)@.len() == pre.spec_dim() {
                        assert forall|j: int| 0 <= j < pairsv.len() implies (
                        #[trigger] pairsv[j].1)@.len() == coll0.spec_dim() by {
                            assert(allp[j].1@.len() == pre.spec_dim());
                        }
                        assert(false);
                    }
                }
                return Err(e);
            },
            Ok(_) => {},
        }
        self.collections.insert(p, (ns, coll));
        proof {
            assert(coll0.spec_dim() == pre.spec_dim());
            assert forall|j: int| 0 <= j < allp.len() implies (#[trigger] allp[j].1)@.len()
                == pre.spec_dim() by {
                assert(pairsv[j].1@.len() == coll0.spec_dim());
            }
        }
        proof {
            let newentries = assoc_upsert_all(pre.ns_entries(namespace@), pts_pairs(allp));
            assert(pre.collections@[p as int].1 == coll0);
            assert(coll0.entries() == pre.ns_entries(namespace@));
            assert(coll.entries() == newentries);
            assert(self.collections@ =~= pre.collections@.update(p as int, (ns, coll)));
            assert(self.colls() =~= pre.colls().update(p as int, (namespace@, newentries)));
            assert forall|a: int, b: int| 0 <= a < b < self.collections@.len() implies (
            #[trigger] self.collections@[a]).0@ != (#[trigger] self.collections@[b]).0@ by {
                assert(self.collections@[a].0@ == pre.collections@[a].0@);
                assert(self.collections@[b].0@ == pre.collections@[b].0@);
            }
            assert forall|a: int| 0 <= a < self.collections@.len() implies (
            #[trigger] self.collections@[a]).1.wf() && self.collections@[a].1.spec_dim()
                == self.spec_dim() && valid_namespace(self.collections@[a].0@) by {
                if a != p as int {
                    assert(self.collections@[a] == pre.collections@[a]);
                }
            }
            let q = self.ns_idx(namespace@);
            assert(self.colls()[p as int].0 == namespace@);
            assert(self.has_ns(namespace@));
            assert(0 <= q < self.colls().len() && self.colls()[q].0 == namespace@);
            if q != p as int {
                assert(self.collections@[q].0@ == namespace@);
                assert(self.collections@[p as int].0@ == namespace@);
                assert(false);
            }
            let q0 = pre.ns_idx(namespace@);
            assert(pre.colls()[p as int].0 == namespace@);
            if q0 != p as int {
                assert(pre.collections@[q0].0@ == namespace@);
                assert(false);
            }
        }

        let ghost mid_collections = self.collections@;
        let ghost preobj = self.store@;
        let ghost allobjs = objs@;
        let mut objs = objs;
        let mut m: usize = 0;
        while objs.len() > 0
            invariant
                m as int + objs@.len() == allobjs.len(),
                objs@ == allobjs.skip(m as int),
                self.collections@ == mid_collections,
                self.dim == old(self).dim,
                self.store@ == assoc_upsert_all(preobj, allobjs.take(m as int)),
                assoc_unique(self.store@),
            decreases objs@.len(),
        {
            let ghost prestore = self.store@;
            let (id, item) = objs.remove(0);
            proof {
                assert(allobjs.skip(m as int)[0] == allobjs[m as int]);
                assert(objs@ =~= allobjs.skip(m + 1 as int));
            }
            assoc_upsert_exec(&mut self.store, id, item);
            proof {
                lemma_assoc_upsert(prestore, id, item);
                assert(allobjs.take(m + 1 as int).drop_last() =~= allobjs.take(m as int));
                assert(allobjs.take(m + 1 as int).last() == allobjs[m as int]);
                assert(allobjs[m as int] == (id, item));
            }
            m = m + 1;
        }
        proof {
            assert(allobjs.take(allobjs.len() as int) =~= allobjs);
        }
        Ok(())
    }

    /// What a successful k-nearest-neighbor query returns: for each
    /// returned id of the index search that the object store can resolve,
    /// in order, a clone of the stored item; unresolved ids are silently
    /// dropped.
    pub open spec fn knn_post(&self, name: Seq<char>, q: Seq<i32>, k: int, results: Seq<I>) -> bool {
        let ids = search_spec(self.ns_entries(name), q, k);
        let matched = present_ids(self.objects(), ids);
        &&& results.len() == matched.len()
        &&& forall|j: int|
            0 <= j < matched.len() ==> cloned::<I>(self.obj_at(matched[j]), #[trigger] results[j])
    }

    /// Removes the vector stored under the id from the namespace's index
    /// collection (rebuilding it) and the item under the id from the
    /// object store. Fails with `InvalidNamespace` on a malformed name and
    /// with `KeyNotFound` when the namespace or the id is absent; a failed
    /// call leaves the store untouched.
    pub fn delete_by_id(&mut self, namespace: &str, id: u64) -> (r: Result<(), AsimovError>)
        requires
            old(self).wf(),
        ensures
            final(self).wf(),
            final(self).spec_dim() == old(self).spec_dim(),
            r is Err ==> old(self).same_state(final(self)),
            !valid_namespace(namespace@) ==> r is Err && r->Err_0 == AsimovError::InvalidNamespace,
            valid_namespace(namespace@) && !old(self).has_ns(namespace@) ==> r is Err && r->Err_0
                is KeyNotFound && r->Err_0->KeyNotFound_0@ == namespace@,
            valid_namespace(namespace@) && old(self).has_ns(namespace@) && !assoc_has(
                old(self).ns_entries(namespace@),
                id,
            ) ==> r is Err && r->Err_0 is KeyNotFound,
            r is Ok <==> valid_namespace(namespace@) && old(self).has_ns(namespace@) && assoc_has(
                old(self).ns_entries(namespace@),
                id,
            ),
            r is Ok ==> final(self).colls() == old(self).colls().update(
                old(self).ns_idx(namespace@),
                (namespace@, assoc_remove_ids(old(self).ns_entries(namespace@), seq![id])),
            ),
            r is Ok ==> final(self).ns_idx(namespace@) == old(self).ns_idx(namespace@) && final(self).ns_entries(namespace@) == assoc_remove_ids(
                old(self).ns_entries(namespace@),
                seq![id],
            ),
            r is Ok ==> final(self).objects() == assoc_remove_ids(old(self).objects(), seq![id]),
    {
        let name = String::from_str(namespace);
        match Namespace::new(name) {
            Ok(_) => {},
            Err(_) => {
                return Err(AsimovError::InvalidNamespace);
            },
        }
        let name = String::from_str(namespace);
        let p = match self.find_ns(&name) {
            Some(p) => p,
            None => {
                return Err(AsimovError::KeyNotFound(String::from_str(namespace)));
            },
        };
        let ghost pre = *self;
        let (ns, mut coll) = self.collections.remove(p);
        let ghost coll0 = coll;
        match coll.delete(id) {
            Err(e) => {
                self.collections.insert(p, (ns, coll));
                proof {
                    assert((ns, coll) == pre.collections@[p as int]);
                    assert(self.collections@ =~= pre.collections@);
                    assert(self.colls() =~= pre.colls());
                    assert(coll0.entries() == pre.ns_entries(namespace@));
                }
                return Err(e);
            },
            Ok(_) => {},
        }
        self.collections.insert(p, (ns, coll));
        proof {
            let newentries = assoc_remove_ids(pre.ns_entries(namespace@), seq![id]);
            assert(pre.collections@[p as int].1 == coll0);
            assert(coll0.entries() == pre.ns_entries(namespace@));
            assert(coll.entries() == newentries);
            assert(self.collections@ =~= pre.collections@.update(p as int, (ns, coll)));
            assert(self.colls() =~= pre.colls().update(p as int, (namespace@, newentries)));
            assert forall|a: int, b: int| 0 <= a < b < self.collections@.len() implies (
            #[trigger] self.collections@[a]).0@ != (#[trigger] self.collections@[b]).0@ by {
                assert(self.collections@[a].0@ == pre.collections@[a].0@);
                assert(self.collections@[b].0@ == pre.collections@[b].0@);
            }
            assert forall|a: int| 0 <= a < self.collections@.len() implies (
            #[trigger] self.collections@[a]).1.wf() && self.collections@[a].1.spec_dim()
                == self.spec_dim() && valid_namespace(self.collections@[a].0@) by {
                if a != p as int {
                    assert(self.collections@[a] == pre.collections@[a]);
                }
            }
            let q = self.ns_idx(namespace@);
            assert(self.colls()[p as int].0 == namespace@);
            assert(self.has_ns(namespace@));
            assert(0 <= q < self.colls().len() && self.colls()[q].0 == namespace@);
            if q != p as int {
                assert(self.collections@[q].0@ == namespace@);
                assert(self.collections@[p as int].0@ == namespace@);
                assert(false);
            }
            let q0 = pre.ns_idx(namespace@);
            assert(pre.colls()[p as int].0 == namespace@);
            if q0 != p as int {
                assert(pre.collections@[q0].0@ == namespace@);
                assert(false);
            }
        }
        let ghost prestore = self.store@;
        assoc_remove_id_exec(&mut self.store, id);
        proof {
            crate::assoc::lemma_assoc_remove_ids(prestore, seq![id]);
        }
        Ok(())
    }

    /// Searches the namespace for the (up to) k stored vectors nearest to
    /// the given embedding and returns the stored items they belong to, in
    /// ranking order, dropping ids with no stored item. Fails with
    /// `InvalidNamespace` on a malformed name, with `KeyNotFound` when the
    /// namespace is absent, and with a model error when the embedding has
    /// the wrong dimension.
    pub fn knn_with_embedding(&self, namespace: &str, embedding: &Vec<i32>, k: usize) -> (r: Result<
        Vec<I>,
        AsimovError,
    >)
        requires
            self.wf(),
        ensures
            !valid_namespace(namespace@) ==> r is Err && r->Err_0 == AsimovError::InvalidNamespace,
            valid_namespace(namespace@) && !self.has_ns(namespace@) ==> r is Err && r->Err_0
                is KeyNotFound && r->Err_0->KeyNotFound_0@ == namespace@,
            valid_namespace(namespace@) && self.has_ns(namespace@) && embedding@.len()
                != self.spec_dim() ==> r is Err && r->Err_0 is Model,
            r is Ok <==> valid_namespace(namespace@) && self.has_ns(namespace@) && embedding@.len()
                == self.spec_dim(),
            r is Ok ==> self.knn_post(namespace@, embedding@, k as int, r->Ok_0@),
    {
        let name = String::from_str(namespace);
        match Namespace::new(name) {
            Ok(_) => {},
            Err(_) => {
                return Err(AsimovError::InvalidNamespace);
            },
        }
        let name = String::from_str(namespace);
        let p = match self.find_ns(&name) {
            Some(p) => p,
            None => {
                return Err(AsimovError::KeyNotFound(String::from_str(namespace)));
            },
        };
        if embedding.len() != self.dim {
            return Err(
                AsimovError::Model(
                    String::from_str("the query embedding has the wrong dimension"),
                ),
            );
        }
        proof {
            assert(self.collections@[p as int].1.wf());
            assert(self.collections@[p as int].1.spec_dim() == self.spec_dim());
            assert(self.colls()[p as int].1 == self.collections@[p as int].1.entries());
        }
        let ids = self.collections[p].1.search(embedding, k);
        proof {
            assert(ids@ == search_spec(self.ns_entries(namespace@), embedding@, k as int));
        }
        let mut results: Vec<I> = Vec::new();
        let mut i: usize = 0;
        proof {
            reveal(Seq::filter);
            assert(present_ids(self.objects(), ids@.take(0)) =~= Seq::<u64>::empty());
        }
        while i < ids.len()
            invariant
                i <= ids@.len(),
                results@.len() == present_ids(self.objects(), ids@.take(i as int)).len(),
                forall|j: int|
                    0 <= j < results@.len() ==> cloned::<I>(
                        self.obj_at(present_ids(self.objects(), ids@.take(i as int))[j]),
                        #[trigger] results@[j],
                    ),
            decreases ids@.len() - i,
        {
            let ghost prev = present_ids(self.objects(), ids@.take(i as int));
            match assoc_find(&self.store, ids[i]) {
                Some(p2) => {
                    let item = self.store[p2].1.clone();
                    proof {
                        assert(self.store@[p2 as int].0 == ids@[i as int]);
                        assert(assoc_has(self.objects(), ids@[i as int]));
                        let q2 = crate::assoc::assoc_index(self.objects(), ids@[i as int]);
                        assert(0 <= q2 < self.store@.len() && self.store@[q2].0 == ids@[i as int]);
                        if q2 != p2 as int {
                            assert(false);
                        }
                        assert(self.obj_at(ids@[i as int]) == self.store@[p2 as int].1);
                        assert(cloned::<I>(self.store@[p2 as int].1, item));
                    }
                    results.push(item);
                },
                None => {},
            }
            proof {
                reveal(Seq::filter);
                assert(ids@.take(i + 1 as int).drop_last() =~= ids@.take(i as int));
                assert(ids@.take(i + 1 as int).last() == ids@[i as int]);
                let now = present_ids(self.objects(), ids@.take(i + 1 as int));
                if assoc_has(self.objects(), ids@[i as int]) {
                    assert(now == prev.push(ids@[i as int]));
                } else {
                    assert(now == prev);
                }
            }
            i = i + 1;
        }
        proof {
            assert(ids@.take(ids@.len() as int) =~= ids@);
        }
        Ok(results)
    }

    /// Embeds and stores a batch of items in the namespace. For each item
    /// the key is rendered, the rendered text embedded, and the item's id
    /// derived from that same text, so a later delete by key addresses the
    /// same id. The whole batch is embedded before anything is stored and
    /// the index is rebuilt once; a failed call leaves the store untouched
    /// and, with the namespace present, reports the rendering or embedding
    /// failure itself or the backend's rejection of a wrong-dimension
    /// embedding.
    pub fn add_items(&mut self, namespace: &str, items: Vec<I>) -> (r: Result<(), AsimovError>)
        requires
            old(self).wf(),
        ensures
            final(self).wf(),
            final(self).spec_dim() == old(self).spec_dim(),
            r is Err ==> old(self).same_state(final(self)),
            !valid_namespace(namespace@) ==> r is Err && r->Err_0 == AsimovError::InvalidNamespace,
            valid_namespace(namespace@) && !old(self).has_ns(namespace@) ==> r is Err && r->Err_0
                is KeyNotFound && r->Err_0->KeyNotFound_0@ == namespace@,
            r is Ok ==> valid_namespace(namespace@) && old(self).has_ns(namespace@),
            r is Ok ==> exists|points: Seq<(u64, Vec<i32>, I)>|
                #[trigger] old(self).added_points(*final(self), namespace@, items@, points),
            valid_namespace(namespace@) && old(self).has_ns(namespace@) && r is Err ==> old(
                self,
            ).add_failure(items@, r->Err_0),
    {
        let name = String::from_str(namespace);
        match Namespace::new(name) {
            Ok(_) => {},
            Err(_) => {
                return Err(AsimovError::InvalidNamespace);
            },
        }
        let name = String::from_str(namespace);
        match self.find_ns(&name) {
            Some(_) => {},
            None => {
                return Err(AsimovError::KeyNotFound(String::from_str(namespace)));
            },
        }
        let ghost items0 = items@;
        let mut items = items;
        let n = items.len();
        let mut points: Vec<(u64, Vec<i32>, I)> = Vec::new();
        let mut i: usize = 0;
        while items.len() > 0
            invariant
                i <= n,
                n == items0.len(),
                i as int + items@.len() == items0.len(),
                items@ == items0.skip(i as int),
                points@.len() == i,
                forall|m: int| 0 <= m < i ==> (#[trigger] points@[m]).2 == items0[m],
                *self == *old(self),
                forall|m: int|
                    0 <= m < i ==> point_from_item(
                        old(self).capability(),
                        items0[m],
                        #[trigger] points@[m],
                    ),
            decreases items@.len(),
        {
            let item = items.remove(0);
            proof {
                assert(items0.skip(i as int)[0] == items0[i as int]);
                assert(items@ =~= items0.skip(i + 1 as int));
            }
            let key_ref = item.key();
            let text = match key_ref.render() {
                Ok(t) => t,
                Err(e) => {
                    proof {
                        let kv = *key_ref;
                        assert(call_ensures(I::key, (&item,), &kv));
                        assert(call_ensures(<I::Key as Input>::render, (&kv,), Err(e)));
                        assert(key_render_fails(items0[i as int], e));
                    }
                    return Err(e);
                },
            };
            proof {
                let kv = *key_ref;
                assert(call_ensures(I::key, (&item,), &kv));
                assert(call_ensures(<I::Key as Input>::render, (&kv,), Ok(text)));
                assert(key_renders_to(item, text));
            }
            let text_str = text.as_str();
            let embedding = match self.llm.embed(text_str) {
                Ok(e) => e,
                Err(e) => {
                    proof {
                        assert(call_ensures(E::embed, (&self.llm, text_str), Err(e)));
                        assert(embed_fails(old(self).capability(), text, e));
                        assert(key_renders_to(items0[i as int], text));
                    }
                    return Err(e);
                },
            };
            let id = hash_string(&text);
            proof {
                assert(call_ensures(E::embed, (&self.llm, text_str), Ok(embedding)));
                assert(text_str@ == text@);
                assert(embeds_to(old(self).capability(), text, embedding));
                assert(point_from_item(old(self).capability(), item, (id, embedding, item)));
            }
            points.push((id, embedding, item));
            proof {
                assert(points@[i as int] == (id, embedding, item));
            }
            i = i + 1;
        }
        let ghost pointsv = points@;
        match self.add_points(namespace, points) {
            Ok(_) => {
                proof {
                    assert(pointsv.len() == items0.len());
                    assert(old(self).added_points(*self, namespace@, items0, pointsv));
                }
                Ok(())
            },
            Err(e) => {
                proof {
                    // The batch was embedded whole, so with the namespace
                    // present the only rejection left is a wrong-dimension
                    // embedding.
                    assert(e is Hora);
                    let j = choose|j: int|
                        0 <= j < pointsv.len() && (#[trigger] pointsv[j].1)@.len() != old(
                            self,
                        ).spec_dim();
                    assert(point_from_item(old(self).capability(), items0[j], pointsv[j]));
                    let t = choose|t: String|
                        {
                            &&& #[trigger] key_renders_to(items0[j], t)
                            &&& pointsv[j].0 == xxhash64_of(t@)
                            &&& embeds_to(old(self).capability(), t, pointsv[j].1)
                        };
                    assert(key_renders_to(items0[j], t) && embeds_to(
                        old(self).capability(),
                        t,
                        pointsv[j].1,
                    ) && pointsv[j].1@.len() != old(self).spec_dim());
                }
                Err(e)
            },
        }
    }

    /// Stores one item: a single-element batch, behaving exactly as
    /// `add_items` with that batch.
    pub fn add_item(&mut self, namespace: &str, item: I) -> (r: Result<(), AsimovError>)
        requires
            old(self).wf(),
        ensures
            final(self).wf(),
            final(self).spec_dim() == old(self).spec_dim(),
            r is Err ==> old(self).same_state(final(self)),
            !valid_namespace(namespace@) ==> r is Err && r->Err_0 == AsimovError::InvalidNamespace,
            valid_namespace(namespace@) && !old(self).has_ns(namespace@) ==> r is Err && r->Err_0
                is KeyNotFound && r->Err_0->KeyNotFound_0@ == namespace@,
            r is Ok ==> valid_namespace(namespace@) && old(self).has_ns(namespace@),
            r is Ok ==> exists|points: Seq<(u64, Vec<i32>, I)>|
                #[trigger] old(self).added_points(*final(self), namespace@, seq![item], points),
            valid_namespace(namespace@) && old(self).has_ns(namespace@) && r is Err ==> old(
                self,
            ).add_failure(seq![item], r->Err_0),
    {
        let batch = vec![item];
        let ghost batchv = batch@;
        proof {
            assert(batchv =~= seq![item]);
        }
        let r = self.add_items(namespace, batch);
        proof {
            if r is Ok {
                let points = choose|points: Seq<(u64, Vec<i32>, I)>|
                    old(self).added_points(*self, namespace@, batchv, points);
                assert(old(self).added_points(*self, namespace@, seq![item], points));
            }
        }
        r
    }

    /// Deletes the item whose key renders like the given one: the id is
    /// the content hash of the rendered key text, derived exactly as
    /// `add_items` derives it, and the vector and item stored under that
    /// id are removed. Fails with `InvalidNamespace` on a malformed name
    /// and with `KeyNotFound` when the namespace is absent or the derived
    /// id has no stored vector; the key's own rendering failure is handed
    /// back unchanged. A failed call leaves the store untouched.
    pub fn delete_item(&mut self, namespace: &str, key: I) -> (r: Result<(), AsimovError>)
        requires
            old(self).wf(),
        ensures
            final(self).wf(),
            final(self).spec_dim() == old(self).spec_dim(),
            r is Err ==> old(self).same_state(final(self)),
            !valid_namespace(namespace@) ==> r is Err && r->Err_0 == AsimovError::InvalidNamespace,
            valid_namespace(namespace@) && !old(self).has_ns(namespace@) ==> r is Err && r->Err_0
                is KeyNotFound && r->Err_0->KeyNotFound_0@ == namespace@,
            r is Ok ==> valid_namespace(namespace@) && old(self).has_ns(namespace@),
            r is Ok ==> exists|t: String|
                {
                    &&& #[trigger] key_renders_to(key, t)
                    &&& assoc_has(old(self).ns_entries(namespace@), xxhash64_of(t@))
                    &&& final(self).colls() == old(self).colls().update(
                        old(self).ns_idx(namespace@),
                        (
                            namespace@,
                            assoc_remove_ids(
                                old(self).ns_entries(namespace@),
                                seq![xxhash64_of(t@)],
                            ),
                        ),
                    )
                    &&& final(self).objects() == assoc_remove_ids(
                        old(self).objects(),
                        seq![xxhash64_of(t@)],
                    )
                },
            valid_namespace(namespace@) && old(self).has_ns(namespace@) && r is Err ==> {
                ||| key_render_fails(key, r->Err_0)
                ||| (r->Err_0 is KeyNotFound && exists|t: String|
                    #[trigger] key_renders_to(key, t) && !assoc_has(
                        old(self).ns_entries(namespace@),
                        xxhash64_of(t@),
                    ))
            },
    {
        let name = String::from_str(namespace);
        match Namespace::new(name) {
            Ok(_) => {},
            Err(_) => {
                return Err(AsimovError::InvalidNamespace);
            },
        }
        let name = String::from_str(namespace);
        match self.find_ns(&name) {
            Some(_) => {},
            None => {
                return Err(AsimovError::KeyNotFound(String::from_str(namespace)));
            },
        }
        let key_ref = key.key();
        let text = match key_ref.render() {
            Ok(t) => t,
            Err(e) => {
                proof {
                    let kv = *key_ref;
                    assert(call_ensures(I::key, (&key,), &kv));
                    assert(call_ensures(<I::Key as Input>::render, (&kv,), Err(e)));
                    assert(key_render_fails(key, e));
                }
                return Err(e);
            },
        };
        proof {
            let kv = *key_ref;
            assert(call_ensures(I::key, (&key,), &kv));
            assert(call_ensures(<I::Key as Input>::render, (&kv,), Ok(text)));
            assert(key_renders_to(key, text));
        }
        let id = hash_string(&text);
        let r = self.delete_by_id(namespace, id);
        proof {
            if r is Err {
                assert(!assoc_has(old(self).ns_entries(namespace@), xxhash64_of(text@)));
            }
        }
        r
    }

    /// Validates the namespace, then renders and embeds the query and
    /// returns the stored items nearest to it, up to k of them, in ranking
    /// order; ids the object store cannot resolve are silently dropped.
    /// Rendering and embedding failures propagate.
    pub fn knn<Q: Input>(&self, namespace: &str, query: &Q, k: usize) -> (r: Result<
        Vec<I>,
        AsimovError,
    >)
        requires
            self.wf(),
        ensures
            !valid_namespace(namespace@) ==> r is Err && r->Err_0 == AsimovError::InvalidNamespace,
            valid_namespace(namespace@) && !self.has_ns(namespace@) ==> r is Err && r->Err_0
                is KeyNotFound && r->Err_0->KeyNotFound_0@ == namespace@,
            r is Ok ==> valid_namespace(namespace@) && self.has_ns(namespace@),
            r is Ok ==> exists|t: String, q2: Vec<i32>|
                {
                    &&& #[trigger] renders_to(*query, t)
                    &&& #[trigger] embeds_to(self.capability(), t, q2)
                    &&& q2@.len() == self.spec_dim()
                    &&& self.knn_post(namespace@, q2@, k as int, r->Ok_0@)
                },
    {
        let name = String::from_str(namespace);
        match Namespace::new(name) {
            Ok(_) => {},
            Err(_) => {
                return Err(AsimovError::InvalidNamespace);
            },
        }
        let name = String::from_str(namespace);
        match self.find_ns(&name) {
            Some(_) => {},
            None => {
                return Err(AsimovError::KeyNotFound(String::from_str(namespace)));
            },
        }
        let text = match query.render() {
            Ok(t) => t,
            Err(e) => {
                return Err(e);
            },
        };
        proof {
            assert(call_ensures(Q::render, (query,), Ok(text)));
            assert(renders_to(*query, text));
        }
        let text_str = text.as_str();
        let embedding = match self.llm.embed(text_str) {
            Ok(e) => e,
            Err(e) => {
                return Err(e);
            },
        };
        proof {
            assert(call_ensures(E::embed, (&self.llm, text_str), Ok(embedding)));
            assert(embeds_to(self.capability(), text, embedding));
        }
        let r = self.knn_with_embedding(namespace, &embedding, k);
        proof {
            if r is Ok {
                assert(self.knn_post(namespace@, embedding@, k as int, r->Ok_0@));
            }
        }
        r
    }
}

impl<E: Embed, I: Embeddable + Clone> crate::space::VectorSpace for HoraDb<E, I> {
    type Item = I;

    open spec fn inv(&self) -> bool {
        self.wf()
    }

    fn namespace_exists(&mut self, namespace: &str) -> (r: Result<bool, AsimovError>) {
        HoraDb::namespace_exists(self, namespace)
    }

    fn create_namespace(&mut self, namespace: &str) -> (r: Result<(), AsimovError>) {
        HoraDb::create_namespace(self, namespace)
    }

    fn delete_namespace(&mut self, namespace: &str) -> (r: Result<(), AsimovError>) {
        HoraDb::delete_namespace(self, namespace)
    }

    fn add_items(&mut self, namespace: &str, items: Vec<I>) -> (r: Result<(), AsimovError>) {
        HoraDb::add_items(self, namespace, items)
    }

    fn add_item(&mut self, namespace: &str, item: I) -> (r: Result<(), AsimovError>) {
        HoraDb::add_item(self, namespace, item)
    }

    fn delete_item(&mut self, namespace: &str, item: I) -> (r: Result<(), AsimovError>) {
        HoraDb::delete_item(self, namespace, item)
    }

    fn knn<Q: Input>(&self, namespace: &str, query: &Q, k: usize) -> (r: Result<
        Vec<I>,
        AsimovError,
    >) {
        HoraDb::knn(self, namespace, query, k)
    }
}

} // verus!
