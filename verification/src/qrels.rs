//! Named relevance judgments with textual ids and integer scores.
use vstd::prelude::*;
use vstd::string::*;
use crate::errors::ElinorError;
use crate::keys::{lemma_seq_order_all, StoreKey};
use crate::maps::{key_seqs, pair_key_seqs, rels_view, search_keys, strictly_sorted, textual_pairs};
use crate::relevance::{
    add_map_query_ids, duplicate_message, fold_records, map_query_ids, map_triples,
    nested_contains, nested_insert, no_dup_pairs, ranks_map, store_query_ids, with_queries, RelMap,
    Relevance, RelevanceStore, RelevanceStoreBuilder,
};

verus! {

/// Relevance judgments (qrels): a name and the scores of query-document pairs.
/// A query may have no documents.
pub struct Qrels {
    name: Option<String>,
    store: RelevanceStore<String, i32>,
    // Every query id, in increasing order: those of the store, and those
    // of queries with no documents.
    query_ids: Vec<String>,
    // Empty: the documents of a query that has none.
    no_rels: Vec<(String, i32)>,
    // Empty: the ranking of a query that has no documents.
    no_ranking: Vec<Relevance<String, i32>>,
}

impl View for Qrels {
    type V = RelMap<i32>;

    closed spec fn view(&self) -> RelMap<i32> {
        with_queries(self.store@, key_seqs(self.query_ids@))
    }
}

impl Qrels {
    #[verifier::type_invariant]
    spec fn inv(self) -> bool {
        &&& strictly_sorted(key_seqs(self.query_ids@))
        &&& forall|q: Seq<char>| #[trigger] self.store@.contains_key(q) ==> key_seqs(self.query_ids@).contains(q)
        &&& self.no_rels@.len() == 0
        &&& self.no_ranking@.len() == 0
    }

    /// The name of the qrels, if it has one.
    pub closed spec fn spec_name(&self) -> Option<String> {
        self.name
    }

    /// The query ids of the qrels, in increasing order.
    pub closed spec fn spec_query_ids(&self) -> Seq<Seq<char>> {
        key_seqs(self.query_ids@)
    }

    /// Qrels of a name, a store and the query ids of the store and of the
    /// queries with no documents.
    fn assemble(name: Option<String>, store: RelevanceStore<String, i32>, query_ids: Vec<String>) -> (r: Self)
        requires
            strictly_sorted(key_seqs(query_ids@)),
            forall|q: Seq<char>| #[trigger] store@.contains_key(q) ==> key_seqs(query_ids@).contains(q),
        ensures
            r@ == with_queries(store@, key_seqs(query_ids@)),
            r.spec_query_ids() == key_seqs(query_ids@),
            r.spec_name() == name,
    {
        Qrels { name, store, query_ids, no_rels: Vec::new(), no_ranking: Vec::new() }
    }

    /// Returns the name of the qrels.
    pub fn name(&self) -> (r: Option<&str>)
        ensures
            match r {
                Some(s) => self.spec_name() matches Some(n) && s@ == n@,
                None => self.spec_name() is None,
            },
    {
        match &self.name {
            Some(n) => Some(n.as_str()),
            None => None,
        }
    }

    /// Whether a query id is one of the qrels.
    fn has_query(&self, q: &String) -> (r: bool)
        ensures
            r == self.spec_query_ids().contains(q@),
    {
        proof {
            use_type_invariant(self);
            lemma_seq_order_all();
        }
        match search_keys(&self.query_ids, q) {
            Ok(i) => {
                assert(self.spec_query_ids()[i as int] == q@);
                true
            },
            Err(p) => {
                assert forall|j: int| 0 <= j < self.spec_query_ids().len() implies self.spec_query_ids()[j] != q@ by {
                    assert(self.spec_query_ids()[j] == self.query_ids@[j].key_seq());
                }
                false
            },
        }
    }

    /// Returns the document-score pairs of a query, in increasing order of
    /// document id.
    pub fn get_rel_map(&self, query_id: &str) -> (r: Option<&Vec<(String, i32)>>)
        ensures
            match r {
                Some(m) => self@.contains_key(query_id@) && rels_view(m@) == self@[query_id@]
                    && strictly_sorted(pair_key_seqs(m@)),
                None => !self@.contains_key(query_id@),
            },
    {
        proof {
            use_type_invariant(self);
        }
        let q = query_id.to_owned();
        match self.store.get_map(&q) {
            Some(m) => Some(m),
            None => {
                if self.has_query(&q) {
                    proof {
                        assert(textual_pairs(self.no_rels@) =~= Seq::empty());
                        assert(rels_view(self.no_rels@) =~= Map::empty());
                    }
                    Some(&self.no_rels)
                } else {
                    None
                }
            },
        }
    }

    /// Returns the relevance scores of a query in descending order.
    pub fn get_sorted_rels(&self, query_id: &str) -> (r: Option<&[Relevance<String, i32>]>)
        ensures
            match r {
                Some(s) => self@.contains_key(query_id@) && ranks_map(self@[query_id@], s@),
                None => !self@.contains_key(query_id@),
            },
    {
        proof {
            use_type_invariant(self);
        }
        let q = query_id.to_owned();
        match self.store.get_sorted(&q) {
            Some(s) => Some(s),
            None => {
                if self.has_query(&q) {
                    let s = self.no_ranking.as_slice();
                    proof {
                        assert(self@[q@] =~= Map::<Seq<char>, i32>::empty());
                        assert(self@[q@].len() == 0);
                    }
                    Some(s)
                } else {
                    None
                }
            },
        }
    }

    /// Returns an iterator over the query ids, in increasing order.
    pub fn query_ids(&self) -> (r: core::slice::Iter<'_, String>)
        ensures
            strictly_sorted(key_seqs(vstd::std_specs::iter::IteratorSpec::remaining(&r).unref())),
            forall|q: Seq<char>|
                #[trigger] self@.contains_key(q) <==> key_seqs(
                    vstd::std_specs::iter::IteratorSpec::remaining(&r).unref(),
                ).contains(q),
    {
        proof {
            use_type_invariant(self);
        }
        let r = self.query_ids.as_slice().iter();
        proof {
            broadcast use vstd::std_specs::slice::axiom_spec_slice_iter;
            assert(vstd::std_specs::iter::IteratorSpec::remaining(&r).unref() =~= self.query_ids@);
        }
        r
    }

    /// Returns the query ids and their document-score pairs, in increasing
    /// order of query id.
    pub fn query_ids_and_rel_maps(&self) -> (r: Vec<(&String, &Vec<(String, i32)>)>)
        ensures
            r@.len() == self.spec_query_ids().len(),
            forall|i: int|
                0 <= i < r@.len() ==> {
                    &&& (#[trigger] r@[i]).0@ == self.spec_query_ids()[i]
                    &&& rels_view(r@[i].1@) == self@[r@[i].0@]
                    &&& strictly_sorted(pair_key_seqs(r@[i].1@))
                },
    {
        proof {
            use_type_invariant(self);
        }
        let n = self.query_ids.len();
        let mut out: Vec<(&String, &Vec<(String, i32)>)> = Vec::new();
        let mut i: usize = 0;
        while i < n
            invariant
                n == self.spec_query_ids().len(),
                n == self.query_ids@.len(),
                i <= n,
                out@.len() == i,
                forall|k: int|
                    0 <= k < i ==> {
                        &&& (#[trigger] out@[k]).0@ == self.spec_query_ids()[k]
                        &&& rels_view(out@[k].1@) == self@[out@[k].0@]
                        &&& strictly_sorted(pair_key_seqs(out@[k].1@))
                    },
            decreases n - i,
        {
            let q = &self.query_ids[i];
            assert(self.spec_query_ids()[i as int] == q@);
            assert(self.spec_query_ids().contains(q@));
            let m = self.get_rel_map(q.as_str()).unwrap();
            out.push((q, m));
            i = i + 1;
        }
        out
    }

    /// Returns the query ids and their relevance scores in descending order,
    /// in increasing order of query id.
    pub fn query_ids_and_sorted_rels(&self) -> (r: Vec<(&String, &[Relevance<String, i32>])>)
        ensures
            r@.len() == self.spec_query_ids().len(),
            forall|i: int|
                0 <= i < r@.len() ==> {
                    &&& (#[trigger] r@[i]).0@ == self.spec_query_ids()[i]
                    &&& ranks_map(self@[r@[i].0@], r@[i].1@)
                },
    {
        proof {
            use_type_invariant(self);
        }
        let n = self.query_ids.len();
        let mut out: Vec<(&String, &[Relevance<String, i32>])> = Vec::new();
        let mut i: usize = 0;
        while i < n
            invariant
                n == self.spec_query_ids().len(),
                n == self.query_ids@.len(),
                i <= n,
                out@.len() == i,
                forall|k: int|
                    0 <= k < i ==> {
                        &&& (#[trigger] out@[k]).0@ == self.spec_query_ids()[k]
                        &&& ranks_map(self@[out@[k].0@], out@[k].1@)
                    },
            decreases n - i,
        {
            let q = &self.query_ids[i];
            assert(self.spec_query_ids()[i as int] == q@);
            assert(self.spec_query_ids().contains(q@));
            let s = self.get_sorted_rels(q.as_str()).unwrap();
            out.push((q, s));
            i = i + 1;
        }
        out
    }

    /// Creates qrels from a map of query ids to their document-score pairs,
    /// in which each query-document pair occurs once. A query given no pairs
    /// is kept, with no documents.
    pub fn from_map(name: Option<String>, map: Vec<(String, Vec<(String, i32)>)>) -> (r: Self)
        requires
            no_dup_pairs(map_triples(map@)),
        ensures
            r@ == with_queries(fold_records(map_triples(map@)), map_query_ids(map@)),
            r.spec_name() == name,
    {
        let mut ids: Vec<String> = Vec::new();
        proof {
            assert(key_seqs(ids@) =~= Seq::<Seq<char>>::empty());
        }
        add_map_query_ids(&mut ids, &map);
        let ghost keys = map_query_ids(map@);
        let store = RelevanceStore::from_map(map);
        let mut all = store_query_ids(&store);
        let ghost store_ids = key_seqs(all@);
        let mut i: usize = 0;
        while i < ids.len()
            invariant
                i <= ids@.len(),
                strictly_sorted(key_seqs(all@)),
                forall|q: Seq<char>| #[trigger] key_seqs(ids@).contains(q) <==> keys.contains(q),
                forall|q: Seq<char>| #[trigger] store@.contains_key(q) <==> store_ids.contains(q),
                forall|q: Seq<char>|
                    #[trigger] key_seqs(all@).contains(q) <==> (store_ids.contains(q) || key_seqs(
                        ids@,
                    ).take(i as int).contains(q)),
            decreases ids@.len() - i,
        {
            let k = ids[i].clone();
            crate::maps::insert_key(&mut all, k);
            proof {
                let t = key_seqs(ids@).take(i as int);
                let t1 = key_seqs(ids@).take(i + 1);
                assert(t1 =~= t.push(k@));
                assert forall|q: Seq<char>| #[trigger] t1.contains(q) <==> (t.contains(q) || q == k@) by {
                    if t1.contains(q) {
                        let j = choose|j: int| 0 <= j < t1.len() && t1[j] == q;
                        if j < i {
                            assert(t[j] == q);
                        }
                    }
                    if t.contains(q) {
                        let j = choose|j: int| 0 <= j < t.len() && t[j] == q;
                        assert(t1[j] == q);
                    }
                    if q == k@ {
                        assert(t1[i as int] == q);
                    }
                }
            }
            i = i + 1;
        }
        proof {
            assert(key_seqs(ids@).take(i as int) =~= key_seqs(ids@));
            assert(with_queries(store@, key_seqs(all@)) =~= with_queries(store@, keys));
        }
        Self::assemble(name, store, all)
    }

    /// Qrels of a name and a store.
    pub(crate) fn from_store(name: Option<String>, store: RelevanceStore<String, i32>) -> (r: Self)
        ensures
            r@ == store@,
            r.spec_name() == name,
    {
        let ids = store_query_ids(&store);
        proof {
            assert(with_queries(store@, key_seqs(ids@)) =~= store@);
        }
        Self::assemble(name, store, ids)
    }
}

/// Builder for [`Qrels`].
pub struct QrelsBuilder {
    name: Option<String>,
    builder: RelevanceStoreBuilder<String, i32>,
}

impl View for QrelsBuilder {
    type V = RelMap<i32>;

    closed spec fn view(&self) -> RelMap<i32> {
        self.builder@
    }
}

impl QrelsBuilder {
    /// The name of the qrels, if one was set.
    pub closed spec fn spec_name(&self) -> Option<String> {
        self.name
    }

    /// The number of query-document pairs added so far.
    pub closed spec fn n_records(&self) -> nat {
        self.builder.n_records()
    }

    /// Creates a new builder.
    pub fn new() -> (r: Self)
        ensures
            r@ == Map::<Seq<char>, Map<Seq<char>, i32>>::empty(),
            r.n_records() == 0,
            r.spec_name() is None,
    {
        QrelsBuilder { name: None, builder: RelevanceStoreBuilder::new() }
    }

    /// Returns the number of query-document pairs added so far.
    pub fn n_added(&self) -> (r: usize)
        ensures
            r == self.n_records(),
    {
        self.builder.n_added()
    }

    /// Sets the name of the qrels.
    pub fn name(self, name: String) -> (r: Self)
        ensures
            r@ == self@,
            r.n_records() == self.n_records(),
            r.spec_name() == Some(name),
    {
        QrelsBuilder { name: Some(name), builder: self.builder }
    }

    /// Adds a relevance score to the qrels.
    ///
    /// # Errors
    ///
    /// * [`ElinorError::DuplicateEntry`] if the query-document pair already exists.
    pub fn add_score(&mut self, query_id: String, doc_id: String, score: i32) -> (r: Result<(), ElinorError>)
        requires
            old(self).n_records() < usize::MAX,
        ensures
            final(self).spec_name() == old(self).spec_name(),
            nested_contains(old(self)@, query_id@, doc_id@) ==> {
                &&& final(self)@ == old(self)@
                &&& final(self).n_records() == old(self).n_records()
                &&& r matches Err(ElinorError::DuplicateEntry(m))
                &&& m@ == duplicate_message(query_id@, doc_id@)
            },
            !nested_contains(old(self)@, query_id@, doc_id@) ==> {
                &&& r is Ok
                &&& final(self).n_records() == old(self).n_records() + 1
                &&& final(self)@ == nested_insert(old(self)@, query_id@, doc_id@, score)
            },
    {
        self.builder.add_record(query_id, doc_id, score)
    }

    /// Builds the qrels.
    pub fn build(self) -> (r: Qrels)
        ensures
            r@ == self@,
            r.spec_name() == self.spec_name(),
    {
        Qrels::from_store(self.name, self.builder.build())
    }
}

} // verus!
