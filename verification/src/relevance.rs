//! Data structures for storing relevance scores.
use vstd::prelude::*;
use vstd::string::*;
use crate::errors::ElinorError;
use crate::keys::{seq_lt, lemma_seq_order_all, StoreKey, ScoreValue};
use crate::maps::{
    pairs_to_map, distinct_firsts, lemma_pairs_to_map, lemma_pairs_to_map_insert,
    lemma_pairs_to_map_update, key_seqs, pair_key_seqs, textual_pairs, rels_view,
    strictly_sorted, lemma_strictly_sorted_distinct, lemma_strictly_sorted_insert, search_keys,
    search_pairs, lemma_sorted_unique, insert_key,
};

verus! {

/// Record of a query-document pair.
#[derive(Debug, Clone, PartialEq, Eq, PartialOrd, Ord)]
pub struct Record<K, T> {
    /// Query id.
    pub query_id: K,
    /// Document id.
    pub doc_id: K,
    /// Relevance score.
    pub score: T,
}

/// Data to store a relevance score for a document.
#[derive(Debug, Clone, PartialEq, Eq)]
pub struct Relevance<K, T> {
    /// Document id.
    pub doc_id: K,
    /// Relevance score.
    pub score: T,
}

/// Relevance scores by query id and then document id, both by textual form.
pub type RelMap<T> = Map<Seq<char>, Map<Seq<char>, T>>;

/// The store holds a score for the pair of `q` and `d`.
pub open spec fn nested_contains<T>(m: RelMap<T>, q: Seq<char>, d: Seq<char>) -> bool {
    m.contains_key(q) && m[q].contains_key(d)
}

/// The store after adding the score `s` for the pair of `q` and `d`.
pub open spec fn nested_insert<T>(m: RelMap<T>, q: Seq<char>, d: Seq<char>, s: T) -> RelMap<T> {
    m.insert(
        q,
        if m.contains_key(q) {
            m[q].insert(d, s)
        } else {
            Map::empty().insert(d, s)
        },
    )
}

/// What a store holds after a score is added for a pair: that score for that
/// pair, and for every other pair what it held before.
pub proof fn lemma_nested_insert_read<T>(
    m: RelMap<T>,
    q: Seq<char>,
    d: Seq<char>,
    s: T,
    q2: Seq<char>,
    d2: Seq<char>,
)
    ensures
        nested_contains(nested_insert(m, q, d, s), q, d),
        nested_insert(m, q, d, s)[q][d] == s,
        q2 != q || d2 != d ==> {
            &&& nested_contains(nested_insert(m, q, d, s), q2, d2) == nested_contains(m, q2, d2)
            &&& nested_contains(m, q2, d2) ==> nested_insert(m, q, d, s)[q2][d2] == m[q2][d2]
        },
{
}

/// The message of the error for a query-document pair given twice.
pub open spec fn duplicate_message(q: Seq<char>, d: Seq<char>) -> Seq<char> {
    "Input query-doc pair must be unique, but got query_id="@ + q + ", doc_id="@ + d
}

/// Query ids paired with the maps of their documents.
pub open spec fn query_entries<K: StoreKey, T>(ids: Seq<K>, rels: Seq<Vec<(K, T)>>) -> Seq<
    (Seq<char>, Map<Seq<char>, T>),
> {
    Seq::new(ids.len(), |i: int| (ids[i].key_seq(), rels_view(rels[i]@)))
}

/// A sequence of pairs strictly increasing by key has distinct keys.
pub proof fn lemma_sorted_pairs_distinct<K: StoreKey, T>(r: Seq<(K, T)>)
    requires
        strictly_sorted(pair_key_seqs(r)),
    ensures
        distinct_firsts(textual_pairs(r)),
{
    lemma_strictly_sorted_distinct(pair_key_seqs(r));
    assert forall|i: int, j: int|
        0 <= i < textual_pairs(r).len() && 0 <= j < textual_pairs(r).len() && i
            != j implies textual_pairs(r)[i].0 != textual_pairs(r)[j].0 by {
        assert(pair_key_seqs(r)[i] != pair_key_seqs(r)[j]);
    }
}

/// Strictly increasing query ids give distinct entries.
pub proof fn lemma_entries_distinct<K: StoreKey, T>(ids: Seq<K>, rels: Seq<Vec<(K, T)>>)
    requires
        strictly_sorted(key_seqs(ids)),
    ensures
        distinct_firsts(query_entries(ids, rels)),
{
    lemma_strictly_sorted_distinct(key_seqs(ids));
    let e = query_entries(ids, rels);
    assert forall|i: int, j: int|
        0 <= i < e.len() && 0 <= j < e.len() && i != j implies e[i].0 != e[j].0 by {
        assert(key_seqs(ids)[i] != key_seqs(ids)[j]);
    }
}

/// The map of a single pair.
proof fn lemma_rels_view_single<K: StoreKey, T>(d: K, s: T)
    ensures
        rels_view(seq![(d, s)]) == Map::<Seq<char>, T>::empty().insert(d.key_seq(), s),
{
    let t = textual_pairs(seq![(d, s)]);
    assert(t =~= seq![(d.key_seq(), s)]);
    assert(t.drop_last() =~= Seq::<(Seq<char>, T)>::empty());
    assert(pairs_to_map(t.drop_last()) == Map::<Seq<char>, T>::empty());
    assert(t.last() == (d.key_seq(), s));
}

/// The number of document-score pairs over all queries.
pub open spec fn count_pairs<K, T>(rels: Seq<Vec<(K, T)>>) -> nat
    decreases rels.len(),
{
    if rels.len() == 0 {
        0
    } else {
        count_pairs(rels.drop_last()) + rels.last()@.len()
    }
}

/// Replacing the pairs of one query changes the count by the difference.
proof fn lemma_count_update<K, T>(rels: Seq<Vec<(K, T)>>, i: int, v: Vec<(K, T)>)
    requires
        0 <= i < rels.len(),
    ensures
        count_pairs(rels.update(i, v)) == count_pairs(rels) - rels[i]@.len() + v@.len(),
    decreases rels.len(),
{
    let u = rels.update(i, v);
    if i == rels.len() - 1 {
        assert(u.drop_last() =~= rels.drop_last());
    } else {
        assert(u.drop_last() =~= rels.drop_last().update(i, v));
        lemma_count_update(rels.drop_last(), i, v);
    }
}

/// Inserting the pairs of a new query adds their number.
proof fn lemma_count_insert<K, T>(rels: Seq<Vec<(K, T)>>, p: int, v: Vec<(K, T)>)
    requires
        0 <= p <= rels.len(),
    ensures
        count_pairs(rels.insert(p, v)) == count_pairs(rels) + v@.len(),
    decreases rels.len(),
{
    let u = rels.insert(p, v);
    if p == rels.len() {
        assert(u.drop_last() =~= rels);
    } else {
        assert(u.drop_last() =~= rels.drop_last().insert(p, v));
        lemma_count_insert(rels.drop_last(), p, v);
    }
}

/// Builder for [`RelevanceStore`].
pub struct RelevanceStoreBuilder<K: StoreKey, T> {
    query_ids: Vec<K>,
    rels: Vec<Vec<(K, T)>>,
    // The number of document-score pairs over all queries.
    n_added: usize,
}

impl<K: StoreKey, T> View for RelevanceStoreBuilder<K, T> {
    type V = RelMap<T>;

    closed spec fn view(&self) -> RelMap<T> {
        pairs_to_map(query_entries(self.query_ids@, self.rels@))
    }
}

/// Well-formed query ids and document lists.
pub open spec fn wf_rels<K: StoreKey, T>(ids: Seq<K>, rels: Seq<Vec<(K, T)>>) -> bool {
    &&& ids.len() == rels.len()
    &&& strictly_sorted(key_seqs(ids))
    &&& forall|i: int|
        0 <= i < rels.len() ==> #[trigger] rels[i]@.len() > 0 && strictly_sorted(
            pair_key_seqs(rels[i]@),
        )
}

impl<K: StoreKey, T> RelevanceStoreBuilder<K, T> {
    #[verifier::type_invariant]
    spec fn inv(self) -> bool {
        &&& wf_rels(self.query_ids@, self.rels@)
        &&& count_pairs(self.rels@) == self.n_added
    }

    /// The number of query-document pairs added so far.
    pub closed spec fn n_records(&self) -> nat {
        count_pairs(self.rels@)
    }

    /// Returns the number of query-document pairs added so far.
    pub fn n_added(&self) -> (r: usize)
        ensures
            r == self.n_records(),
    {
        proof {
            use_type_invariant(self);
        }
        self.n_added
    }

    /// Creates a new builder.
    pub fn new() -> (r: Self)
        ensures
            r@ == Map::<Seq<char>, Map<Seq<char>, T>>::empty(),
            r.n_records() == 0,
    {
        let r = RelevanceStoreBuilder { query_ids: Vec::new(), rels: Vec::new(), n_added: 0 };
        assert(query_entries(r.query_ids@, r.rels@) =~= Seq::empty());
        r
    }

    /// Adds a relevance score to the store.
    ///
    /// # Errors
    ///
    /// * [`ElinorError::DuplicateEntry`] if the query-document pair already exists.
    pub fn add_record(&mut self, query_id: K, doc_id: K, score: T) -> (r: Result<(), ElinorError>)
        requires
            old(self).n_records() < usize::MAX,
        ensures
            nested_contains(old(self)@, query_id.key_seq(), doc_id.key_seq()) ==> {
                &&& final(self)@ == old(self)@
                &&& final(self).n_records() == old(self).n_records()
                &&& r matches Err(ElinorError::DuplicateEntry(m))
                &&& m@ == duplicate_message(query_id.key_seq(), doc_id.key_seq())
            },
            !nested_contains(old(self)@, query_id.key_seq(), doc_id.key_seq()) ==> {
                &&& r is Ok
                &&& final(self).n_records() == old(self).n_records() + 1
                &&& final(self)@ == nested_insert(
                    old(self)@,
                    query_id.key_seq(),
                    doc_id.key_seq(),
                    score,
                )
            },
    {
        proof {
            use_type_invariant(&*self);
        }
        let ghost old_view = self@;
        let mut taken = Self::new();
        std::mem::swap(self, &mut taken);
        proof {
            use_type_invariant(&taken);
        }
        let RelevanceStoreBuilder { mut query_ids, mut rels, n_added } = taken;
        assert(count_pairs(rels@) == old(self).n_records());
        let ghost qk = query_id.key_seq();
        let ghost dk = doc_id.key_seq();
        let ghost ids0 = query_ids@;
        let ghost rels0 = rels@;
        proof {
            lemma_entries_distinct(ids0, rels0);
            lemma_pairs_to_map(query_entries(ids0, rels0));
            lemma_seq_order_all();
        }
        match search_keys(&query_ids, &query_id) {
            Ok(i) => {
                assert(query_entries(ids0, rels0)[i as int].0 == qk);
                assert(old_view[qk] == rels_view(rels0[i as int]@));
                proof {
                    lemma_sorted_pairs_distinct(rels0[i as int]@);
                    lemma_pairs_to_map(textual_pairs(rels0[i as int]@));
                }
                match search_pairs(&rels[i], &doc_id) {
                    Ok(j) => {
                        assert(textual_pairs(rels0[i as int]@)[j as int].0 == dk);
                        *self = RelevanceStoreBuilder { query_ids, rels, n_added };
                        let mut msg = String::from_str(
                            "Input query-doc pair must be unique, but got query_id=",
                        );
                        let qt = query_id.key_text();
                        msg.append(qt.as_str());
                        msg.append(", doc_id=");
                        let dt = doc_id.key_text();
                        msg.append(dt.as_str());
                        return Err(ElinorError::DuplicateEntry(msg));
                    },
                    Err(p) => {
                        let ghost inner0 = rels0[i as int]@;
                        proof {
                            assert forall|jj: int|
                                0 <= jj < textual_pairs(inner0).len() implies textual_pairs(
                                inner0,
                            )[jj].0 != dk by {
                                if jj < p {
                                    assert(seq_lt(inner0[jj].0.key_seq(), dk));
                                } else {
                                    assert(seq_lt(dk, inner0[jj].0.key_seq()));
                                }
                            }
                        }
                        let mut inner = rels.remove(i);
                        inner.insert(p, (doc_id, score));
                        proof {
                            assert(textual_pairs(inner@) =~= textual_pairs(inner0).insert(
                                p as int,
                                (dk, score),
                            ));
                            lemma_pairs_to_map_insert(textual_pairs(inner0), p as int, (dk, score));
                            assert(pair_key_seqs(inner@) =~= pair_key_seqs(inner0).insert(
                                p as int,
                                dk,
                            ));
                            lemma_strictly_sorted_insert(pair_key_seqs(inner0), p as int, dk);
                        }
                        rels.insert(i, inner);
                        proof {
                            assert(rels@ =~= rels0.update(i as int, inner));
                            lemma_count_update(rels0, i as int, inner);
                            let e0 = query_entries(ids0, rels0);
                            assert(query_entries(query_ids@, rels@) =~= e0.update(
                                i as int,
                                (e0[i as int].0, rels_view(inner@)),
                            ));
                            lemma_pairs_to_map_update(e0, i as int, rels_view(inner@));
                        }
                        *self = RelevanceStoreBuilder { query_ids, rels, n_added: n_added + 1 };
                        return Ok(());
                    },
                }
            },
            Err(p) => {
                let ghost e0 = query_entries(ids0, rels0);
                proof {
                    assert forall|jj: int| 0 <= jj < e0.len() implies e0[jj].0 != qk by {
                        if jj < p {
                            assert(seq_lt(ids0[jj].key_seq(), qk));
                        } else {
                            assert(seq_lt(qk, ids0[jj].key_seq()));
                        }
                    }
                    assert(!old_view.contains_key(qk));
                }
                let ghost dkk = doc_id.key_seq();
                query_ids.insert(p, query_id);
                rels.insert(p, vec![(doc_id, score)]);
                proof {
                    let inner = rels@[p as int];
                    lemma_count_insert(rels0, p as int, inner);
                    assert(inner@ =~= seq![(inner@[0].0, score)]);
                    lemma_rels_view_single(inner@[0].0, score);
                    assert(query_entries(query_ids@, rels@) =~= e0.insert(
                        p as int,
                        (qk, Map::empty().insert(dkk, score)),
                    ));
                    lemma_pairs_to_map_insert(e0, p as int, (qk, Map::empty().insert(dkk, score)));
                    assert(key_seqs(query_ids@) =~= key_seqs(ids0).insert(p as int, qk));
                    lemma_strictly_sorted_insert(key_seqs(ids0), p as int, qk);
                    assert(pair_key_seqs(inner@) =~= seq![dkk]);
                    assert forall|ii: int| 0 <= ii < rels@.len() implies #[trigger] rels@[ii]@.len()
                        > 0 && strictly_sorted(pair_key_seqs(rels@[ii]@)) by {
                        if ii < p {
                            assert(rels@[ii] == rels0[ii]);
                        } else if ii > p {
                            assert(rels@[ii] == rels0[ii - 1]);
                        }
                    }
                }
                *self = RelevanceStoreBuilder { query_ids, rels, n_added: n_added + 1 };
                Ok(())
            },
        }
    }
}


/// `a` comes before `b` in a ranking: a higher score first, then the
/// smaller document id.
pub open spec fn rel_before<K: StoreKey, T: ScoreValue>(a: Relevance<K, T>, b: Relevance<K, T>) -> bool {
    ||| a.score.score_int() > b.score.score_int()
    ||| (a.score.score_int() == b.score.score_int() && seq_lt(
        a.doc_id.key_seq(),
        b.doc_id.key_seq(),
    ))
}

/// A ranking strictly ordered by `rel_before`.
pub open spec fn rel_sorted<K: StoreKey, T: ScoreValue>(s: Seq<Relevance<K, T>>) -> bool {
    forall|a: int, b: int| 0 <= a < b < s.len() ==> rel_before(#[trigger] s[a], #[trigger] s[b])
}

/// A relevance entry stands for a document-score pair.
pub open spec fn rel_matches<K: StoreKey, T>(x: Relevance<K, T>, p: (K, T)) -> bool {
    x.doc_id.key_seq() == p.0.key_seq() && x.score == p.1
}

/// Some of the first `n` pairs of `r` matches the entry `x`.
pub open spec fn pair_listed<K: StoreKey, T>(r: Seq<(K, T)>, n: int, x: Relevance<K, T>) -> bool {
    exists|j: int| 0 <= j < n && rel_matches(x, r[j])
}

/// Some entry of the ranking `s` matches the pair `p`.
pub open spec fn entry_listed<K: StoreKey, T>(s: Seq<Relevance<K, T>>, p: (K, T)) -> bool {
    exists|a: int| 0 <= a < s.len() && rel_matches(s[a], p)
}

/// The ranking `s` lists exactly the pairs of `r`, in the order `rel_before`.
pub open spec fn ranks_pairs<K: StoreKey, T: ScoreValue>(r: Seq<(K, T)>, s: Seq<Relevance<K, T>>) -> bool {
    &&& s.len() == r.len()
    &&& rel_sorted(s)
    &&& forall|a: int| 0 <= a < s.len() ==> #[trigger] pair_listed(r, r.len() as int, s[a])
    &&& forall|j: int| 0 <= j < r.len() ==> #[trigger] entry_listed(s, r[j])
}

/// `rel_before` is a strict order, total on entries with distinct documents.
pub proof fn lemma_rel_before<K: StoreKey, T: ScoreValue>(
    a: Relevance<K, T>,
    b: Relevance<K, T>,
    c: Relevance<K, T>,
)
    ensures
        !rel_before(a, a),
        !(rel_before(a, b) && rel_before(b, a)),
        a.doc_id.key_seq() != b.doc_id.key_seq() ==> (rel_before(a, b) || rel_before(b, a)),
        rel_before(a, b) && rel_before(b, c) ==> rel_before(a, c),
{
    lemma_seq_order_all();
}

/// Whether `a` comes before `b` in a ranking.
fn rel_precedes<K: StoreKey, T: ScoreValue>(a: &Relevance<K, T>, b: &Relevance<K, T>) -> (r: bool)
    ensures
        r == rel_before(*a, *b),
{
    if b.score.score_lt(&a.score) {
        true
    } else if a.score.score_lt(&b.score) {
        false
    } else {
        a.doc_id.key_lt(&b.doc_id)
    }
}

/// The place of `x` in a ranking that holds no entry for its document.
fn rank_position<K: StoreKey, T: ScoreValue>(out: &Vec<Relevance<K, T>>, x: &Relevance<K, T>) -> (p: usize)
    requires
        rel_sorted(out@),
        forall|a: int| 0 <= a < out@.len() ==> (#[trigger] out@[a]).doc_id.key_seq() != x.doc_id.key_seq(),
    ensures
        p <= out.len(),
        forall|a: int| 0 <= a < p ==> rel_before(#[trigger] out@[a], *x),
        forall|a: int| p <= a < out.len() ==> rel_before(*x, #[trigger] out@[a]),
{
    let mut p: usize = 0;
    while p < out.len() && rel_precedes(&out[p], x)
        invariant
            p <= out.len(),
            forall|a: int| 0 <= a < p ==> rel_before(#[trigger] out@[a], *x),
        decreases out.len() - p,
    {
        p = p + 1;
    }
    proof {
        if p < out@.len() {
            lemma_rel_before(out@[p as int], *x, *x);
            assert(rel_before(*x, out@[p as int]));
            assert forall|a: int| p <= a < out@.len() implies rel_before(*x, #[trigger] out@[a]) by {
                if a > p {
                    lemma_rel_before(*x, out@[p as int], out@[a]);
                }
            }
        }
    }
    p
}

/// Inserting an entry at its place keeps a ranking strictly ordered.
proof fn lemma_rank_insert<K: StoreKey, T: ScoreValue>(out0: Seq<Relevance<K, T>>, p: int, x: Relevance<K, T>)
    requires
        rel_sorted(out0),
        0 <= p <= out0.len(),
        forall|a: int| 0 <= a < p ==> rel_before(#[trigger] out0[a], x),
        forall|a: int| p <= a < out0.len() ==> rel_before(x, #[trigger] out0[a]),
    ensures
        rel_sorted(out0.insert(p, x)),
{
    let u = out0.insert(p, x);
    assert forall|a: int, b: int| 0 <= a < b < u.len() implies rel_before(#[trigger] u[a], #[trigger] u[b]) by {
        if a < p && b < p {
            assert(u[a] == out0[a] && u[b] == out0[b]);
        } else if a < p && b == p {
            assert(u[a] == out0[a]);
        } else if a < p {
            assert(u[a] == out0[a] && u[b] == out0[b - 1]);
        } else if a == p {
            assert(u[b] == out0[b - 1]);
        } else {
            assert(u[a] == out0[a - 1] && u[b] == out0[b - 1]);
        }
    }
}

/// Inserting the entry of the next pair keeps a ranking listing the pairs seen so far.
proof fn lemma_rank_insert_matches<K: StoreKey, T: ScoreValue>(
    r: Seq<(K, T)>,
    j: int,
    out0: Seq<Relevance<K, T>>,
    p: int,
    x: Relevance<K, T>,
)
    requires
        0 <= j < r.len(),
        0 <= p <= out0.len(),
        rel_matches(x, r[j]),
        forall|a: int| 0 <= a < out0.len() ==> #[trigger] pair_listed(r, j, out0[a]),
        forall|jj: int| 0 <= jj < j ==> #[trigger] entry_listed(out0, r[jj]),
    ensures
        forall|a: int| 0 <= a < out0.len() + 1 ==> #[trigger] pair_listed(r, j + 1, out0.insert(p, x)[a]),
        forall|jj: int| 0 <= jj < j + 1 ==> #[trigger] entry_listed(out0.insert(p, x), r[jj]),
{
    let u = out0.insert(p, x);
    assert forall|a: int| 0 <= a < out0.len() + 1 implies #[trigger] pair_listed(r, j + 1, u[a]) by {
        if a < p {
            assert(u[a] == out0[a]);
            assert(pair_listed(r, j, out0[a]));
        } else if a == p {
            assert(rel_matches(u[a], r[j]));
        } else {
            assert(u[a] == out0[a - 1]);
            assert(pair_listed(r, j, out0[a - 1]));
        }
    }
    assert forall|jj: int| 0 <= jj < j + 1 implies #[trigger] entry_listed(u, r[jj]) by {
        if jj == j {
            assert(rel_matches(u[p], r[jj]));
        } else {
            assert(entry_listed(out0, r[jj]));
            let a = choose|a: int| 0 <= a < out0.len() && rel_matches(out0[a], r[jj]);
            if a < p {
                assert(u[a] == out0[a]);
            } else {
                assert(u[a + 1] == out0[a]);
            }
        }
    }
}

/// Ranks document-score pairs: higher scores first, ties by document id.
fn rank_pairs<K: StoreKey, T: ScoreValue>(rels: &Vec<(K, T)>) -> (out: Vec<Relevance<K, T>>)
    requires
        strictly_sorted(pair_key_seqs(rels@)),
    ensures
        ranks_pairs(rels@, out@),
{
    proof {
        lemma_strictly_sorted_distinct(pair_key_seqs(rels@));
    }
    let mut out: Vec<Relevance<K, T>> = Vec::new();
    let n = rels.len();
    let mut j: usize = 0;
    while j < n
        invariant
            n == rels.len(),
            j <= n,
            out.len() == j,
            rel_sorted(out@),
            forall|i1: int, i2: int|
                0 <= i1 < rels.len() && 0 <= i2 < rels.len() && i1 != i2
                    ==> pair_key_seqs(rels@)[i1] != pair_key_seqs(rels@)[i2],
            forall|a: int| 0 <= a < out.len() ==> #[trigger] pair_listed(rels@, j as int, out@[a]),
            forall|jj: int| 0 <= jj < j ==> #[trigger] entry_listed(out@, rels@[jj]),
        decreases n - j,
    {
        let x = Relevance { doc_id: rels[j].0.key_clone(), score: rels[j].1 };
        let ghost out0 = out@;
        proof {
            assert forall|a: int| 0 <= a < out0.len() implies (#[trigger] out0[a]).doc_id.key_seq()
                != x.doc_id.key_seq() by {
                assert(pair_listed(rels@, j as int, out0[a]));
                let jj = choose|jj: int| 0 <= jj < j && rel_matches(out0[a], rels@[jj]);
                assert(pair_key_seqs(rels@)[jj] == rels@[jj].0.key_seq());
                assert(pair_key_seqs(rels@)[j as int] == rels@[j as int].0.key_seq());
            }
        }
        let p = rank_position(&out, &x);
        out.insert(p, x);
        proof {
            lemma_rank_insert(out0, p as int, x);
            lemma_rank_insert_matches(rels@, j as int, out0, p as int, x);
        }
        j = j + 1;
    }
    out
}

/// Data structure for storing relevance scores.
///
/// # Type parameters
///
/// * `K` - Query/document id.
/// * `T` - Relevance score.
pub struct RelevanceStore<K: StoreKey, T: ScoreValue> {
    // Query ids in increasing order, with, for each one:
    //  - its documents and scores in increasing order of document id;
    //  - the same pairs ranked in descending order of score.
    query_ids: Vec<K>,
    rels: Vec<Vec<(K, T)>>,
    sorted: Vec<Vec<Relevance<K, T>>>,
}

impl<K: StoreKey, T: ScoreValue> View for RelevanceStore<K, T> {
    type V = RelMap<T>;

    closed spec fn view(&self) -> RelMap<T> {
        pairs_to_map(query_entries(self.query_ids@, self.rels@))
    }
}

impl<K: StoreKey, T: ScoreValue> RelevanceStoreBuilder<K, T> {
    /// Builds the relevance store.
    pub fn build(self) -> (r: RelevanceStore<K, T>)
        ensures
            r@ == self@,
    {
        proof {
            use_type_invariant(&self);
        }
        let RelevanceStoreBuilder { query_ids, rels, n_added } = self;
        assert(count_pairs(rels@) <= usize::MAX);
        let mut sorted: Vec<Vec<Relevance<K, T>>> = Vec::new();
        let n = rels.len();
        let mut i: usize = 0;
        while i < n
            invariant
                n == rels.len(),
                i <= n,
                sorted.len() == i,
                wf_rels(query_ids@, rels@),
                count_pairs(rels@) <= usize::MAX,
                forall|ii: int| 0 <= ii < i ==> ranks_pairs(rels@[ii]@, #[trigger] sorted@[ii]@),
            decreases n - i,
        {
            let s = rank_pairs(&rels[i]);
            sorted.push(s);
            i = i + 1;
        }
        RelevanceStore { query_ids, rels, sorted }
    }
}

impl<K: StoreKey, T: ScoreValue> RelevanceStore<K, T> {
    #[verifier::type_invariant]
    spec fn inv(self) -> bool {
        &&& wf_rels(self.query_ids@, self.rels@)
        &&& count_pairs(self.rels@) <= usize::MAX
        &&& self.sorted@.len() == self.rels@.len()
        &&& forall|i: int|
            0 <= i < self.rels@.len() ==> ranks_pairs(self.rels@[i]@, #[trigger] self.sorted@[i]@)
    }
}

/// The ranking `s` lists exactly the document-score pairs of `m`, in the order `rel_before`.
pub open spec fn ranks_map<K: StoreKey, T: ScoreValue>(m: Map<Seq<char>, T>, s: Seq<Relevance<K, T>>) -> bool {
    &&& rel_sorted(s)
    &&& s.len() == m.len()
    &&& forall|a: int|
        0 <= a < s.len() ==> m.contains_key((#[trigger] s[a]).doc_id.key_seq()) && m[s[a].doc_id.key_seq()]
            == s[a].score
    &&& forall|d: Seq<char>|
        #[trigger] m.contains_key(d) ==> exists|a: int| 0 <= a < s.len() && s[a].doc_id.key_seq() == d
}

/// A ranking of the pairs of a sorted document list ranks their map.
proof fn lemma_ranks_pairs_map<K: StoreKey, T: ScoreValue>(r: Seq<(K, T)>, s: Seq<Relevance<K, T>>)
    requires
        strictly_sorted(pair_key_seqs(r)),
        ranks_pairs(r, s),
    ensures
        ranks_map(rels_view(r), s),
{
    lemma_sorted_pairs_distinct(r);
    lemma_pairs_to_map(textual_pairs(r));
    let m = rels_view(r);
    assert forall|a: int| 0 <= a < s.len() implies m.contains_key((#[trigger] s[a]).doc_id.key_seq())
        && m[s[a].doc_id.key_seq()] == s[a].score by {
        assert(pair_listed(r, r.len() as int, s[a]));
        let j = choose|j: int| 0 <= j < r.len() && rel_matches(s[a], r[j]);
        assert(textual_pairs(r)[j] == (r[j].0.key_seq(), r[j].1));
    }
    assert forall|d: Seq<char>| #[trigger] m.contains_key(d) implies exists|a: int|
        0 <= a < s.len() && s[a].doc_id.key_seq() == d by {
        let j = choose|j: int| 0 <= j < textual_pairs(r).len() && textual_pairs(r)[j].0 == d;
        assert(entry_listed(s, r[j]));
    }
}

impl<K: StoreKey, T: ScoreValue> RelevanceStore<K, T> {
    /// The store's view holds the document map of each query.
    proof fn lemma_view(&self)
        requires
            wf_rels(self.query_ids@, self.rels@),
        ensures
            self@.dom().finite(),
            self@.len() == self.query_ids@.len(),
            forall|q: Seq<char>|
                #[trigger] self@.contains_key(q) <==> exists|i: int|
                    0 <= i < self.query_ids@.len() && self.query_ids@[i].key_seq() == q,
            forall|i: int|
                0 <= i < self.query_ids@.len() ==> #[trigger] self@[self.query_ids@[i].key_seq()]
                    == rels_view(self.rels@[i]@),
    {
        let e = query_entries(self.query_ids@, self.rels@);
        lemma_entries_distinct(self.query_ids@, self.rels@);
        lemma_pairs_to_map(e);
        assert forall|q: Seq<char>| #[trigger] self@.contains_key(q) <==> exists|i: int|
            0 <= i < self.query_ids@.len() && self.query_ids@[i].key_seq() == q by {
            if self@.contains_key(q) {
                let i = choose|i: int| 0 <= i < e.len() && e[i].0 == q;
                assert(self.query_ids@[i].key_seq() == q);
            }
            if exists|i: int| 0 <= i < self.query_ids@.len() && self.query_ids@[i].key_seq() == q {
                let i = choose|i: int| 0 <= i < self.query_ids@.len() && self.query_ids@[i].key_seq() == q;
                assert(e[i].0 == q);
            }
        }
        assert forall|i: int| 0 <= i < self.query_ids@.len() implies #[trigger] self@[self.query_ids@[i].key_seq()]
            == rels_view(self.rels@[i]@) by {
            assert(e[i].0 == self.query_ids@[i].key_seq());
        }
    }

    /// Finds the position of a query id.
    fn find_query(&self, query_id: &K) -> (r: Option<usize>)
        ensures
            match r {
                Some(i) => {
                    &&& i < self.query_ids@.len()
                    &&& self.query_ids@[i as int].key_seq() == query_id.key_seq()
                    &&& self@.contains_key(query_id.key_seq())
                    &&& self@[query_id.key_seq()] == rels_view(self.rels@[i as int]@)
                },
                None => !self@.contains_key(query_id.key_seq()),
            },
    {
        proof {
            use_type_invariant(self);
            self.lemma_view();
            lemma_seq_order_all();
        }
        match search_keys(&self.query_ids, query_id) {
            Ok(i) => Some(i),
            Err(p) => {
                proof {
                    if self@.contains_key(query_id.key_seq()) {
                        let i = choose|i: int|
                            0 <= i < self.query_ids@.len() && self.query_ids@[i].key_seq()
                                == query_id.key_seq();
                        if i < p {
                            assert(seq_lt(self.query_ids@[i].key_seq(), query_id.key_seq()));
                        } else {
                            assert(seq_lt(query_id.key_seq(), self.query_ids@[i].key_seq()));
                        }
                    }
                }
                None
            },
        }
    }

    /// Returns the score for a given query-document pair.
    pub fn get_score(&self, query_id: &K, doc_id: &K) -> (r: Option<&T>)
        ensures
            match r {
                Some(s) => nested_contains(self@, query_id.key_seq(), doc_id.key_seq())
                    && *s == self@[query_id.key_seq()][doc_id.key_seq()],
                None => !nested_contains(self@, query_id.key_seq(), doc_id.key_seq()),
            },
    {
        proof {
            use_type_invariant(self);
            lemma_seq_order_all();
        }
        match self.find_query(query_id) {
            None => None,
            Some(i) => {
                let rels = &self.rels[i];
                proof {
                    lemma_sorted_pairs_distinct(rels@);
                    lemma_pairs_to_map(textual_pairs(rels@));
                }
                match search_pairs(rels, doc_id) {
                    Ok(j) => {
                        assert(textual_pairs(rels@)[j as int] == (rels@[j as int].0.key_seq(), rels@[j as int].1));
                        Some(&rels[j].1)
                    },
                    Err(p) => {
                        proof {
                            let dk = doc_id.key_seq();
                            if rels_view(rels@).contains_key(dk) {
                                let j = choose|j: int| 0 <= j < textual_pairs(rels@).len() && textual_pairs(rels@)[j].0 == dk;
                                assert(textual_pairs(rels@)[j].0 == rels@[j].0.key_seq());
                                if j < p {
                                    assert(seq_lt(rels@[j].0.key_seq(), dk));
                                } else {
                                    assert(seq_lt(dk, rels@[j].0.key_seq()));
                                }
                            }
                        }
                        None
                    },
                }
            },
        }
    }

    /// Returns the relevance map for a given query id, as document-score
    /// pairs in increasing order of document id.
    pub fn get_map(&self, query_id: &K) -> (r: Option<&Vec<(K, T)>>)
        ensures
            match r {
                Some(m) => self@.contains_key(query_id.key_seq()) && rels_view(m@) == self@[query_id.key_seq()]
                    && strictly_sorted(pair_key_seqs(m@)),
                None => !self@.contains_key(query_id.key_seq()),
            },
    {
        proof {
            use_type_invariant(self);
        }
        match self.find_query(query_id) {
            None => None,
            Some(i) => Some(&self.rels[i]),
        }
    }

    /// Returns the sorted list of relevance scores in descending order
    /// for a given query id.
    pub fn get_sorted(&self, query_id: &K) -> (r: Option<&[Relevance<K, T>]>)
        ensures
            match r {
                Some(s) => self@.contains_key(query_id.key_seq()) && ranks_map(self@[query_id.key_seq()], s@),
                None => !self@.contains_key(query_id.key_seq()),
            },
    {
        proof {
            use_type_invariant(self);
        }
        match self.find_query(query_id) {
            None => None,
            Some(i) => {
                proof {
                    lemma_ranks_pairs_map(self.rels@[i as int]@, self.sorted@[i as int]@);
                }
                Some(self.sorted[i].as_slice())
            },
        }
    }

    /// Returns an iterator over the query ids, in increasing order.
    pub fn query_ids(&self) -> (r: core::slice::Iter<'_, K>)
        ensures
            strictly_sorted(key_seqs(vstd::std_specs::iter::IteratorSpec::remaining(&r).unref())),
            forall|q: Seq<char>|
                #[trigger] self@.contains_key(q) <==> key_seqs(vstd::std_specs::iter::IteratorSpec::remaining(&r).unref()).contains(q),
    {
        proof {
            use_type_invariant(self);
            self.lemma_view();
        }
        let r = self.query_ids.as_slice().iter();
        proof {
            broadcast use vstd::std_specs::slice::axiom_spec_slice_iter;
            assert(vstd::std_specs::iter::IteratorSpec::remaining(&r).unref() =~= self.query_ids@);
            assert forall|q: Seq<char>| #[trigger] self@.contains_key(q) <==> key_seqs(self.query_ids@).contains(q) by {
                if key_seqs(self.query_ids@).contains(q) {
                    let i = choose|i: int| 0 <= i < key_seqs(self.query_ids@).len() && key_seqs(self.query_ids@)[i] == q;
                    assert(self.query_ids@[i].key_seq() == q);
                }
                if self@.contains_key(q) {
                    let i = choose|i: int| 0 <= i < self.query_ids@.len() && self.query_ids@[i].key_seq() == q;
                    assert(key_seqs(self.query_ids@)[i] == q);
                }
            }
        }
        r
    }

    /// The textual query ids of the store, in increasing order.
    pub closed spec fn spec_query_ids(&self) -> Seq<Seq<char>> {
        key_seqs(self.query_ids@)
    }

    /// Returns the number of query ids in the store.
    pub fn n_queries(&self) -> (r: usize)
        ensures
            r == self@.len(),
            r == self.spec_query_ids().len(),
            strictly_sorted(self.spec_query_ids()),
            forall|q: Seq<char>| #[trigger] self@.contains_key(q) <==> self.spec_query_ids().contains(q),
    {
        proof {
            use_type_invariant(self);
            self.lemma_view();
            assert forall|q: Seq<char>| #[trigger] self@.contains_key(q) <==> key_seqs(self.query_ids@).contains(q) by {
                if key_seqs(self.query_ids@).contains(q) {
                    let i = choose|i: int| 0 <= i < key_seqs(self.query_ids@).len() && key_seqs(self.query_ids@)[i] == q;
                    assert(self.query_ids@[i].key_seq() == q);
                }
                if self@.contains_key(q) {
                    let i = choose|i: int| 0 <= i < self.query_ids@.len() && self.query_ids@[i].key_seq() == q;
                    assert(key_seqs(self.query_ids@)[i] == q);
                }
            }
        }
        self.query_ids.len()
    }

    /// The `i`-th query id, in increasing order.
    pub fn query_id_at(&self, i: usize) -> (r: &K)
        requires
            i < self.spec_query_ids().len(),
        ensures
            r.key_seq() == self.spec_query_ids()[i as int],
    {
        &self.query_ids[i]
    }
}

/// Query-document-score triples by textual ids.
pub type Triple<T> = (Seq<char>, Seq<char>, T);

/// The triples of a query's ranking.
pub open spec fn ranked_triples<K: StoreKey, T>(q: K, s: Seq<Relevance<K, T>>) -> Seq<Triple<T>> {
    s.map_values(|x: Relevance<K, T>| (q.key_seq(), x.doc_id.key_seq(), x.score))
}

/// The triples of the rankings of the first `n` queries, query by query.
pub open spec fn flat_triples<K: StoreKey, T>(
    ids: Seq<K>,
    sorted: Seq<Vec<Relevance<K, T>>>,
    n: int,
) -> Seq<Triple<T>>
    decreases n,
{
    if n <= 0 {
        Seq::empty()
    } else {
        flat_triples(ids, sorted, n - 1) + ranked_triples(ids[n - 1], sorted[n - 1]@)
    }
}

/// The triples of records.
pub open spec fn record_triples<K: StoreKey, T>(recs: Seq<Record<K, T>>) -> Seq<Triple<T>> {
    recs.map_values(|r: Record<K, T>| (r.query_id.key_seq(), r.doc_id.key_seq(), r.score))
}

/// The rankings hold as many entries as the document lists.
proof fn lemma_flat_len<K: StoreKey, T: ScoreValue>(
    ids: Seq<K>,
    rels: Seq<Vec<(K, T)>>,
    sorted: Seq<Vec<Relevance<K, T>>>,
    n: int,
)
    requires
        0 <= n <= rels.len(),
        sorted.len() == rels.len(),
        forall|i: int| 0 <= i < rels.len() ==> (#[trigger] sorted[i])@.len() == rels[i]@.len(),
    ensures
        flat_triples(ids, sorted, n).len() == count_pairs(rels.take(n)),
    decreases n,
{
    if n > 0 {
        lemma_flat_len(ids, rels, sorted, n - 1);
        assert(rels.take(n).drop_last() =~= rels.take(n - 1));
        assert(sorted[n - 1]@.len() == rels[n - 1]@.len());
    } else {
        assert(rels.take(0).len() == 0);
    }
}

impl<K: StoreKey, T: ScoreValue> RelevanceStore<K, T> {
    /// All query-document-score triples of the store: queries in increasing
    /// order of id, and the documents of each query in descending order of
    /// score (ties in increasing order of document id).
    pub closed spec fn spec_records(&self) -> Seq<Triple<T>> {
        flat_triples(self.query_ids@, self.sorted@, self.query_ids@.len() as int)
    }

    /// The records of the store hold its pairs once each, in order.
    proof fn lemma_records(&self)
        requires
            wf_rels(self.query_ids@, self.rels@),
            self.sorted@.len() == self.rels@.len(),
            forall|i: int| 0 <= i < self.rels@.len() ==> ranks_pairs(self.rels@[i]@, #[trigger] self.sorted@[i]@),
        ensures
            no_dup_pairs(self.spec_records()),
            records_ordered(self.spec_records()),
            fold_records(self.spec_records()) == self@,
            n_pairs(self@) == self.spec_records().len(),
    {
        let n = self.query_ids@.len() as int;
        lemma_flat_exact(self.query_ids@, self.rels@, self.sorted@, n);
        let e = query_entries(self.query_ids@, self.rels@);
        assert(e.take(n) =~= e);
        lemma_fold_n_pairs(self.spec_records());
    }

    /// Returns the relevance store as records: queries in increasing order
    /// of id, the documents of each query in descending order of score (ties
    /// in increasing order of document id).
    pub fn records(&self) -> (r: Vec<Record<K, T>>)
        ensures
            no_dup_pairs(record_triples(r@)),
            records_ordered(record_triples(r@)),
            fold_records(record_triples(r@)) == self@,
            r@.len() == n_pairs(self@),
    {
        proof {
            use_type_invariant(self);
            self.lemma_records();
        }
        let mut out: Vec<Record<K, T>> = Vec::new();
        let n = self.query_ids.len();
        let mut i: usize = 0;
        while i < n
            invariant
                n == self.query_ids@.len(),
                n == self.sorted@.len(),
                i <= n,
                record_triples(out@) == flat_triples(self.query_ids@, self.sorted@, i as int),
            decreases n - i,
        {
            let ranking = &self.sorted[i];
            let qid = &self.query_ids[i];
            let ghost base = out@;
            let mut k: usize = 0;
            while k < ranking.len()
                invariant
                    k <= ranking@.len(),
                    i < n,
                    n == self.query_ids@.len(),
                    n == self.sorted@.len(),
                    *ranking == self.sorted@[i as int],
                    *qid == self.query_ids@[i as int],
                    record_triples(out@) == flat_triples(self.query_ids@, self.sorted@, i as int)
                        + ranked_triples(*qid, ranking@.take(k as int)),
                decreases ranking@.len() - k,
            {
                let rel = &ranking[k];
                let ghost prev = out@;
                out.push(Record { query_id: qid.key_clone(), doc_id: rel.doc_id.key_clone(), score: rel.score });
                proof {
                    assert(record_triples(out@) =~= record_triples(prev).push(
                        (qid.key_seq(), rel.doc_id.key_seq(), rel.score),
                    ));
                    assert(ranked_triples(*qid, ranking@.take(k + 1)) =~= ranked_triples(*qid, ranking@.take(k as int)).push(
                        (qid.key_seq(), rel.doc_id.key_seq(), rel.score),
                    ));
                    assert(record_triples(out@) =~= flat_triples(self.query_ids@, self.sorted@, i as int)
                        + ranked_triples(*qid, ranking@.take(k + 1)));
                }
                k = k + 1;
            }
            proof {
                assert(ranking@.take(k as int) =~= ranking@);
            }
            i = i + 1;
        }
        out
    }

    /// Exports the relevance store into records, in the order of [`Self::records`].
    pub fn into_records(self) -> (r: Vec<Record<K, T>>)
        ensures
            no_dup_pairs(record_triples(r@)),
            records_ordered(record_triples(r@)),
            fold_records(record_triples(r@)) == self@,
            r@.len() == n_pairs(self@),
    {
        self.records()
    }

    /// Returns the number of document ids in the store, counted once for
    /// each query that has them.
    pub fn n_docs(&self) -> (r: usize)
        ensures
            r == n_pairs(self@),
    {
        proof {
            use_type_invariant(self);
            self.lemma_records();
            lemma_flat_len(self.query_ids@, self.rels@, self.sorted@, self.rels@.len() as int);
            assert(self.rels@.take(self.rels@.len() as int) =~= self.rels@);
        }
        let mut total: usize = 0;
        let n = self.rels.len();
        let mut i: usize = 0;
        while i < n
            invariant
                n == self.rels@.len(),
                i <= n,
                total == count_pairs(self.rels@.take(i as int)),
                count_pairs(self.rels@) <= usize::MAX,
            decreases n - i,
        {
            proof {
                assert(self.rels@.take(i + 1).drop_last() =~= self.rels@.take(i as int));
                lemma_count_prefix(self.rels@, i as int + 1);
            }
            total = total + self.rels[i].len();
            i = i + 1;
        }
        proof {
            assert(self.rels@.take(n as int) =~= self.rels@);
        }
        total
    }
}

/// The count of a prefix is at most the count of the whole.
proof fn lemma_count_prefix<K, T>(rels: Seq<Vec<(K, T)>>, n: int)
    requires
        0 <= n <= rels.len(),
    ensures
        count_pairs(rels.take(n)) <= count_pairs(rels),
    decreases rels.len() - n,
{
    if n < rels.len() {
        lemma_count_prefix(rels, n + 1);
        assert(rels.take(n + 1).drop_last() =~= rels.take(n));
    } else {
        assert(rels.take(n) =~= rels);
    }
}

/// The store that adding the triples one by one describes.
pub open spec fn fold_records<T>(ts: Seq<Triple<T>>) -> RelMap<T>
    decreases ts.len(),
{
    if ts.len() == 0 {
        Map::empty()
    } else {
        nested_insert(fold_records(ts.drop_last()), ts.last().0, ts.last().1, ts.last().2)
    }
}

/// The triple at `j` repeats the query-document pair of an earlier triple.
pub open spec fn pair_dup_at<T>(ts: Seq<Triple<T>>, j: int) -> bool {
    exists|i: int| 0 <= i < j && ts[i].0 == ts[j].0 && ts[i].1 == ts[j].1
}

/// No two triples share their query-document pair.
pub open spec fn no_dup_pairs<T>(ts: Seq<Triple<T>>) -> bool {
    forall|i: int, j: int|
        0 <= i < j < ts.len() ==> !(ts[i].0 == ts[j].0 && ts[i].1 == ts[j].1)
}

/// The folded store holds exactly the query-document pairs of the triples.
pub proof fn lemma_fold_contains<T>(ts: Seq<Triple<T>>, q: Seq<char>, d: Seq<char>)
    ensures
        nested_contains(fold_records(ts), q, d) <==> exists|i: int|
            0 <= i < ts.len() && ts[i].0 == q && ts[i].1 == d,
        forall|q2: Seq<char>|
            #[trigger] fold_records(ts).contains_key(q2) <==> exists|i: int|
                0 <= i < ts.len() && ts[i].0 == q2,
    decreases ts.len(),
{
    if ts.len() > 0 {
        let t = ts.drop_last();
        lemma_fold_contains(t, q, d);
        assert forall|q2: Seq<char>| #[trigger] fold_records(ts).contains_key(q2) <==> exists|i: int|
            0 <= i < ts.len() && ts[i].0 == q2 by {
            lemma_fold_contains(t, q2, d);
            if fold_records(ts).contains_key(q2) && q2 != ts.last().0 {
                let i = choose|i: int| 0 <= i < t.len() && t[i].0 == q2;
                assert(ts[i].0 == q2);
            }
            if exists|i: int| 0 <= i < ts.len() && ts[i].0 == q2 {
                let i = choose|i: int| 0 <= i < ts.len() && ts[i].0 == q2;
                if i < ts.len() - 1 {
                    assert(t[i].0 == q2);
                }
            }
        }
        if nested_contains(fold_records(ts), q, d) && !(q == ts.last().0 && d == ts.last().1) {
            let i = choose|i: int| 0 <= i < t.len() && t[i].0 == q && t[i].1 == d;
            assert(ts[i].0 == q && ts[i].1 == d);
        }
        if exists|i: int| 0 <= i < ts.len() && ts[i].0 == q && ts[i].1 == d {
            let i = choose|i: int| 0 <= i < ts.len() && ts[i].0 == q && ts[i].1 == d;
            if i < ts.len() - 1 {
                assert(t[i].0 == q && t[i].1 == d);
            }
        }
    }
}

impl<K: StoreKey, T: ScoreValue> RelevanceStore<K, T> {
    /// Creates an instance from records.
    ///
    /// # Errors
    ///
    /// * [`ElinorError::DuplicateEntry`] if a query-document pair is given
    ///   twice; the error names the first pair that repeats.
    pub fn from_records(records: Vec<Record<K, T>>) -> (r: Result<Self, ElinorError>)
        ensures
            r is Ok <==> no_dup_pairs(record_triples(records@)),
            r matches Ok(store) ==> store@ == fold_records(record_triples(records@)),
            r matches Err(e) ==> exists|j: int|
                0 <= j < records@.len() && pair_dup_at(record_triples(records@), j) && (forall|jj: int|
                    0 <= jj < j ==> !pair_dup_at(record_triples(records@), jj)) && (e matches ElinorError::DuplicateEntry(m)
                    && m@ == duplicate_message(
                    record_triples(records@)[j].0,
                    record_triples(records@)[j].1,
                )),
    {
        let ghost ts = record_triples(records@);
        let mut b: RelevanceStoreBuilder<K, T> = RelevanceStoreBuilder::new();
        let n = records.len();
        let mut i: usize = 0;
        while i < n
            invariant
                n == records@.len(),
                ts == record_triples(records@),
                i <= n,
                b.n_records() == i,
                b@ == fold_records(ts.take(i as int)),
                no_dup_pairs(ts.take(i as int)),
            decreases n - i,
        {
            let rec = &records[i];
            let ghost q = rec.query_id.key_seq();
            let ghost d = rec.doc_id.key_seq();
            proof {
                lemma_fold_contains(ts.take(i as int), q, d);
                assert(ts[i as int] == (q, d, rec.score));
            }
            match b.add_record(rec.query_id.key_clone(), rec.doc_id.key_clone(), rec.score) {
                Ok(()) => {
                    proof {
                        assert(ts.take(i + 1).drop_last() =~= ts.take(i as int));
                        let t1 = ts.take(i + 1);
                        assert forall|i1: int, j1: int|
                            0 <= i1 < j1 < t1.len() implies !((#[trigger] t1[i1]).0
                            == (#[trigger] t1[j1]).0 && t1[i1].1 == t1[j1].1) by {
                            if j1 == i {
                                if ts[i1].0 == q && ts[i1].1 == d {
                                    assert(ts.take(i as int)[i1].0 == q && ts.take(i as int)[i1].1 == d);
                                }
                            } else {
                                assert(ts.take(i as int)[i1] == ts[i1] && ts.take(i as int)[j1] == ts[j1]);
                            }
                        }
                    }
                },
                Err(e) => {
                    proof {
                        let i1 = choose|i1: int|
                            0 <= i1 < ts.take(i as int).len() && ts.take(i as int)[i1].0 == q
                                && ts.take(i as int)[i1].1 == d;
                        assert(ts[i1].0 == q && ts[i1].1 == d);
                        assert(pair_dup_at(ts, i as int));
                        assert forall|jj: int| 0 <= jj < i implies !pair_dup_at(ts, jj) by {
                            if pair_dup_at(ts, jj) {
                                let i2 = choose|i2: int| 0 <= i2 < jj && ts[i2].0 == ts[jj].0 && ts[i2].1 == ts[jj].1;
                                assert(ts.take(i as int)[i2] == ts[i2] && ts.take(i as int)[jj] == ts[jj]);
                            }
                        }
                        assert(!no_dup_pairs(ts));
                    }
                    return Err(e);
                },
            }
            i = i + 1;
        }
        proof {
            assert(ts.take(n as int) =~= ts);
        }
        Ok(b.build())
    }
}

/// The document map of triples of one query.
pub open spec fn inner_map<T>(b: Seq<Triple<T>>) -> Map<Seq<char>, T> {
    pairs_to_map(b.map_values(|t: Triple<T>| (t.1, t.2)))
}

/// Triples listed query by query, each query's documents ranked.
pub open spec fn records_ordered<T: ScoreValue>(ts: Seq<Triple<T>>) -> bool {
    forall|k: int, l: int|
        0 <= k < l < ts.len() ==> {
            ||| seq_lt((#[trigger] ts[k]).0, (#[trigger] ts[l]).0)
            ||| (ts[k].0 == ts[l].0 && ts[k].2.score_int() > ts[l].2.score_int())
            ||| (ts[k].0 == ts[l].0 && ts[k].2.score_int() == ts[l].2.score_int() && seq_lt(
                ts[k].1,
                ts[l].1,
            ))
        }
}

/// The record `a` comes before `b` in a listing of records: a smaller query
/// id, or the same query id and a higher score, or the same query id and
/// score and a smaller document id.
pub open spec fn triple_before<T: ScoreValue>(a: Triple<T>, b: Triple<T>) -> bool {
    ||| seq_lt(a.0, b.0)
    ||| (a.0 == b.0 && a.2.score_int() > b.2.score_int())
    ||| (a.0 == b.0 && a.2.score_int() == b.2.score_int() && seq_lt(a.1, b.1))
}

/// A store has a single listing of its records that holds each
/// query-document pair once and is ordered by query id, then descending
/// score, then document id: so `records` and `into_records` give the same
/// list, of as many records as `n_docs` counts.
pub proof fn lemma_ordered_records_unique<T: ScoreValue>(a: Seq<Triple<T>>, b: Seq<Triple<T>>)
    requires
        no_dup_pairs(a),
        no_dup_pairs(b),
        records_ordered(a),
        records_ordered(b),
        fold_records(a) == fold_records(b),
    ensures
        a == b,
        a.len() == n_pairs(fold_records(a)),
{
    lemma_same_store_same_records(a, b);
    lemma_fold_n_pairs(a);
    lemma_seq_order_all();
    let lt = |x: Triple<T>, y: Triple<T>| triple_before(x, y);
    assert forall|x: Triple<T>| !#[trigger] lt(x, x) by {}
    assert forall|x: Triple<T>, y: Triple<T>| #[trigger] lt(x, y) implies !lt(y, x) by {
        if x.0 != y.0 {
            assert(!(seq_lt(x.0, y.0) && seq_lt(y.0, x.0)));
        }
    }
    assert forall|k: int, l: int| 0 <= k < l < a.len() implies #[trigger] lt(a[k], a[l]) by {}
    assert forall|k: int, l: int| 0 <= k < l < b.len() implies #[trigger] lt(b[k], b[l]) by {}
    lemma_sorted_unique(a, b, lt);
}

/// The set of query-document pairs of a store.
pub open spec fn doc_pairs<T>(m: RelMap<T>) -> Set<(Seq<char>, Seq<char>)> {
    Set::new(|p: (Seq<char>, Seq<char>)| nested_contains(m, p.0, p.1))
}

/// The number of query-document pairs of a store.
pub open spec fn n_pairs<T>(m: RelMap<T>) -> nat {
    doc_pairs(m).len()
}

/// Appending the triples of a new query adds its document map.
proof fn lemma_fold_append_query<T>(a: Seq<Triple<T>>, b: Seq<Triple<T>>, q: Seq<char>)
    requires
        b.len() > 0,
        forall|k: int| 0 <= k < b.len() ==> (#[trigger] b[k]).0 == q,
        !fold_records(a).contains_key(q),
    ensures
        fold_records(a + b) == fold_records(a).insert(q, inner_map(b)),
    decreases b.len(),
{
    let ab = a + b;
    assert(ab.drop_last() =~= a + b.drop_last());
    assert(ab.last() == b.last());
    let bb = b.map_values(|t: Triple<T>| (t.1, t.2));
    assert(bb.drop_last() =~= b.drop_last().map_values(|t: Triple<T>| (t.1, t.2)));
    if b.len() == 1 {
        assert(a + b.drop_last() =~= a);
        assert(bb.drop_last() =~= Seq::<(Seq<char>, T)>::empty());
        assert(pairs_to_map(bb.drop_last()) == Map::<Seq<char>, T>::empty());
        assert(fold_records(ab) =~= fold_records(a).insert(q, inner_map(b)));
    } else {
        assert(b.last() == b[b.len() - 1]);
        lemma_fold_append_query(a, b.drop_last(), q);
        assert(fold_records(ab) =~= fold_records(a).insert(q, inner_map(b)));
    }
}

/// A ranked listing of a document map lists each document once.
proof fn lemma_ranks_map_distinct<K: StoreKey, T: ScoreValue>(m: Map<Seq<char>, T>, s: Seq<Relevance<K, T>>)
    requires
        ranks_map(m, s),
    ensures
        forall|a: int, b: int|
            0 <= a < s.len() && 0 <= b < s.len() && a != b ==> (#[trigger] s[a]).doc_id.key_seq()
                != (#[trigger] s[b]).doc_id.key_seq(),
{
    lemma_seq_order_all();
    assert forall|a: int, b: int|
        0 <= a < s.len() && 0 <= b < s.len() && a != b implies (#[trigger] s[a]).doc_id.key_seq()
        != (#[trigger] s[b]).doc_id.key_seq() by {
        if s[a].doc_id.key_seq() == s[b].doc_id.key_seq() {
            assert(m[s[a].doc_id.key_seq()] == s[a].score);
            assert(m[s[b].doc_id.key_seq()] == s[b].score);
            if a < b {
                assert(rel_before(s[a], s[b]));
            } else {
                assert(rel_before(s[b], s[a]));
            }
        }
    }
}

/// The triples of a ranked listing of a document map describe that map.
proof fn lemma_ranked_inner<K: StoreKey, T: ScoreValue>(q: K, m: Map<Seq<char>, T>, s: Seq<Relevance<K, T>>)
    requires
        ranks_map(m, s),
    ensures
        inner_map(ranked_triples(q, s)) == m,
{
    lemma_ranks_map_distinct(m, s);
    let b = ranked_triples(q, s);
    let bb = b.map_values(|t: Triple<T>| (t.1, t.2));
    assert(bb =~= s.map_values(|x: Relevance<K, T>| (x.doc_id.key_seq(), x.score)));
    assert(distinct_firsts(bb)) by {
        assert forall|i: int, j: int| 0 <= i < bb.len() && 0 <= j < bb.len() && i != j implies bb[i].0 != bb[j].0 by {
            assert(bb[i].0 == s[i].doc_id.key_seq() && bb[j].0 == s[j].doc_id.key_seq());
        }
    }
    lemma_pairs_to_map(bb);
    let pm = pairs_to_map(bb);
    assert forall|d: Seq<char>| #[trigger] pm.contains_key(d) <==> m.contains_key(d) by {
        if pm.contains_key(d) {
            let i = choose|i: int| 0 <= i < bb.len() && bb[i].0 == d;
            assert(bb[i].0 == s[i].doc_id.key_seq());
            assert(m.contains_key(s[i].doc_id.key_seq()));
        }
        if m.contains_key(d) {
            let a = choose|a: int| 0 <= a < s.len() && s[a].doc_id.key_seq() == d;
            assert(bb[a].0 == d);
        }
    }
    assert forall|d: Seq<char>| #[trigger] pm.contains_key(d) implies pm[d] == m[d] by {
        let i = choose|i: int| 0 <= i < bb.len() && bb[i].0 == d;
        assert(bb[i] == (s[i].doc_id.key_seq(), s[i].score));
        assert(m[s[i].doc_id.key_seq()] == s[i].score);
    }
    assert(pm =~= m);
}

/// The flattened rankings of the first `n` queries: no pair twice, listed in
/// order, each triple of one of those queries, and folding back to their view.
proof fn lemma_flat_exact<K: StoreKey, T: ScoreValue>(
    ids: Seq<K>,
    rels: Seq<Vec<(K, T)>>,
    sorted: Seq<Vec<Relevance<K, T>>>,
    n: int,
)
    requires
        wf_rels(ids, rels),
        sorted.len() == rels.len(),
        forall|i: int| 0 <= i < rels.len() ==> ranks_pairs(rels[i]@, #[trigger] sorted[i]@),
        0 <= n <= ids.len(),
    ensures
        no_dup_pairs(flat_triples(ids, sorted, n)),
        records_ordered(flat_triples(ids, sorted, n)),
        forall|k: int|
            0 <= k < flat_triples(ids, sorted, n).len() ==> exists|i: int|
                0 <= i < n && (#[trigger] flat_triples(ids, sorted, n)[k]).0 == ids[i].key_seq(),
        fold_records(flat_triples(ids, sorted, n)) == pairs_to_map(query_entries(ids, rels).take(n)),
    decreases n,
{
    let t = flat_triples(ids, sorted, n);
    let e = query_entries(ids, rels);
    if n == 0 {
        assert(t =~= Seq::<Triple<T>>::empty());
        assert(e.take(0) =~= Seq::<(Seq<char>, Map<Seq<char>, T>)>::empty());
    } else {
        lemma_flat_exact(ids, rels, sorted, n - 1);
        let t0 = flat_triples(ids, sorted, n - 1);
        let q = ids[n - 1];
        let sr = sorted[n - 1]@;
        let seg = ranked_triples(q, sr);
        assert(t == t0 + seg);
        lemma_ranks_pairs_map(rels[n - 1]@, sr);
        lemma_ranks_map_distinct(rels_view(rels[n - 1]@), sr);
        lemma_seq_order_all();
        lemma_strictly_sorted_distinct(key_seqs(ids));
        // Earlier queries come strictly before this one.
        assert forall|k: int| 0 <= k < t0.len() implies seq_lt(#[trigger] t0[k].0, q.key_seq()) by {
            let i = choose|i: int| 0 <= i < n - 1 && t0[k].0 == ids[i].key_seq();
            assert(key_seqs(ids)[i] == ids[i].key_seq());
            assert(key_seqs(ids)[n - 1] == ids[n - 1].key_seq());
        }
        assert forall|k: int, l: int| 0 <= k < l < t.len() implies !(t[k].0 == t[l].0 && t[k].1 == t[l].1) by {
            if l < t0.len() {
                assert(t[k] == t0[k] && t[l] == t0[l]);
            } else if k < t0.len() {
                assert(t[k] == t0[k]);
                assert(t[l] == seg[l - t0.len()]);
                assert(seq_lt(t0[k].0, q.key_seq()));
            } else {
                assert(t[k] == seg[k - t0.len()] && t[l] == seg[l - t0.len()]);
                assert(sr[k - t0.len()].doc_id.key_seq() != sr[l - t0.len()].doc_id.key_seq());
            }
        }
        assert forall|k: int, l: int| 0 <= k < l < t.len() implies {
            ||| seq_lt((#[trigger] t[k]).0, (#[trigger] t[l]).0)
            ||| (t[k].0 == t[l].0 && t[k].2.score_int() > t[l].2.score_int())
            ||| (t[k].0 == t[l].0 && t[k].2.score_int() == t[l].2.score_int() && seq_lt(t[k].1, t[l].1))
        } by {
            if l < t0.len() {
                assert(t[k] == t0[k] && t[l] == t0[l]);
            } else if k < t0.len() {
                assert(t[k] == t0[k]);
                assert(t[l] == seg[l - t0.len()]);
            } else {
                assert(t[k] == seg[k - t0.len()] && t[l] == seg[l - t0.len()]);
                assert(rel_before(sr[k - t0.len()], sr[l - t0.len()]));
            }
        }
        assert forall|k: int| 0 <= k < t.len() implies exists|i: int|
            0 <= i < n && (#[trigger] t[k]).0 == ids[i].key_seq() by {
            if k < t0.len() {
                assert(t[k] == t0[k]);
                let i = choose|i: int| 0 <= i < n - 1 && t0[k].0 == ids[i].key_seq();
            } else {
                assert(t[k] == seg[k - t0.len()]);
                assert(t[k].0 == ids[n - 1].key_seq());
            }
        }
        // Folding.
        assert(e.take(n).drop_last() =~= e.take(n - 1));
        assert(e.take(n).last() == e[n - 1]);
        lemma_entries_distinct(ids, rels);
        let et = e.take(n - 1);
        assert(distinct_firsts(et));
        lemma_pairs_to_map(et);
        assert(!fold_records(t0).contains_key(q.key_seq())) by {
            if pairs_to_map(et).contains_key(q.key_seq()) {
                let i = choose|i: int| 0 <= i < et.len() && et[i].0 == q.key_seq();
                assert(e[i].0 == ids[i].key_seq());
                assert(key_seqs(ids)[i] == ids[i].key_seq());
                assert(key_seqs(ids)[n - 1] == ids[n - 1].key_seq());
            }
        }
        assert(rels[n - 1]@.len() > 0);
        assert(seg.len() > 0);
        assert forall|k: int| 0 <= k < seg.len() implies (#[trigger] seg[k]).0 == q.key_seq() by {}
        lemma_fold_append_query(t0, seg, q.key_seq());
        lemma_ranked_inner(q, rels_view(rels[n - 1]@), sr);
    }
}

/// Folding triples with distinct pairs gives each pair the score of its triple.
pub proof fn lemma_fold_value<T>(ts: Seq<Triple<T>>)
    requires
        no_dup_pairs(ts),
    ensures
        forall|i: int|
            0 <= i < ts.len() ==> nested_contains(fold_records(ts), (#[trigger] ts[i]).0, ts[i].1)
                && fold_records(ts)[ts[i].0][ts[i].1] == ts[i].2,
    decreases ts.len(),
{
    if ts.len() > 0 {
        let t = ts.drop_last();
        assert(no_dup_pairs(t));
        lemma_fold_value(t);
        assert forall|i: int| 0 <= i < ts.len() implies nested_contains(fold_records(ts), (#[trigger] ts[i]).0, ts[i].1)
            && fold_records(ts)[ts[i].0][ts[i].1] == ts[i].2 by {
            if i < ts.len() - 1 {
                assert(t[i] == ts[i]);
            }
        }
    }
}

/// Folding triples with distinct pairs holds as many pairs as there are triples.
pub proof fn lemma_fold_n_pairs<T>(ts: Seq<Triple<T>>)
    requires
        no_dup_pairs(ts),
    ensures
        n_pairs(fold_records(ts)) == ts.len(),
{
    let ps = ts.map_values(|t: Triple<T>| (t.0, t.1));
    assert(ps.no_duplicates()) by {
        assert forall|i: int, j: int| 0 <= i < ps.len() && 0 <= j < ps.len() && i != j implies ps[i] != ps[j] by {
            if i < j {
                assert(!(ts[i].0 == ts[j].0 && ts[i].1 == ts[j].1));
            } else {
                assert(!(ts[j].0 == ts[i].0 && ts[j].1 == ts[i].1));
            }
        }
    }
    ps.unique_seq_to_set();
    assert forall|p: (Seq<char>, Seq<char>)| #[trigger] doc_pairs(fold_records(ts)).contains(p) <==> ps.to_set().contains(p) by {
        lemma_fold_contains(ts, p.0, p.1);
        if ps.to_set().contains(p) {
            let i = choose|i: int| 0 <= i < ps.len() && ps[i] == p;
            assert(ts[i].0 == p.0 && ts[i].1 == p.1);
        }
        if doc_pairs(fold_records(ts)).contains(p) {
            let i = choose|i: int| 0 <= i < ts.len() && ts[i].0 == p.0 && ts[i].1 == p.1;
            assert(ps[i] == p);
        }
    }
    assert(doc_pairs(fold_records(ts)) =~= ps.to_set());
}

/// The triples of a map from query ids to their document-score pairs,
/// query by query.
pub open spec fn map_triples<K: StoreKey, T>(m: Seq<(K, Vec<(K, T)>)>) -> Seq<Triple<T>>
    decreases m.len(),
{
    if m.len() == 0 {
        Seq::empty()
    } else {
        map_triples(m.drop_last()) + entry_triples(m.last().0, m.last().1@)
    }
}

/// The triples of the document-score pairs of one query.
pub open spec fn entry_triples<K: StoreKey, T>(q: K, ds: Seq<(K, T)>) -> Seq<Triple<T>> {
    ds.map_values(|p: (K, T)| (q.key_seq(), p.0.key_seq(), p.1))
}

impl<K: StoreKey, T: ScoreValue> RelevanceStore<K, T> {
    /// Creates a store from a map of query ids to their document-score
    /// pairs, in which each query-document pair occurs once; a query given
    /// no pairs has no place in a store.
    pub(crate) fn from_map(map: Vec<(K, Vec<(K, T)>)>) -> (r: Self)
        requires
            no_dup_pairs(map_triples(map@)),
        ensures
            r@ == fold_records(map_triples(map@)),
    {
        let mut records: Vec<Record<K, T>> = Vec::new();
        let n = map.len();
        let mut i: usize = 0;
        while i < n
            invariant
                n == map@.len(),
                i <= n,
                record_triples(records@) == map_triples(map@.take(i as int)),
            decreases n - i,
        {
            let entry = &map[i];
            let mut k: usize = 0;
            while k < entry.1.len()
                invariant
                    i < n,
                    n == map@.len(),
                    *entry == map@[i as int],
                    k <= entry.1@.len(),
                    record_triples(records@) == map_triples(map@.take(i as int)) + entry_triples(
                        entry.0,
                        entry.1@.take(k as int),
                    ),
                decreases entry.1@.len() - k,
            {
                let ghost prev = records@;
                let p = &entry.1[k];
                records.push(Record { query_id: entry.0.key_clone(), doc_id: p.0.key_clone(), score: p.1 });
                proof {
                    assert(record_triples(records@) =~= record_triples(prev).push(
                        (entry.0.key_seq(), p.0.key_seq(), p.1),
                    ));
                    assert(entry_triples(entry.0, entry.1@.take(k + 1)) =~= entry_triples(
                        entry.0,
                        entry.1@.take(k as int),
                    ).push((entry.0.key_seq(), p.0.key_seq(), p.1)));
                }
                k = k + 1;
            }
            proof {
                assert(entry.1@.take(k as int) =~= entry.1@);
                assert(map@.take(i + 1).drop_last() =~= map@.take(i as int));
            }
            i = i + 1;
        }
        proof {
            assert(map@.take(n as int) =~= map@);
        }
        match RelevanceStore::from_records(records) {
            Ok(store) => store,
            Err(_) => {
                proof {
                    assert(false);
                }
                RelevanceStoreBuilder::new().build()
            },
        }
    }
}

/// Two listings of the same store, each without a repeated pair, hold the
/// same triples, as many of each.
pub proof fn lemma_same_store_same_records<T>(a: Seq<Triple<T>>, b: Seq<Triple<T>>)
    requires
        no_dup_pairs(a),
        no_dup_pairs(b),
        fold_records(a) == fold_records(b),
    ensures
        a.to_set() == b.to_set(),
        a.len() == b.len(),
{
    lemma_fold_n_pairs(a);
    lemma_fold_n_pairs(b);
    lemma_fold_value(a);
    lemma_fold_value(b);
    assert forall|x: Triple<T>| a.to_set().contains(x) implies b.to_set().contains(x) by {
        let i = choose|i: int| 0 <= i < a.len() && a[i] == x;
        assert(a[i] == x);
        lemma_fold_contains(b, x.0, x.1);
        let j = choose|j: int| 0 <= j < b.len() && b[j].0 == x.0 && b[j].1 == x.1;
        assert(b[j] == x);
    }
    assert forall|x: Triple<T>| b.to_set().contains(x) implies a.to_set().contains(x) by {
        let j = choose|j: int| 0 <= j < b.len() && b[j] == x;
        assert(b[j] == x);
        lemma_fold_contains(a, x.0, x.1);
        let i = choose|i: int| 0 <= i < a.len() && a[i].0 == x.0 && a[i].1 == x.1;
        assert(a[i] == x);
    }
    assert(a.to_set() =~= b.to_set());
}

/// The order in which records are added does not change the store: two
/// listings of the same records, each without a repeated pair, build the
/// same store.
pub proof fn lemma_fold_order_independent<T>(a: Seq<Triple<T>>, b: Seq<Triple<T>>)
    requires
        no_dup_pairs(a),
        no_dup_pairs(b),
        a.to_set() == b.to_set(),
    ensures
        fold_records(a) == fold_records(b),
{
    let ma = fold_records(a);
    let mb = fold_records(b);
    lemma_fold_value(a);
    lemma_fold_value(b);
    assert forall|q: Seq<char>, d: Seq<char>|
        nested_contains(ma, q, d) implies nested_contains(mb, q, d) && ma[q][d] == mb[q][d] by {
        lemma_fold_contains(a, q, d);
        lemma_fold_contains(b, q, d);
        let i = choose|i: int| 0 <= i < a.len() && a[i].0 == q && a[i].1 == d;
        assert(a.to_set().contains(a[i]));
        let j = choose|j: int| 0 <= j < b.len() && b[j] == a[i];
        assert(b[j].0 == q && b[j].1 == d);
    }
    assert forall|q: Seq<char>, d: Seq<char>| nested_contains(mb, q, d) implies nested_contains(ma, q, d) by {
        lemma_fold_contains(a, q, d);
        lemma_fold_contains(b, q, d);
        let j = choose|j: int| 0 <= j < b.len() && b[j].0 == q && b[j].1 == d;
        assert(b.to_set().contains(b[j]));
        let i = choose|i: int| 0 <= i < a.len() && a[i] == b[j];
        assert(a[i].0 == q && a[i].1 == d);
    }
    assert forall|q: Seq<char>| #[trigger] ma.contains_key(q) <==> mb.contains_key(q) by {
        lemma_fold_contains(a, q, Seq::empty());
        lemma_fold_contains(b, q, Seq::empty());
        if ma.contains_key(q) {
            let i = choose|i: int| 0 <= i < a.len() && a[i].0 == q;
            assert(a.to_set().contains(a[i]));
            let j = choose|j: int| 0 <= j < b.len() && b[j] == a[i];
            assert(b[j].0 == q);
        }
        if mb.contains_key(q) {
            let j = choose|j: int| 0 <= j < b.len() && b[j].0 == q;
            assert(b.to_set().contains(b[j]));
            let i = choose|i: int| 0 <= i < a.len() && a[i] == b[j];
            assert(a[i].0 == q);
        }
    }
    assert forall|q: Seq<char>| #[trigger] ma.contains_key(q) implies ma[q] =~= mb[q] by {
        assert forall|d: Seq<char>| #[trigger] ma[q].contains_key(d) <==> mb[q].contains_key(d) by {
            if ma[q].contains_key(d) {
                assert(nested_contains(ma, q, d));
            }
            if mb[q].contains_key(d) {
                assert(nested_contains(mb, q, d));
            }
        }
        assert forall|d: Seq<char>| #[trigger] ma[q].contains_key(d) implies ma[q][d] == mb[q][d] by {
            assert(nested_contains(ma, q, d));
        }
    }
    assert(ma =~= mb);
}

impl<K: StoreKey, T> Default for RelevanceStoreBuilder<K, T> {
    fn default() -> (r: Self)
        ensures
            r@ == Map::<Seq<char>, Map<Seq<char>, T>>::empty(),
            r.n_records() == 0,
    {
        Self::new()
    }
}

/// The map `m` with each query of `qs` that it lacks given no documents.
pub open spec fn with_queries<T>(m: RelMap<T>, qs: Seq<Seq<char>>) -> RelMap<T> {
    Map::new(
        |q: Seq<char>| m.contains_key(q) || qs.contains(q),
        |q: Seq<char>| if m.contains_key(q) { m[q] } else { Map::empty() },
    )
}

/// The query ids of a map from query ids to their document-score pairs.
pub open spec fn map_query_ids<K: StoreKey, T>(m: Seq<(K, Vec<(K, T)>)>) -> Seq<Seq<char>> {
    m.map_values(|e: (K, Vec<(K, T)>)| e.0.key_seq())
}

/// The query ids of a store, in increasing order.
pub(crate) fn store_query_ids<K: StoreKey, T: ScoreValue>(store: &RelevanceStore<K, T>) -> (r: Vec<K>)
    ensures
        key_seqs(r@) == store.spec_query_ids(),
        strictly_sorted(key_seqs(r@)),
        forall|q: Seq<char>| #[trigger] store@.contains_key(q) <==> key_seqs(r@).contains(q),
{
    let n = store.n_queries();
    let mut out: Vec<K> = Vec::new();
    let mut i: usize = 0;
    while i < n
        invariant
            n == store.spec_query_ids().len(),
            i <= n,
            key_seqs(out@) == store.spec_query_ids().take(i as int),
        decreases n - i,
    {
        let q = store.query_id_at(i).key_clone();
        let ghost prev = out@;
        out.push(q);
        proof {
            assert(key_seqs(out@) =~= key_seqs(prev).push(q.key_seq()));
            assert(store.spec_query_ids().take(i + 1) =~= store.spec_query_ids().take(i as int).push(
                store.spec_query_ids()[i as int],
            ));
        }
        i = i + 1;
    }
    proof {
        assert(store.spec_query_ids().take(n as int) =~= store.spec_query_ids());
    }
    out
}

/// Adds the query ids of a map to a strictly increasing sequence of query ids.
pub(crate) fn add_map_query_ids<K: StoreKey, T>(ids: &mut Vec<K>, map: &Vec<(K, Vec<(K, T)>)>)
    requires
        strictly_sorted(key_seqs(old(ids)@)),
    ensures
        strictly_sorted(key_seqs(final(ids)@)),
        forall|q: Seq<char>|
            #[trigger] key_seqs(final(ids)@).contains(q) <==> (key_seqs(old(ids)@).contains(q)
                || map_query_ids(map@).contains(q)),
{
    let ghost ids0 = key_seqs(ids@);
    let n = map.len();
    let mut i: usize = 0;
    while i < n
        invariant
            n == map@.len(),
            i <= n,
            strictly_sorted(key_seqs(ids@)),
            forall|q: Seq<char>|
                #[trigger] key_seqs(ids@).contains(q) <==> (ids0.contains(q) || map_query_ids(
                    map@,
                ).take(i as int).contains(q)),
        decreases n - i,
    {
        let k = map[i].0.key_clone();
        let ghost before = key_seqs(ids@);
        insert_key(ids, k);
        proof {
            let t = map_query_ids(map@).take(i as int);
            let t1 = map_query_ids(map@).take(i + 1);
            assert(t1 =~= t.push(k.key_seq()));
            assert forall|q: Seq<char>| #[trigger] t1.contains(q) <==> (t.contains(q) || q == k.key_seq()) by {
                if t1.contains(q) {
                    let j = choose|j: int| 0 <= j < t1.len() && t1[j] == q;
                    if j < i {
                        assert(t[j] == q);
                    }
                }
                if t.contains(q) {
                    let j = choose|j: int| 0 <= j < t.len() && t[j] == q;
                    assert(t1[j] == q);
                }
                if q == k.key_seq() {
                    assert(t1[i as int] == q);
                }
            }
        }
        i = i + 1;
    }
    proof {
        assert(map_query_ids(map@).take(n as int) =~= map_query_ids(map@));
    }
}

} // verus!
