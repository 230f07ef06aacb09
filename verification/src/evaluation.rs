//! Evaluated results: per-query scores of a metric, and their alignment
//! across results by query id.
use vstd::prelude::*;
use vstd::string::*;
use crate::errors::ElinorError;
use crate::keys::{seq_lt, lemma_seq_order_all, StoreKey};
use crate::maps::{
    distinct_firsts, lemma_pairs_to_map, lemma_pairs_to_map_insert, lemma_strictly_sorted_insert,
    pair_key_seqs, pairs_to_map, rels_view, search_pairs, strictly_sorted, textual_pairs,
};
use crate::relevance::lemma_sorted_pairs_distinct;

verus! {

/// The message of the error for two results with different numbers of queries.
pub open spec fn paired_sizes_message() -> Seq<char> {
    "The two evaluated results must have the same number of queries."@
}

/// The message of the error for a query id missing from the second result.
pub open spec fn missing_in_second_message(q: Seq<char>) -> Seq<char> {
    "The query id "@ + q + " is not found in the second evaluated result."@
}

/// The message of the error for fewer than two results.
pub open spec fn too_few_results_message() -> Seq<char> {
    "The number of evaluated results must be at least 2."@
}

/// The message of the error for results with different numbers of queries.
pub open spec fn tupled_sizes_message() -> Seq<char> {
    "The evaluated results must have the same number of queries."@
}

/// The message of the error for a query id missing from one of the results.
pub open spec fn missing_in_results_message(q: Seq<char>) -> Seq<char> {
    "The query id "@ + q + " is not found in the evaluated results."@
}

/// Evaluated result: the score of each query, and their mean.
///
/// # Type parameters
///
/// * `K` - Query id.
/// * `V` - Score.
pub struct Evaluated<K: StoreKey, V: Copy> {
    // Query ids and their scores, in increasing order of query id.
    scores: Vec<(K, V)>,
    mean_score: V,
}

impl<K: StoreKey, V: Copy> View for Evaluated<K, V> {
    type V = Map<Seq<char>, V>;

    closed spec fn view(&self) -> Map<Seq<char>, V> {
        rels_view(self.scores@)
    }
}

/// The map of a vector of pairs strictly increasing by key holds its pairs,
/// as many as there are.
proof fn lemma_sorted_view<K: StoreKey, V>(s: Seq<(K, V)>)
    requires
        strictly_sorted(pair_key_seqs(s)),
    ensures
        rels_view(s).len() == s.len(),
        forall|q: Seq<char>| #[trigger] rels_view(s).contains_key(q) <==> pair_key_seqs(s).contains(q),
        forall|i: int| 0 <= i < s.len() ==> #[trigger] rels_view(s)[pair_key_seqs(s)[i]] == s[i].1,
{
    lemma_sorted_pairs_distinct(s);
    lemma_pairs_to_map(textual_pairs(s));
    assert forall|q: Seq<char>| #[trigger] rels_view(s).contains_key(q) <==> pair_key_seqs(s).contains(q) by {
        if rels_view(s).contains_key(q) {
            let i = choose|i: int| 0 <= i < textual_pairs(s).len() && textual_pairs(s)[i].0 == q;
            assert(pair_key_seqs(s)[i] == q);
        }
        if pair_key_seqs(s).contains(q) {
            let i = choose|i: int| 0 <= i < pair_key_seqs(s).len() && pair_key_seqs(s)[i] == q;
            assert(textual_pairs(s)[i].0 == q);
        }
    }
    assert forall|i: int| 0 <= i < s.len() implies #[trigger] rels_view(s)[pair_key_seqs(s)[i]] == s[i].1 by {
        assert(textual_pairs(s)[i] == (pair_key_seqs(s)[i], s[i].1));
    }
}

/// Looks up the value of a key in a vector of pairs strictly increasing by key.
fn lookup<K: StoreKey, V: Copy>(scores: &Vec<(K, V)>, q: &K) -> (r: Option<V>)
    requires
        strictly_sorted(pair_key_seqs(scores@)),
    ensures
        match r {
            Some(v) => rels_view(scores@).contains_key(q.key_seq()) && rels_view(scores@)[q.key_seq()] == v,
            None => !rels_view(scores@).contains_key(q.key_seq()),
        },
{
    proof {
        lemma_seq_order_all();
        lemma_sorted_view(scores@);
    }
    match search_pairs(scores, q) {
        Ok(j) => {
            assert(pair_key_seqs(scores@)[j as int] == q.key_seq());
            Some(scores[j].1)
        },
        Err(p) => {
            proof {
                let qk = q.key_seq();
                if pair_key_seqs(scores@).contains(qk) {
                    let j = choose|j: int| 0 <= j < pair_key_seqs(scores@).len() && pair_key_seqs(scores@)[j] == qk;
                    if j < p {
                        assert(seq_lt(scores@[j].0.key_seq(), qk));
                    } else {
                        assert(seq_lt(qk, scores@[j].0.key_seq()));
                    }
                }
            }
            None
        },
    }
}

impl<K: StoreKey, V: Copy> Evaluated<K, V> {
    #[verifier::type_invariant]
    spec fn inv(self) -> bool {
        strictly_sorted(pair_key_seqs(self.scores@))
    }

    /// The query ids of the result, in increasing order.
    pub closed spec fn spec_query_ids(&self) -> Seq<Seq<char>> {
        pair_key_seqs(self.scores@)
    }

    /// The mean score.
    pub closed spec fn spec_mean_score(&self) -> V {
        self.mean_score
    }

    /// Creates an evaluated result from the score of each query, each query
    /// given once, and their mean.
    pub fn new(scores: Vec<(K, V)>, mean_score: V) -> (r: Self)
        requires
            distinct_firsts(textual_pairs(scores@)),
        ensures
            r@ == rels_view(scores@),
            r.spec_mean_score() == mean_score,
    {
        proof {
            lemma_seq_order_all();
        }
        let mut out: Vec<(K, V)> = Vec::new();
        let n = scores.len();
        let mut i: usize = 0;
        while i < n
            invariant
                n == scores@.len(),
                i <= n,
                distinct_firsts(textual_pairs(scores@)),
                strictly_sorted(pair_key_seqs(out@)),
                distinct_firsts(textual_pairs(out@)),
                pairs_to_map(textual_pairs(out@)) == pairs_to_map(textual_pairs(scores@.take(i as int))),
                forall|k: Seq<char>|
                    #[trigger] pairs_to_map(textual_pairs(out@)).contains_key(k) ==> exists|j: int|
                        0 <= j < i && textual_pairs(scores@)[j].0 == k,
            decreases n - i,
        {
            let key = scores[i].0.key_clone();
            let value = scores[i].1;
            let ghost x = (key.key_seq(), value);
            proof {
                lemma_pairs_to_map(textual_pairs(out@));
                assert(textual_pairs(scores@)[i as int] == x);
            }
            match search_pairs(&out, &key) {
                Ok(j) => {
                    proof {
                        assert(textual_pairs(out@)[j as int].0 == x.0);
                        assert(pairs_to_map(textual_pairs(out@)).contains_key(x.0));
                        let jj = choose|jj: int| 0 <= jj < i && textual_pairs(scores@)[jj].0 == x.0;
                        assert(false);
                    }
                },
                Err(p) => {
                    let ghost before = out@;
                    proof {
                        lemma_seq_order_all();
                        assert forall|jj: int| 0 <= jj < textual_pairs(before).len() implies textual_pairs(before)[jj].0 != x.0 by {
                            assert(textual_pairs(before)[jj].0 == before[jj].0.key_seq());
                            if jj < p {
                                assert(seq_lt(before[jj].0.key_seq(), x.0));
                            } else {
                                assert(seq_lt(x.0, before[jj].0.key_seq()));
                            }
                        }
                    }
                    out.insert(p, (key, value));
                    proof {
                        assert(textual_pairs(out@) =~= textual_pairs(before).insert(p as int, x));
                        assert(pair_key_seqs(out@) =~= pair_key_seqs(before).insert(p as int, x.0));
                        lemma_pairs_to_map_insert(textual_pairs(before), p as int, x);
                        lemma_strictly_sorted_insert(pair_key_seqs(before), p as int, x.0);
                        assert(textual_pairs(scores@.take(i + 1)) =~= textual_pairs(scores@.take(i as int)).push(x));
                        assert(textual_pairs(scores@.take(i + 1)).drop_last() =~= textual_pairs(scores@.take(i as int)));
                        lemma_pairs_to_map(textual_pairs(out@));
                        assert forall|k: Seq<char>|
                            #[trigger] pairs_to_map(textual_pairs(out@)).contains_key(k) implies exists|j: int|
                                0 <= j < i + 1 && textual_pairs(scores@)[j].0 == k by {
                            if k != x.0 {
                                assert(pairs_to_map(textual_pairs(before)).contains_key(k));
                            }
                        }
                    }
                },
            }
            i = i + 1;
        }
        proof {
            assert(scores@.take(n as int) =~= scores@);
        }
        Evaluated { scores: out, mean_score }
    }

    /// Returns the score of each query, in increasing order of query id.
    pub fn scores(&self) -> (r: &Vec<(K, V)>)
        ensures
            rels_view(r@) == self@,
            pair_key_seqs(r@) == self.spec_query_ids(),
            strictly_sorted(pair_key_seqs(r@)),
    {
        proof {
            use_type_invariant(self);
        }
        &self.scores
    }

    /// Returns the mean score.
    pub fn mean_score(&self) -> (r: V)
        ensures
            r == self.spec_mean_score(),
    {
        self.mean_score
    }

    /// The number of queries of the result.
    fn n_queries(&self) -> (r: usize)
        ensures
            r == self@.len(),
            r == self.spec_query_ids().len(),
            strictly_sorted(self.spec_query_ids()),
            forall|q: Seq<char>| #[trigger] self@.contains_key(q) <==> self.spec_query_ids().contains(q),
            forall|i: int|
                0 <= i < self.spec_query_ids().len() ==> #[trigger] self@[self.spec_query_ids()[i]]
                    == self.scores@[i].1,
    {
        proof {
            use_type_invariant(self);
            lemma_sorted_view(self.scores@);
        }
        self.scores.len()
    }
}

/// Extracts paired scores from two evaluated results, in increasing order of
/// the query ids of the first.
///
/// # Errors
///
/// * [`ElinorError::InvalidArgument`] if the two results have different
///   numbers of queries, or a query id of the first is missing from the
///   second; the error names the first such query id.
pub fn paired_scores_from_evaluated<K: StoreKey, V: Copy>(
    a: &Evaluated<K, V>,
    b: &Evaluated<K, V>,
) -> (r: Result<Vec<(V, V)>, ElinorError>)
    ensures
        a@.len() != b@.len() ==> (r matches Err(ElinorError::InvalidArgument(m))
            && m@ == paired_sizes_message()),
        a@.len() == b@.len() ==> match r {
            Ok(v) => {
                &&& v@.len() == a.spec_query_ids().len()
                &&& forall|i: int|
                    0 <= i < v@.len() ==> b@.contains_key(a.spec_query_ids()[i]) && #[trigger] v@[i] == (
                        a@[a.spec_query_ids()[i]],
                        b@[a.spec_query_ids()[i]],
                    )
            },
            Err(e) => exists|i: int|
                0 <= i < a.spec_query_ids().len() && !b@.contains_key(#[trigger] a.spec_query_ids()[i])
                    && (forall|j: int| 0 <= j < i ==> b@.contains_key(a.spec_query_ids()[j])) && (e matches ElinorError::InvalidArgument(m)
                    && m@ == missing_in_second_message(a.spec_query_ids()[i])),
        },
{
    proof {
        use_type_invariant(a);
        use_type_invariant(b);
    }
    let n = a.n_queries();
    if n != b.n_queries() {
        return Err(ElinorError::InvalidArgument(
            String::from_str("The two evaluated results must have the same number of queries."),
        ));
    }
    let ghost ids = a.spec_query_ids();
    let mut out: Vec<(V, V)> = Vec::new();
    let mut i: usize = 0;
    while i < n
        invariant
            n == ids.len(),
            n == a.scores@.len(),
            n == a@.len(),
            a@.len() == b@.len(),
            ids == a.spec_query_ids(),
            strictly_sorted(pair_key_seqs(b.scores@)),
            i <= n,
            out@.len() == i,
            forall|k: int| 0 <= k < n ==> #[trigger] a@[ids[k]] == a.scores@[k].1,
            forall|k: int| 0 <= k < i ==> b@.contains_key(#[trigger] ids[k]),
            forall|k: int| 0 <= k < i ==> #[trigger] out@[k] == (a@[ids[k]], b@[ids[k]]),
        decreases n - i,
    {
        let q = &a.scores[i].0;
        assert(ids[i as int] == q.key_seq());
        match lookup(&b.scores, q) {
            Some(vb) => {
                out.push((a.scores[i].1, vb));
            },
            None => {
                let mut msg = String::from_str("The query id ");
                let qt = q.key_text();
                msg.append(qt.as_str());
                msg.append(" is not found in the second evaluated result.");
                assert(!b@.contains_key(a.spec_query_ids()[i as int]));
                assert(msg@ == missing_in_second_message(a.spec_query_ids()[i as int]));
                return Err(ElinorError::InvalidArgument(msg));
            },
        }
        i = i + 1;
    }
    Ok(out)
}

/// The query id `q` is in each of the results.
pub open spec fn in_all_results<K: StoreKey, V: Copy>(evaluateds: Seq<Evaluated<K, V>>, q: Seq<char>) -> bool {
    forall|j: int| 0 <= j < evaluateds.len() ==> (#[trigger] evaluateds[j])@.contains_key(q)
}

/// `t` holds the score of the query id `q` in each of the results, in order.
pub open spec fn scores_of_query<K: StoreKey, V: Copy>(
    evaluateds: Seq<Evaluated<K, V>>,
    q: Seq<char>,
    t: Seq<V>,
) -> bool {
    &&& t.len() == evaluateds.len()
    &&& in_all_results(evaluateds, q)
    &&& forall|j: int| 0 <= j < evaluateds.len() ==> #[trigger] t[j] == evaluateds[j]@[q]
}

/// All results have as many queries as the first.
pub open spec fn same_sizes<K: StoreKey, V: Copy>(evaluateds: Seq<Evaluated<K, V>>) -> bool {
    forall|j: int| 1 <= j < evaluateds.len() ==> (#[trigger] evaluateds[j])@.len() == evaluateds[0]@.len()
}

/// Extracts tupled scores from evaluated results, in increasing order of the
/// query ids of the first: the `j`-th score of a tuple is that of the `j`-th
/// result.
///
/// # Errors
///
/// * [`ElinorError::InvalidArgument`] if there are fewer than two results,
///   or they have different numbers of queries, or a query id of the first
///   is missing from another; the error names the first such query id.
pub fn tupled_scores_from_evaluated<K: StoreKey, V: Copy>(evaluateds: &[Evaluated<K, V>]) -> (r: Result<
    Vec<Vec<V>>,
    ElinorError,
>)
    ensures
        evaluateds@.len() < 2 ==> (r matches Err(ElinorError::InvalidArgument(m))
            && m@ == too_few_results_message()),
        evaluateds@.len() >= 2 && !same_sizes(evaluateds@) ==> (r matches Err(
            ElinorError::InvalidArgument(m),
        ) && m@ == tupled_sizes_message()),
        evaluateds@.len() >= 2 && same_sizes(evaluateds@) ==> match r {
            Ok(v) => {
                &&& v@.len() == evaluateds@[0].spec_query_ids().len()
                &&& forall|i: int|
                    0 <= i < v@.len() ==> scores_of_query(
                        evaluateds@,
                        evaluateds@[0].spec_query_ids()[i],
                        (#[trigger] v@[i])@,
                    )
            },
            Err(e) => exists|i: int|
                #![trigger evaluateds@[0].spec_query_ids()[i]]
                0 <= i < evaluateds@[0].spec_query_ids().len() && !in_all_results(
                    evaluateds@,
                    evaluateds@[0].spec_query_ids()[i],
                ) && (forall|i2: int|
                    0 <= i2 < i ==> #[trigger] in_all_results(
                        evaluateds@,
                        evaluateds@[0].spec_query_ids()[i2],
                    )) && (e matches ElinorError::InvalidArgument(m) && m@ == missing_in_results_message(
                    evaluateds@[0].spec_query_ids()[i],
                )),
        },
{
    let m = evaluateds.len();
    if m < 2 {
        return Err(ElinorError::InvalidArgument(
            String::from_str("The number of evaluated results must be at least 2."),
        ));
    }
    let n = evaluateds[0].n_queries();
    let mut j: usize = 1;
    while j < m
        invariant
            m == evaluateds@.len(),
            1 <= j <= m,
            n == evaluateds@[0]@.len(),
            forall|jj: int| 1 <= jj < j ==> (#[trigger] evaluateds@[jj])@.len() == n,
        decreases m - j,
    {
        if evaluateds[j].n_queries() != n {
            return Err(ElinorError::InvalidArgument(
                String::from_str("The evaluated results must have the same number of queries."),
            ));
        }
        j = j + 1;
    }
    assert(same_sizes(evaluateds@));
    let first = &evaluateds[0];
    proof {
        use_type_invariant(first);
    }
    let ghost ids = first.spec_query_ids();
    assert(n == ids.len());
    let mut out: Vec<Vec<V>> = Vec::new();
    let mut i: usize = 0;
    while i < n
        invariant
            m == evaluateds@.len(),
            m >= 2,
            same_sizes(evaluateds@),
            *first == evaluateds@[0],
            n == ids.len(),
            n == first.scores@.len(),
            ids == first.spec_query_ids(),
            i <= n,
            out@.len() == i,
            forall|k: int| 0 <= k < n ==> pair_key_seqs(first.scores@)[k] == #[trigger] ids[k],
            forall|k: int| 0 <= k < i ==> scores_of_query(evaluateds@, ids[k], (#[trigger] out@[k])@),
        decreases n - i,
    {
        let q = &first.scores[i].0;
        assert(ids[i as int] == q.key_seq());
        let mut tuple: Vec<V> = Vec::new();
        let mut jj: usize = 0;
        while jj < m
            invariant
                m == evaluateds@.len(),
                m >= 2,
                same_sizes(evaluateds@),
                *first == evaluateds@[0],
                i < n,
                n == ids.len(),
                ids == first.spec_query_ids(),
                out@.len() == i,
                forall|k: int| 0 <= k < i ==> scores_of_query(evaluateds@, ids[k], (#[trigger] out@[k])@),
                jj <= m,
                tuple@.len() == jj,
                ids[i as int] == q.key_seq(),
                forall|t: int| 0 <= t < jj ==> (#[trigger] evaluateds@[t])@.contains_key(q.key_seq()),
                forall|t: int| 0 <= t < jj ==> #[trigger] tuple@[t] == evaluateds@[t]@[q.key_seq()],
            decreases m - jj,
        {
            let e = &evaluateds[jj];
            proof {
                use_type_invariant(e);
            }
            match lookup(&e.scores, q) {
                Some(v) => {
                    tuple.push(v);
                },
                None => {
                    let mut msg = String::from_str("The query id ");
                    let qt = q.key_text();
                    msg.append(qt.as_str());
                    msg.append(" is not found in the evaluated results.");
                    proof {
                        assert(!evaluateds@[jj as int]@.contains_key(ids[i as int]));
                        assert(!in_all_results(evaluateds@, evaluateds@[0].spec_query_ids()[i as int]));
                        assert forall|i2: int| 0 <= i2 < i implies #[trigger] in_all_results(
                            evaluateds@,
                            evaluateds@[0].spec_query_ids()[i2],
                        ) by {
                            assert(scores_of_query(evaluateds@, ids[i2], out@[i2]@));
                        }
                        assert(msg@ == missing_in_results_message(evaluateds@[0].spec_query_ids()[i as int]));
                    }
                    return Err(ElinorError::InvalidArgument(msg));
                },
            }
            jj = jj + 1;
        }
        assert(scores_of_query(evaluateds@, ids[i as int], tuple@));
        out.push(tuple);
        i = i + 1;
    }
    Ok(out)
}

} // verus!
