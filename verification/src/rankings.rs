//! Judging ranked documents against gold relevance scores: the counts and
//! ranks from which the evaluation metrics are computed.
use vstd::prelude::*;
use vstd::string::*;
use crate::errors::ElinorError;
use crate::keys::{seq_lt, lemma_seq_order_all, StoreKey, ScoreValue};
use crate::maps::{pairs_to_map, lemma_pairs_to_map, pair_key_seqs, textual_pairs, rels_view, strictly_sorted, search_pairs, key_seqs};
use crate::relevance::{Relevance, RelevanceStore, lemma_sorted_pairs_distinct};
use crate::GoldScore;

verus! {

/// Gold scores at or above this level mean relevant.
pub const RELEVANT_LEVEL: GoldScore = 1;

/// Weighting of gold scores in DCG.
#[derive(Clone, Copy, Debug, PartialEq, Eq, Structural)]
pub enum DcgWeighting {
    /// The gold score itself (Järvelin et al.).
    Jarvelin,
    /// Two to the power of the gold score, minus one (Burges et al.).
    Burges,
}

/// The number of documents a cut-off `k` considers among `n`: all of them
/// when `k` is 0, else at most `k`.
pub open spec fn cutoff(k: usize, n: nat) -> nat {
    if k == 0 || k > n {
        n
    } else {
        k as nat
    }
}

/// The gold score of a ranked document, if it is judged.
pub open spec fn judged<K: StoreKey, T>(m: Map<Seq<char>, GoldScore>, x: Relevance<K, T>) -> Option<GoldScore> {
    if m.contains_key(x.doc_id.key_seq()) {
        Some(m[x.doc_id.key_seq()])
    } else {
        None
    }
}

/// A ranked document is judged relevant at level `lvl`.
pub open spec fn is_relevant<K: StoreKey, T>(m: Map<Seq<char>, GoldScore>, x: Relevance<K, T>, lvl: GoldScore) -> bool {
    judged(m, x) matches Some(s) && s >= lvl
}

/// The number of relevant documents in a ranking.
pub open spec fn count_relevant_in<K: StoreKey, T>(m: Map<Seq<char>, GoldScore>, s: Seq<Relevance<K, T>>, lvl: GoldScore) -> nat
    decreases s.len(),
{
    if s.len() == 0 {
        0
    } else {
        count_relevant_in(m, s.drop_last(), lvl) + if is_relevant(m, s.last(), lvl) {
            1nat
        } else {
            0nat
        }
    }
}

/// The ranks (from 1) of the relevant documents of a ranking, in order.
pub open spec fn relevant_ranks_in<K: StoreKey, T>(m: Map<Seq<char>, GoldScore>, s: Seq<Relevance<K, T>>, lvl: GoldScore) -> Seq<nat>
    decreases s.len(),
{
    if s.len() == 0 {
        Seq::empty()
    } else if is_relevant(m, s.last(), lvl) {
        relevant_ranks_in(m, s.drop_last(), lvl).push(s.len())
    } else {
        relevant_ranks_in(m, s.drop_last(), lvl)
    }
}

/// The gold score of each ranked document, 0 for an unjudged one.
pub open spec fn gains_in<K: StoreKey, T>(m: Map<Seq<char>, GoldScore>, s: Seq<Relevance<K, T>>) -> Seq<GoldScore> {
    s.map_values(|x: Relevance<K, T>| match judged(m, x) {
        Some(g) => g,
        None => 0,
    })
}

/// The number of gold pairs at or above a level.
pub open spec fn count_at_level<K: StoreKey>(trues: Seq<(K, GoldScore)>, lvl: GoldScore) -> nat
    decreases trues.len(),
{
    if trues.len() == 0 {
        0
    } else {
        count_at_level(trues.drop_last(), lvl) + if trues.last().1 >= lvl {
            1nat
        } else {
            0nat
        }
    }
}

/// For each judged relevant document of a ranking, the number of judged
/// non-relevant documents ranked above it.
pub open spec fn nonrelevant_above_in<K: StoreKey, T>(m: Map<Seq<char>, GoldScore>, s: Seq<Relevance<K, T>>, lvl: GoldScore) -> Seq<nat>
    decreases s.len(),
{
    if s.len() == 0 {
        Seq::empty()
    } else if is_relevant(m, s.last(), lvl) {
        nonrelevant_above_in(m, s.drop_last(), lvl).push(count_nonrelevant_in(m, s.drop_last(), lvl))
    } else {
        nonrelevant_above_in(m, s.drop_last(), lvl)
    }
}

/// The number of judged non-relevant documents in a ranking.
pub open spec fn count_nonrelevant_in<K: StoreKey, T>(m: Map<Seq<char>, GoldScore>, s: Seq<Relevance<K, T>>, lvl: GoldScore) -> nat
    decreases s.len(),
{
    if s.len() == 0 {
        0
    } else {
        count_nonrelevant_in(m, s.drop_last(), lvl) + if judged(m, s.last()) matches Some(g) && g < lvl {
            1nat
        } else {
            0nat
        }
    }
}

/// The gold score of a document.
pub fn lookup_gold<K: StoreKey>(trues: &Vec<(K, GoldScore)>, doc_id: &K) -> (r: Option<GoldScore>)
    requires
        strictly_sorted(pair_key_seqs(trues@)),
    ensures
        r == (if rels_view(trues@).contains_key(doc_id.key_seq()) {
            Some(rels_view(trues@)[doc_id.key_seq()])
        } else {
            None::<GoldScore>
        }),
{
    proof {
        lemma_sorted_pairs_distinct(trues@);
        lemma_pairs_to_map(textual_pairs(trues@));
        lemma_seq_order_all();
    }
    match search_pairs(trues, doc_id) {
        Ok(j) => {
            assert(textual_pairs(trues@)[j as int] == (trues@[j as int].0.key_seq(), trues@[j as int].1));
            Some(trues[j].1)
        },
        Err(p) => {
            proof {
                let dk = doc_id.key_seq();
                if rels_view(trues@).contains_key(dk) {
                    let j = choose|j: int| 0 <= j < textual_pairs(trues@).len() && textual_pairs(trues@)[j].0 == dk;
                    assert(textual_pairs(trues@)[j].0 == trues@[j].0.key_seq());
                    if j < p {
                        assert(seq_lt(trues@[j].0.key_seq(), dk));
                    } else {
                        assert(seq_lt(dk, trues@[j].0.key_seq()));
                    }
                }
            }
            None
        },
    }
}

/// The number of documents that the cut-off `k` considers.
pub fn effective_cutoff(k: usize, n: usize) -> (r: usize)
    ensures
        r == cutoff(k, n as nat),
{
    if k == 0 || k > n {
        n
    } else {
        k
    }
}

/// Counts the relevant documents among the top `k` (all when `k` is 0).
pub fn compute_hits<K: StoreKey, T>(
    trues: &Vec<(K, GoldScore)>,
    sorted_preds: &[Relevance<K, T>],
    k: usize,
    rel_lvl: GoldScore,
) -> (r: usize)
    requires
        strictly_sorted(pair_key_seqs(trues@)),
    ensures
        r == count_relevant_in(rels_view(trues@), sorted_preds@.take(cutoff(k, sorted_preds@.len()) as int), rel_lvl),
{
    let n = effective_cutoff(k, sorted_preds.len());
    let ghost m = rels_view(trues@);
    let mut hits: usize = 0;
    let mut i: usize = 0;
    while i < n
        invariant
            n <= sorted_preds@.len(),
            i <= n,
            strictly_sorted(pair_key_seqs(trues@)),
            m == rels_view(trues@),
            hits == count_relevant_in(m, sorted_preds@.take(i as int), rel_lvl),
            hits <= i,
        decreases n - i,
    {
        proof {
            assert(sorted_preds@.take(i + 1).drop_last() =~= sorted_preds@.take(i as int));
            assert(sorted_preds@.take(i + 1).last() == sorted_preds@[i as int]);
        }
        match lookup_gold(trues, &sorted_preds[i].doc_id) {
            Some(rel) => {
                if rel >= rel_lvl {
                    hits = hits + 1;
                }
            },
            None => {},
        }
        i = i + 1;
    }
    hits
}

/// Whether some relevant document is among the top `k` (all when `k` is 0).
pub fn compute_success<K: StoreKey, T>(
    trues: &Vec<(K, GoldScore)>,
    sorted_preds: &[Relevance<K, T>],
    k: usize,
    rel_lvl: GoldScore,
) -> (r: bool)
    requires
        strictly_sorted(pair_key_seqs(trues@)),
    ensures
        r == (count_relevant_in(rels_view(trues@), sorted_preds@.take(cutoff(k, sorted_preds@.len()) as int), rel_lvl) > 0),
{
    compute_hits(trues, sorted_preds, k, rel_lvl) > 0
}

/// The ranks (from 1) of the relevant documents among the top `k` (all
/// when `k` is 0), in increasing order.
pub fn relevant_ranks<K: StoreKey, T>(
    trues: &Vec<(K, GoldScore)>,
    sorted_preds: &[Relevance<K, T>],
    k: usize,
    rel_lvl: GoldScore,
) -> (r: Vec<usize>)
    requires
        strictly_sorted(pair_key_seqs(trues@)),
    ensures
        r@.map_values(|x: usize| x as nat) == relevant_ranks_in(
            rels_view(trues@),
            sorted_preds@.take(cutoff(k, sorted_preds@.len()) as int),
            rel_lvl,
        ),
{
    let n = effective_cutoff(k, sorted_preds.len());
    let ghost m = rels_view(trues@);
    let mut ranks: Vec<usize> = Vec::new();
    let mut i: usize = 0;
    while i < n
        invariant
            n <= sorted_preds@.len(),
            i <= n,
            strictly_sorted(pair_key_seqs(trues@)),
            m == rels_view(trues@),
            ranks@.map_values(|x: usize| x as nat) == relevant_ranks_in(m, sorted_preds@.take(i as int), rel_lvl),
        decreases n - i,
    {
        proof {
            assert(sorted_preds@.take(i + 1).drop_last() =~= sorted_preds@.take(i as int));
            assert(sorted_preds@.take(i + 1).last() == sorted_preds@[i as int]);
        }
        let ghost prev = ranks@;
        match lookup_gold(trues, &sorted_preds[i].doc_id) {
            Some(rel) => {
                if rel >= rel_lvl {
                    ranks.push(i + 1);
                    assert(ranks@.map_values(|x: usize| x as nat) =~= prev.map_values(|x: usize| x as nat).push((i + 1) as nat));
                }
            },
            None => {},
        }
        i = i + 1;
    }
    ranks
}

/// The rank (from 1) of the first relevant document among the top `k` (all
/// when `k` is 0), if there is one.
pub fn first_relevant_rank<K: StoreKey, T>(
    trues: &Vec<(K, GoldScore)>,
    sorted_preds: &[Relevance<K, T>],
    k: usize,
    rel_lvl: GoldScore,
) -> (r: Option<usize>)
    requires
        strictly_sorted(pair_key_seqs(trues@)),
    ensures
        match r {
            Some(rank) => {
                &&& 1 <= rank <= cutoff(k, sorted_preds@.len())
                &&& is_relevant(rels_view(trues@), sorted_preds@[rank - 1], rel_lvl)
                &&& forall|j: int| 0 <= j < rank - 1 ==> !is_relevant(rels_view(trues@), #[trigger] sorted_preds@[j], rel_lvl)
            },
            None => forall|j: int|
                0 <= j < cutoff(k, sorted_preds@.len()) ==> !is_relevant(rels_view(trues@), #[trigger] sorted_preds@[j], rel_lvl),
        },
{
    let n = effective_cutoff(k, sorted_preds.len());
    let mut i: usize = 0;
    while i < n
        invariant
            n <= sorted_preds@.len(),
            n == cutoff(k, sorted_preds@.len()),
            i <= n,
            strictly_sorted(pair_key_seqs(trues@)),
            forall|j: int| 0 <= j < i ==> !is_relevant(rels_view(trues@), #[trigger] sorted_preds@[j], rel_lvl),
        decreases n - i,
    {
        match lookup_gold(trues, &sorted_preds[i].doc_id) {
            Some(rel) => {
                if rel >= rel_lvl {
                    return Some(i + 1);
                }
            },
            None => {},
        }
        i = i + 1;
    }
    None
}

/// The gold score of each of the top `k` documents (all when `k` is 0),
/// 0 for an unjudged one.
pub fn gains<K: StoreKey, T>(
    trues: &Vec<(K, GoldScore)>,
    sorted_preds: &[Relevance<K, T>],
    k: usize,
) -> (r: Vec<GoldScore>)
    requires
        strictly_sorted(pair_key_seqs(trues@)),
    ensures
        r@ == gains_in(rels_view(trues@), sorted_preds@.take(cutoff(k, sorted_preds@.len()) as int)),
{
    let n = effective_cutoff(k, sorted_preds.len());
    let ghost m = rels_view(trues@);
    let mut out: Vec<GoldScore> = Vec::new();
    let mut i: usize = 0;
    while i < n
        invariant
            n <= sorted_preds@.len(),
            i <= n,
            strictly_sorted(pair_key_seqs(trues@)),
            m == rels_view(trues@),
            out@ == gains_in(m, sorted_preds@.take(i as int)),
        decreases n - i,
    {
        let g = match lookup_gold(trues, &sorted_preds[i].doc_id) {
            Some(rel) => rel,
            None => 0,
        };
        out.push(g);
        proof {
            assert(out@ =~= gains_in(m, sorted_preds@.take(i + 1)));
        }
        i = i + 1;
    }
    out
}

/// The number of gold pairs at or above the level `rel_lvl`.
pub fn count_relevant<K: StoreKey>(trues: &Vec<(K, GoldScore)>, rel_lvl: GoldScore) -> (r: usize)
    ensures
        r == count_at_level(trues@, rel_lvl),
{
    let mut count: usize = 0;
    let mut i: usize = 0;
    while i < trues.len()
        invariant
            i <= trues@.len(),
            count == count_at_level(trues@.take(i as int), rel_lvl),
            count <= i,
        decreases trues@.len() - i,
    {
        proof {
            assert(trues@.take(i + 1).drop_last() =~= trues@.take(i as int));
            assert(trues@.take(i + 1).last() == trues@[i as int]);
        }
        if trues[i].1 >= rel_lvl {
            count = count + 1;
        }
        i = i + 1;
    }
    assert(trues@.take(trues@.len() as int) =~= trues@);
    count
}

/// For each judged relevant document of the ranking, the number of judged
/// non-relevant documents ranked above it.
pub fn nonrelevant_above<K: StoreKey, T>(
    trues: &Vec<(K, GoldScore)>,
    sorted_preds: &[Relevance<K, T>],
    rel_lvl: GoldScore,
) -> (r: Vec<usize>)
    requires
        strictly_sorted(pair_key_seqs(trues@)),
    ensures
        r@.map_values(|x: usize| x as nat) == nonrelevant_above_in(rels_view(trues@), sorted_preds@, rel_lvl),
{
    let n = sorted_preds.len();
    let ghost m = rels_view(trues@);
    let mut out: Vec<usize> = Vec::new();
    let mut non_rels: usize = 0;
    let mut i: usize = 0;
    while i < n
        invariant
            n == sorted_preds@.len(),
            i <= n,
            strictly_sorted(pair_key_seqs(trues@)),
            m == rels_view(trues@),
            non_rels == count_nonrelevant_in(m, sorted_preds@.take(i as int), rel_lvl),
            non_rels <= i,
            out@.map_values(|x: usize| x as nat) == nonrelevant_above_in(m, sorted_preds@.take(i as int), rel_lvl),
        decreases n - i,
    {
        proof {
            assert(sorted_preds@.take(i + 1).drop_last() =~= sorted_preds@.take(i as int));
            assert(sorted_preds@.take(i + 1).last() == sorted_preds@[i as int]);
        }
        let ghost prev = out@;
        match lookup_gold(trues, &sorted_preds[i].doc_id) {
            Some(rel) => {
                if rel >= rel_lvl {
                    out.push(non_rels);
                    assert(out@.map_values(|x: usize| x as nat) =~= prev.map_values(|x: usize| x as nat).push(non_rels as nat));
                } else {
                    non_rels = non_rels + 1;
                }
            },
            None => {},
        }
        i = i + 1;
    }
    assert(sorted_preds@.take(n as int) =~= sorted_preds@);
    out
}

/// The relevant ranks of a ranking: one for each relevant document, in
/// increasing order, each the rank of a relevant document, and the `i`-th
/// (from 0) with exactly `i + 1` relevant documents at or above it; so the
/// precision at the `i`-th relevant rank `r` is `(i + 1) / r`.
pub proof fn lemma_relevant_ranks<K: StoreKey, T>(m: Map<Seq<char>, GoldScore>, s: Seq<Relevance<K, T>>, lvl: GoldScore)
    ensures
        relevant_ranks_in(m, s, lvl).len() == count_relevant_in(m, s, lvl),
        forall|i: int|
            0 <= i < relevant_ranks_in(m, s, lvl).len() ==> {
                &&& 1 <= #[trigger] relevant_ranks_in(m, s, lvl)[i] <= s.len()
                &&& is_relevant(m, s[relevant_ranks_in(m, s, lvl)[i] - 1], lvl)
                &&& count_relevant_in(m, s.take(relevant_ranks_in(m, s, lvl)[i] as int), lvl) == i + 1
            },
        forall|i: int, j: int|
            0 <= i < j < relevant_ranks_in(m, s, lvl).len() ==> #[trigger] relevant_ranks_in(m, s, lvl)[i]
                < #[trigger] relevant_ranks_in(m, s, lvl)[j],
    decreases s.len(),
{
    if s.len() > 0 {
        let t = s.drop_last();
        lemma_relevant_ranks(m, t, lvl);
        let rt = relevant_ranks_in(m, t, lvl);
        let rs = relevant_ranks_in(m, s, lvl);
        assert forall|i: int| 0 <= i < rt.len() implies s.take(#[trigger] rt[i] as int) == t.take(rt[i] as int) by {
            assert(s.take(rt[i] as int) =~= t.take(rt[i] as int));
        }
        assert forall|i: int| 0 <= i < rt.len() implies s[#[trigger] rt[i] - 1] == t[rt[i] - 1] by {}
        if is_relevant(m, s.last(), lvl) {
            assert(rs == rt.push(s.len()));
            assert(s.take(s.len() as int) =~= s);
            assert(s[s.len() - 1] == s.last());
        }
    }
}

/// Hits do not decrease as the cut-off grows.
pub proof fn lemma_hits_monotone<K: StoreKey, T>(
    m: Map<Seq<char>, GoldScore>,
    s: Seq<Relevance<K, T>>,
    lvl: GoldScore,
    a: int,
    b: int,
)
    requires
        0 <= a <= b <= s.len(),
    ensures
        count_relevant_in(m, s.take(a), lvl) <= count_relevant_in(m, s.take(b), lvl),
    decreases b - a,
{
    if a < b {
        lemma_hits_monotone(m, s, lvl, a, b - 1);
        assert(s.take(b).drop_last() =~= s.take(b - 1));
    }
}

/// A relevant document with no relevant document above it is at the first
/// relevant rank.
pub proof fn lemma_first_relevant_rank<K: StoreKey, T>(
    m: Map<Seq<char>, GoldScore>,
    s: Seq<Relevance<K, T>>,
    lvl: GoldScore,
    rank: int,
)
    requires
        1 <= rank <= s.len(),
        is_relevant(m, s[rank - 1], lvl),
        forall|j: int| 0 <= j < rank - 1 ==> !is_relevant(m, #[trigger] s[j], lvl),
    ensures
        relevant_ranks_in(m, s, lvl).len() > 0,
        relevant_ranks_in(m, s, lvl)[0] == rank,
{
    lemma_relevant_ranks(m, s, lvl);
    let rs = relevant_ranks_in(m, s, lvl);
    lemma_relevant_ranks_cover(m, s, lvl, rank - 1);
    let i = choose|i: int| 0 <= i < rs.len() && rs[i] == rank;
    assert(rs[0] <= rs[i]);
    if rs[0] < rank {
        assert(is_relevant(m, s[rs[0] - 1], lvl));
    }
}

/// A ranking without relevant documents has no relevant rank.
pub proof fn lemma_no_relevant_rank<K: StoreKey, T>(
    m: Map<Seq<char>, GoldScore>,
    s: Seq<Relevance<K, T>>,
    lvl: GoldScore,
)
    requires
        forall|j: int| 0 <= j < s.len() ==> !is_relevant(m, #[trigger] s[j], lvl),
    ensures
        relevant_ranks_in(m, s, lvl).len() == 0,
{
    lemma_relevant_ranks(m, s, lvl);
    let rs = relevant_ranks_in(m, s, lvl);
    if rs.len() > 0 {
        assert(is_relevant(m, s[rs[0] - 1], lvl));
    }
}

/// Each relevant document of a ranking has its rank among the relevant ranks.
proof fn lemma_relevant_ranks_cover<K: StoreKey, T>(
    m: Map<Seq<char>, GoldScore>,
    s: Seq<Relevance<K, T>>,
    lvl: GoldScore,
    j: int,
)
    requires
        0 <= j < s.len(),
        is_relevant(m, s[j], lvl),
    ensures
        exists|i: int| 0 <= i < relevant_ranks_in(m, s, lvl).len() && relevant_ranks_in(m, s, lvl)[i] == j + 1,
    decreases s.len(),
{
    let t = s.drop_last();
    let rt = relevant_ranks_in(m, t, lvl);
    if j == s.len() - 1 {
        assert(s.last() == s[j]);
        assert(relevant_ranks_in(m, s, lvl) == rt.push(s.len()));
        assert(relevant_ranks_in(m, s, lvl)[rt.len() as int] == j + 1);
    } else {
        assert(t[j] == s[j]);
        lemma_relevant_ranks_cover(m, t, lvl, j);
        let i = choose|i: int| 0 <= i < rt.len() && rt[i] == j + 1;
        if is_relevant(m, s.last(), lvl) {
            assert(relevant_ranks_in(m, s, lvl) == rt.push(s.len()));
            assert(relevant_ranks_in(m, s, lvl)[i] == rt[i]);
        } else {
            assert(relevant_ranks_in(m, s, lvl) == rt);
            assert(relevant_ranks_in(m, s, lvl)[i] == j + 1);
        }
    }
}

/// Checks that every query of the predicted store has gold scores.
///
/// # Errors
///
/// * [`ElinorError::MissingEntry`] naming the smallest query id of the
///   predicted store that the gold store lacks.
pub fn check_queries<K: StoreKey, T: ScoreValue, U: ScoreValue>(
    gold: &RelevanceStore<K, T>,
    pred: &RelevanceStore<K, U>,
) -> (r: Result<(), ElinorError>)
    ensures
        r is Ok <==> (forall|q: Seq<char>| #[trigger] pred@.contains_key(q) ==> gold@.contains_key(q)),
        r matches Err(e) ==> exists|q: Seq<char>| {
            &&& pred@.contains_key(q)
            &&& !gold@.contains_key(q)
            &&& (forall|q2: Seq<char>| #[trigger] pred@.contains_key(q2) && seq_lt(q2, q) ==> gold@.contains_key(q2))
            &&& e matches ElinorError::MissingEntry(msg)
            &&& msg@ == "Query ID: "@ + q
        },
{
    let n = pred.n_queries();
    let ghost all = pred.spec_query_ids();
    proof {
        lemma_seq_order_all();
    }
    let mut i: usize = 0;
    while i < n
        invariant
            n == all.len(),
            all == pred.spec_query_ids(),
            strictly_sorted(all),
            forall|q: Seq<char>| #[trigger] pred@.contains_key(q) <==> all.contains(q),
            i <= n,
            forall|j: int| 0 <= j < i ==> gold@.contains_key(#[trigger] all[j]),
        decreases n - i,
    {
        let qid = pred.query_id_at(i);
        if gold.get_map(qid).is_none() {
            let mut msg = String::from_str("Query ID: ");
            let text = qid.key_text();
            msg.append(text.as_str());
            proof {
                lemma_seq_order_all();
                let q = qid.key_seq();
                assert(all[i as int] == q);
                assert(all.contains(q));
                assert(pred@.contains_key(q));
                assert(!gold@.contains_key(q));
                assert forall|q2: Seq<char>| #[trigger] pred@.contains_key(q2) && seq_lt(q2, q) implies gold@.contains_key(q2) by {
                    let j = choose|j: int| 0 <= j < all.len() && all[j] == q2;
                    if j > i {
                        assert(seq_lt(all[i as int], all[j]));
                    } else if j < i {
                        assert(gold@.contains_key(all[j]));
                    }
                }
            }
            return Err(ElinorError::MissingEntry(msg));
        }
        i = i + 1;
    }
    proof {
        assert forall|q: Seq<char>| #[trigger] pred@.contains_key(q) implies gold@.contains_key(q) by {
            let j = choose|j: int| 0 <= j < all.len() && all[j] == q;
        }
    }
    Ok(())
}

} // verus!
