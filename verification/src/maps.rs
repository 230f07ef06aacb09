//! Maps given by sequences of key-value pairs with distinct keys,
//! and sequences strictly sorted by the order of textual keys.
use vstd::prelude::*;
use crate::keys::{seq_lt, lemma_seq_order_all, StoreKey};

verus! {

/// The map that a sequence of pairs describes (a later pair wins).
pub open spec fn pairs_to_map<A, B>(s: Seq<(A, B)>) -> Map<A, B>
    decreases s.len(),
{
    if s.len() == 0 {
        Map::empty()
    } else {
        pairs_to_map(s.drop_last()).insert(s.last().0, s.last().1)
    }
}

/// No two pairs of the sequence share a key.
pub open spec fn distinct_firsts<A, B>(s: Seq<(A, B)>) -> bool {
    forall|i: int, j: int| 0 <= i < s.len() && 0 <= j < s.len() && i != j ==> s[i].0 != s[j].0
}

/// The map of a sequence of pairs with distinct keys holds exactly its pairs.
pub proof fn lemma_pairs_to_map<A, B>(s: Seq<(A, B)>)
    requires
        distinct_firsts(s),
    ensures
        pairs_to_map(s).dom().finite(),
        pairs_to_map(s).len() == s.len(),
        forall|k: A|
            #[trigger] pairs_to_map(s).contains_key(k) <==> exists|i: int|
                0 <= i < s.len() && s[i].0 == k,
        forall|i: int| 0 <= i < s.len() ==> #[trigger] pairs_to_map(s)[s[i].0] == s[i].1,
    decreases s.len(),
{
    if s.len() > 0 {
        let t = s.drop_last();
        assert(distinct_firsts(t));
        lemma_pairs_to_map(t);
        let m = pairs_to_map(t);
        assert(!m.contains_key(s.last().0)) by {
            if m.contains_key(s.last().0) {
                let i = choose|i: int| 0 <= i < t.len() && t[i].0 == s.last().0;
                assert(s[i].0 == s[s.len() - 1].0);
            }
        }
        assert forall|k: A| #[trigger] pairs_to_map(s).contains_key(k) <==> exists|i: int|
            0 <= i < s.len() && s[i].0 == k by {
            if pairs_to_map(s).contains_key(k) {
                if k == s.last().0 {
                    assert(s[s.len() - 1].0 == k);
                } else {
                    let i = choose|i: int| 0 <= i < t.len() && t[i].0 == k;
                    assert(s[i].0 == k);
                }
            }
            if exists|i: int| 0 <= i < s.len() && s[i].0 == k {
                let i = choose|i: int| 0 <= i < s.len() && s[i].0 == k;
                if i < s.len() - 1 {
                    assert(t[i].0 == k);
                }
            }
        }
        assert forall|i: int| 0 <= i < s.len() implies #[trigger] pairs_to_map(s)[s[i].0]
            == s[i].1 by {
            if i < s.len() - 1 {
                assert(t[i] == s[i]);
                assert(s[i].0 != s[s.len() - 1].0);
            }
        }
    }
}

/// Inserting a pair with a fresh key anywhere inserts it into the map.
pub proof fn lemma_pairs_to_map_insert<A, B>(s: Seq<(A, B)>, p: int, x: (A, B))
    requires
        distinct_firsts(s),
        0 <= p <= s.len(),
        forall|i: int| 0 <= i < s.len() ==> s[i].0 != x.0,
    ensures
        distinct_firsts(s.insert(p, x)),
        pairs_to_map(s.insert(p, x)) == pairs_to_map(s).insert(x.0, x.1),
{
    let u = s.insert(p, x);
    assert(distinct_firsts(u)) by {
        assert forall|i: int, j: int|
            0 <= i < u.len() && 0 <= j < u.len() && i != j implies u[i].0 != u[j].0 by {
            let si = if i < p { i } else { i - 1 };
            let sj = if j < p { j } else { j - 1 };
            if i != p && j != p {
                assert(u[i] == s[si] && u[j] == s[sj]);
            } else if i == p {
                assert(u[j] == s[sj]);
            } else {
                assert(u[i] == s[si]);
            }
        }
    }
    lemma_pairs_to_map(s);
    lemma_pairs_to_map(u);
    let m = pairs_to_map(s).insert(x.0, x.1);
    assert forall|k: A| #[trigger] pairs_to_map(u).contains_key(k) <==> m.contains_key(k) by {
        if pairs_to_map(u).contains_key(k) {
            let i = choose|i: int| 0 <= i < u.len() && u[i].0 == k;
            if i < p {
                assert(s[i].0 == k);
            } else if i > p {
                assert(s[i - 1].0 == k);
            }
        }
        if m.contains_key(k) {
            if k == x.0 {
                assert(u[p].0 == k);
            } else {
                let i = choose|i: int| 0 <= i < s.len() && s[i].0 == k;
                if i < p {
                    assert(u[i].0 == k);
                } else {
                    assert(u[i + 1].0 == k);
                }
            }
        }
    }
    assert forall|k: A| #[trigger] pairs_to_map(u).contains_key(k) implies pairs_to_map(u)[k]
        == m[k] by {
        let i = choose|i: int| 0 <= i < u.len() && u[i].0 == k;
        if i < p {
            assert(u[i] == s[i]);
        } else if i > p {
            assert(u[i] == s[i - 1]);
        }
    }
    assert(pairs_to_map(u) =~= m);
}

/// Replacing the value of a pair replaces it in the map.
pub proof fn lemma_pairs_to_map_update<A, B>(s: Seq<(A, B)>, p: int, v: B)
    requires
        distinct_firsts(s),
        0 <= p < s.len(),
    ensures
        distinct_firsts(s.update(p, (s[p].0, v))),
        pairs_to_map(s.update(p, (s[p].0, v))) == pairs_to_map(s).insert(s[p].0, v),
{
    let u = s.update(p, (s[p].0, v));
    assert(distinct_firsts(u)) by {
        assert forall|i: int, j: int|
            0 <= i < u.len() && 0 <= j < u.len() && i != j implies u[i].0 != u[j].0 by {
            assert(u[i].0 == s[i].0 && u[j].0 == s[j].0);
        }
    }
    lemma_pairs_to_map(s);
    lemma_pairs_to_map(u);
    let m = pairs_to_map(s).insert(s[p].0, v);
    assert forall|k: A| #[trigger] pairs_to_map(u).contains_key(k) <==> m.contains_key(k) by {
        if pairs_to_map(u).contains_key(k) {
            let i = choose|i: int| 0 <= i < u.len() && u[i].0 == k;
            assert(s[i].0 == k);
        }
        if m.contains_key(k) {
            if k != s[p].0 {
                let i = choose|i: int| 0 <= i < s.len() && s[i].0 == k;
                assert(u[i].0 == k);
            } else {
                assert(u[p].0 == k);
            }
        }
    }
    assert forall|k: A| #[trigger] pairs_to_map(u).contains_key(k) implies pairs_to_map(u)[k]
        == m[k] by {
        let i = choose|i: int| 0 <= i < u.len() && u[i].0 == k;
        if i != p {
            assert(u[i] == s[i]);
        }
    }
    assert(pairs_to_map(u) =~= m);
}

/// The textual keys of a sequence of identifiers.
pub open spec fn key_seqs<K: StoreKey>(s: Seq<K>) -> Seq<Seq<char>> {
    s.map_values(|k: K| k.key_seq())
}

/// The textual keys of a sequence of pairs keyed by identifiers.
pub open spec fn pair_key_seqs<K: StoreKey, T>(s: Seq<(K, T)>) -> Seq<Seq<char>> {
    s.map_values(|p: (K, T)| p.0.key_seq())
}

/// The pairs of a sequence keyed by their textual keys.
pub open spec fn textual_pairs<K: StoreKey, T>(s: Seq<(K, T)>) -> Seq<(Seq<char>, T)> {
    s.map_values(|p: (K, T)| (p.0.key_seq(), p.1))
}

/// The map described by a sequence of pairs keyed by identifiers.
pub open spec fn rels_view<K: StoreKey, T>(s: Seq<(K, T)>) -> Map<Seq<char>, T> {
    pairs_to_map(textual_pairs(s))
}

/// A sequence of keys is strictly increasing.
pub open spec fn strictly_sorted(s: Seq<Seq<char>>) -> bool {
    forall|i: int, j: int| 0 <= i < j < s.len() ==> seq_lt(#[trigger] s[i], #[trigger] s[j])
}

/// A strictly increasing sequence of keys has no duplicates.
pub proof fn lemma_strictly_sorted_distinct(s: Seq<Seq<char>>)
    requires
        strictly_sorted(s),
    ensures
        forall|i: int, j: int| 0 <= i < s.len() && 0 <= j < s.len() && i != j ==> s[i] != s[j],
{
    lemma_seq_order_all();
    assert forall|i: int, j: int| 0 <= i < s.len() && 0 <= j < s.len() && i != j implies s[i]
        != s[j] by {
        if i < j {
            assert(seq_lt(s[i], s[j]));
        } else {
            assert(seq_lt(s[j], s[i]));
        }
    }
}

/// Inserting a key at its place keeps a sequence strictly increasing.
pub proof fn lemma_strictly_sorted_insert(s: Seq<Seq<char>>, p: int, x: Seq<char>)
    requires
        strictly_sorted(s),
        0 <= p <= s.len(),
        forall|j: int| 0 <= j < p ==> seq_lt(#[trigger] s[j], x),
        forall|j: int| p <= j < s.len() ==> seq_lt(x, #[trigger] s[j]),
    ensures
        strictly_sorted(s.insert(p, x)),
{
    let u = s.insert(p, x);
    assert forall|i: int, j: int| 0 <= i < j < u.len() implies seq_lt(
        #[trigger] u[i],
        #[trigger] u[j],
    ) by {
        if i < p && j < p {
            assert(u[i] == s[i] && u[j] == s[j]);
        } else if i < p && j == p {
            assert(u[i] == s[i]);
        } else if i < p {
            assert(u[i] == s[i] && u[j] == s[j - 1]);
        } else if i == p {
            assert(u[j] == s[j - 1]);
        } else {
            assert(u[i] == s[i - 1] && u[j] == s[j - 1]);
        }
    }
}

/// Two sequences strictly increasing in the same strict order, with the same
/// elements, are equal.
pub proof fn lemma_sorted_unique<A>(a: Seq<A>, b: Seq<A>, lt: spec_fn(A, A) -> bool)
    requires
        forall|x: A| !#[trigger] lt(x, x),
        forall|x: A, y: A| #[trigger] lt(x, y) ==> !lt(y, x),
        forall|k: int, l: int| 0 <= k < l < a.len() ==> #[trigger] lt(a[k], a[l]),
        forall|k: int, l: int| 0 <= k < l < b.len() ==> #[trigger] lt(b[k], b[l]),
        a.to_set() == b.to_set(),
    ensures
        a == b,
    decreases a.len(),
{
    if a.len() == 0 {
        if b.len() > 0 {
            assert(b.to_set().contains(b[0]));
        }
        assert(a =~= b);
    } else if b.len() == 0 {
        assert(a.to_set().contains(a[0]));
    } else {
        assert(a.to_set().contains(a[0]));
        let j = choose|j: int| 0 <= j < b.len() && b[j] == a[0];
        assert(b.to_set().contains(b[0]));
        let i = choose|i: int| 0 <= i < a.len() && a[i] == b[0];
        if j > 0 {
            assert(lt(b[0], b[j]));
            if i > 0 {
                assert(lt(a[0], a[i]));
            }
        }
        assert(a[0] == b[0]);
        let a1 = a.drop_first();
        let b1 = b.drop_first();
        assert forall|x: A| a1.to_set().contains(x) implies b1.to_set().contains(x) by {
            let k = choose|k: int| 0 <= k < a1.len() && a1[k] == x;
            assert(a[k + 1] == x);
            assert(lt(a[0], a[k + 1]));
            assert(b.to_set().contains(x));
            let m = choose|m: int| 0 <= m < b.len() && b[m] == x;
            assert(m != 0);
            assert(b1[m - 1] == x);
        }
        assert forall|x: A| b1.to_set().contains(x) implies a1.to_set().contains(x) by {
            let k = choose|k: int| 0 <= k < b1.len() && b1[k] == x;
            assert(b[k + 1] == x);
            assert(lt(b[0], b[k + 1]));
            assert(a.to_set().contains(x));
            let m = choose|m: int| 0 <= m < a.len() && a[m] == x;
            assert(m != 0);
            assert(a1[m - 1] == x);
        }
        assert(a1.to_set() =~= b1.to_set());
        assert forall|k: int, l: int| 0 <= k < l < a1.len() implies #[trigger] lt(a1[k], a1[l]) by {
            assert(lt(a[k + 1], a[l + 1]));
        }
        assert forall|k: int, l: int| 0 <= k < l < b1.len() implies #[trigger] lt(b1[k], b1[l]) by {
            assert(lt(b[k + 1], b[l + 1]));
        }
        lemma_sorted_unique(a1, b1, lt);
        assert(a =~= seq![a[0]] + a1);
        assert(b =~= seq![b[0]] + b1);
    }
}

/// Two strictly increasing sequences of keys are equal exactly when they
/// hold the same keys.
pub proof fn lemma_sorted_keys_equal(a: Seq<Seq<char>>, b: Seq<Seq<char>>)
    requires
        strictly_sorted(a),
        strictly_sorted(b),
    ensures
        (a == b) <==> (a.to_set() == b.to_set()),
{
    if a.to_set() == b.to_set() {
        lemma_seq_order_all();
        let lt = |x: Seq<char>, y: Seq<char>| seq_lt(x, y);
        assert forall|k: int, l: int| 0 <= k < l < a.len() implies #[trigger] lt(a[k], a[l]) by {}
        assert forall|k: int, l: int| 0 <= k < l < b.len() implies #[trigger] lt(b[k], b[l]) by {}
        lemma_sorted_unique(a, b, lt);
    }
}

/// Finds a key in a strictly increasing vector of identifiers.
pub fn search_keys<K: StoreKey>(ids: &Vec<K>, q: &K) -> (r: Result<usize, usize>)
    requires
        strictly_sorted(key_seqs(ids@)),
    ensures
        match r {
            Ok(i) => i < ids.len() && ids@[i as int].key_seq() == q.key_seq(),
            Err(p) => {
                &&& p <= ids.len()
                &&& forall|j: int| 0 <= j < p ==> seq_lt(#[trigger] ids@[j].key_seq(), q.key_seq())
                &&& forall|j: int|
                    p <= j < ids.len() ==> seq_lt(q.key_seq(), #[trigger] ids@[j].key_seq())
            },
        },
{
    proof {
        lemma_seq_order_all();
    }
    let mut lo: usize = 0;
    let mut hi: usize = ids.len();
    while lo < hi
        invariant
            lo <= hi <= ids.len(),
            strictly_sorted(key_seqs(ids@)),
            forall|j: int| 0 <= j < lo ==> seq_lt(#[trigger] ids@[j].key_seq(), q.key_seq()),
            forall|j: int| hi <= j < ids.len() ==> seq_lt(q.key_seq(), #[trigger] ids@[j].key_seq()),
            forall|a: Seq<char>| !#[trigger] seq_lt(a, a),
            forall|a: Seq<char>, b: Seq<char>|
                a != b ==> (#[trigger] seq_lt(a, b) || #[trigger] seq_lt(b, a)),
            forall|a: Seq<char>, b: Seq<char>, c: Seq<char>|
                #[trigger] seq_lt(a, b) && #[trigger] seq_lt(b, c) ==> seq_lt(a, c),
        decreases hi - lo,
    {
        let mid = lo + (hi - lo) / 2;
        if ids[mid].key_eq(q) {
            return Ok(mid);
        } else if ids[mid].key_lt(q) {
            proof {
                assert forall|j: int| 0 <= j < mid + 1 implies seq_lt(
                    #[trigger] ids@[j].key_seq(),
                    q.key_seq(),
                ) by {
                    if j < mid {
                        assert(key_seqs(ids@)[j] == ids@[j].key_seq());
                        assert(key_seqs(ids@)[mid as int] == ids@[mid as int].key_seq());
                    }
                }
            }
            lo = mid + 1;
        } else {
            proof {
                assert forall|j: int| mid <= j < ids.len() implies seq_lt(
                    q.key_seq(),
                    #[trigger] ids@[j].key_seq(),
                ) by {
                    assert(ids@[mid as int].key_seq() != q.key_seq());
                    assert(!seq_lt(ids@[mid as int].key_seq(), q.key_seq()));
                    assert(seq_lt(q.key_seq(), ids@[mid as int].key_seq()));
                    if j > mid {
                        assert(key_seqs(ids@)[j] == ids@[j].key_seq());
                        assert(key_seqs(ids@)[mid as int] == ids@[mid as int].key_seq());
                        assert(seq_lt(key_seqs(ids@)[mid as int], key_seqs(ids@)[j]));
                    }
                }
            }
            hi = mid;
        }
    }
    Err(lo)
}

/// Adds a key to a strictly increasing sequence of keys, at its place, unless
/// it is there already.
pub fn insert_key<K: StoreKey>(ids: &mut Vec<K>, k: K)
    requires
        strictly_sorted(key_seqs(old(ids)@)),
    ensures
        strictly_sorted(key_seqs(final(ids)@)),
        forall|q: Seq<char>|
            #[trigger] key_seqs(final(ids)@).contains(q) <==> (key_seqs(old(ids)@).contains(q)
                || q == k.key_seq()),
{
    let ghost kk = k.key_seq();
    let ghost old_keys = key_seqs(ids@);
    match search_keys(ids, &k) {
        Ok(i) => {
            proof {
                assert(old_keys[i as int] == kk);
            }
        },
        Err(p) => {
            ids.insert(p, k);
            proof {
                let s = old_keys.insert(p as int, kk);
                assert(key_seqs(ids@) =~= s);
                lemma_strictly_sorted_insert(old_keys, p as int, kk);
                assert forall|q: Seq<char>| #[trigger] s.contains(q) <==> (old_keys.contains(q) || q == kk) by {
                    if s.contains(q) {
                        let i = choose|i: int| 0 <= i < s.len() && s[i] == q;
                        if i < p {
                            assert(old_keys[i] == q);
                        } else if i > p {
                            assert(old_keys[i - 1] == q);
                        }
                    }
                    if old_keys.contains(q) {
                        let i = choose|i: int| 0 <= i < old_keys.len() && old_keys[i] == q;
                        if i < p {
                            assert(s[i] == q);
                        } else {
                            assert(s[i + 1] == q);
                        }
                    }
                    if q == kk {
                        assert(s[p as int] == q);
                    }
                }
            }
        },
    }
}

/// Finds a key in a vector of pairs strictly increasing by key.
pub fn search_pairs<K: StoreKey, T>(rels: &Vec<(K, T)>, d: &K) -> (r: Result<usize, usize>)
    requires
        strictly_sorted(pair_key_seqs(rels@)),
    ensures
        match r {
            Ok(i) => i < rels.len() && rels@[i as int].0.key_seq() == d.key_seq(),
            Err(p) => {
                &&& p <= rels.len()
                &&& forall|j: int|
                    0 <= j < p ==> seq_lt(#[trigger] rels@[j].0.key_seq(), d.key_seq())
                &&& forall|j: int|
                    p <= j < rels.len() ==> seq_lt(d.key_seq(), #[trigger] rels@[j].0.key_seq())
            },
        },
{
    proof {
        lemma_seq_order_all();
    }
    let mut lo: usize = 0;
    let mut hi: usize = rels.len();
    while lo < hi
        invariant
            lo <= hi <= rels.len(),
            strictly_sorted(pair_key_seqs(rels@)),
            forall|j: int| 0 <= j < lo ==> seq_lt(#[trigger] rels@[j].0.key_seq(), d.key_seq()),
            forall|j: int|
                hi <= j < rels.len() ==> seq_lt(d.key_seq(), #[trigger] rels@[j].0.key_seq()),
            forall|a: Seq<char>| !#[trigger] seq_lt(a, a),
            forall|a: Seq<char>, b: Seq<char>|
                a != b ==> (#[trigger] seq_lt(a, b) || #[trigger] seq_lt(b, a)),
            forall|a: Seq<char>, b: Seq<char>, c: Seq<char>|
                #[trigger] seq_lt(a, b) && #[trigger] seq_lt(b, c) ==> seq_lt(a, c),
        decreases hi - lo,
    {
        let mid = lo + (hi - lo) / 2;
        if rels[mid].0.key_eq(d) {
            return Ok(mid);
        } else if rels[mid].0.key_lt(d) {
            proof {
                assert forall|j: int| 0 <= j < mid + 1 implies seq_lt(
                    #[trigger] rels@[j].0.key_seq(),
                    d.key_seq(),
                ) by {
                    if j < mid {
                        assert(pair_key_seqs(rels@)[j] == rels@[j].0.key_seq());
                        assert(pair_key_seqs(rels@)[mid as int] == rels@[mid as int].0.key_seq());
                    }
                }
            }
            lo = mid + 1;
        } else {
            proof {
                assert forall|j: int| mid <= j < rels.len() implies seq_lt(
                    d.key_seq(),
                    #[trigger] rels@[j].0.key_seq(),
                ) by {
                    assert(rels@[mid as int].0.key_seq() != d.key_seq());
                    assert(!seq_lt(rels@[mid as int].0.key_seq(), d.key_seq()));
                    assert(seq_lt(d.key_seq(), rels@[mid as int].0.key_seq()));
                    if j > mid {
                        assert(pair_key_seqs(rels@)[j] == rels@[j].0.key_seq());
                        assert(pair_key_seqs(rels@)[mid as int] == rels@[mid as int].0.key_seq());
                        assert(seq_lt(pair_key_seqs(rels@)[mid as int], pair_key_seqs(rels@)[j]));
                    }
                }
            }
            hi = mid;
        }
    }
    Err(lo)
}

} // verus!
