//! Scores of several systems on the same topics, aligned by topic.
//!
//! A map of scores is given as its entries in the order in which a
//! `BTreeMap` walks them: increasing order of key.
use vstd::prelude::*;
use vstd::string::*;
use crate::errors::ElinorError;
use crate::keys::StoreKey;
use crate::maps::{lemma_sorted_keys_equal, pair_key_seqs, strictly_sorted};
use crate::metrics::{decimal, usize_to_string};

verus! {

/// The message of the error for fewer than two maps.
pub open spec fn too_few_maps_message(n: nat) -> Seq<char> {
    "The number of maps maps must be at least 2, but got "@ + decimal(n) + "."@
}

/// The message of the error for a map with another number of keys than the first.
pub open spec fn key_count_message(n0: nat, i: nat, ni: nat) -> Seq<char> {
    "The number of keys in maps must be the same, but got maps[0].len()="@ + decimal(n0)
        + " and maps["@ + decimal(i) + "].len()="@ + decimal(ni) + "."@
}

/// The message of the error for a map with other keys than the first.
pub open spec fn keys_message() -> Seq<char> {
    "The keys in the maps must be the same."@
}

/// The `i`-th map holds other keys than the first.
pub open spec fn map_differs<K: StoreKey, V>(maps: Seq<&Vec<(K, V)>>, i: int) -> bool {
    pair_key_seqs(maps[i]@).to_set() != pair_key_seqs(maps[0]@).to_set()
}

/// The entries of each map are in strictly increasing order of key, as a
/// `BTreeMap` walks them.
pub open spec fn sorted_maps<K: StoreKey, V>(maps: Seq<&Vec<(K, V)>>) -> bool {
    forall|j: int| 0 <= j < maps.len() ==> strictly_sorted(pair_key_seqs((#[trigger] maps[j])@))
}

/// The error for the `i`-th map, which differs from the first.
pub open spec fn differ_error<K: StoreKey, V>(maps: Seq<&Vec<(K, V)>>, i: int, e: ElinorError) -> bool {
    if maps[i]@.len() != maps[0]@.len() {
        e matches ElinorError::InvalidArgument(m) && m@ == key_count_message(
            maps[0]@.len(),
            i as nat,
            maps[i]@.len(),
        )
    } else {
        e matches ElinorError::InvalidArgument(m) && m@ == keys_message()
    }
}

/// Whether two maps have the same keys in the same order.
fn same_keys<K: StoreKey, V>(a: &Vec<(K, V)>, b: &Vec<(K, V)>) -> (r: bool)
    requires
        a@.len() == b@.len(),
    ensures
        r == (pair_key_seqs(a@) == pair_key_seqs(b@)),
{
    let n = a.len();
    let mut k: usize = 0;
    while k < n
        invariant
            n == a@.len(),
            n == b@.len(),
            k <= n,
            forall|t: int| 0 <= t < k ==> a@[t].0.key_seq() == b@[t].0.key_seq(),
        decreases n - k,
    {
        if !a[k].0.key_eq(&b[k].0) {
            assert(pair_key_seqs(a@)[k as int] != pair_key_seqs(b@)[k as int]);
            return false;
        }
        k = k + 1;
    }
    assert(pair_key_seqs(a@) =~= pair_key_seqs(b@));
    true
}

/// Converts maps of scores, `A_1, ..., A_m`, into tuples of scores: the
/// `k`-th tuple holds the values of the maps at the `k`-th key; the maps,
/// each given by its entries in increasing order of key, must have the same
/// keys.
///
/// # Errors
///
/// * [`ElinorError::InvalidArgument`] if there are fewer than two maps, or
///   a map has another number of keys or other keys than the first; the
///   error is about the first such map.
pub fn tuples_from_maps<K: StoreKey, V: Copy>(maps: &[&Vec<(K, V)>]) -> (r: Result<Vec<Vec<V>>, ElinorError>)
    requires
        sorted_maps(maps@),
    ensures
        maps@.len() < 2 ==> (r matches Err(ElinorError::InvalidArgument(m))
            && m@ == too_few_maps_message(maps@.len())),
        maps@.len() >= 2 ==> match r {
            Ok(t) => {
                &&& forall|i: int| 1 <= i < maps@.len() ==> !#[trigger] map_differs(maps@, i)
                &&& forall|i: int| 0 <= i < maps@.len() ==> pair_key_seqs((#[trigger] maps@[i])@) == pair_key_seqs(maps@[0]@)
                &&& t@.len() == maps@[0]@.len()
                &&& forall|k: int|
                    0 <= k < t@.len() ==> (#[trigger] t@[k])@.len() == maps@.len() && forall|j: int|
                        0 <= j < maps@.len() ==> #[trigger] t@[k]@[j] == maps@[j]@[k].1
            },
            Err(e) => exists|i: int|
                1 <= i < maps@.len() && #[trigger] map_differs(maps@, i) && (forall|i2: int|
                    1 <= i2 < i ==> !#[trigger] map_differs(maps@, i2)) && differ_error(maps@, i, e),
        },
{
    let m = maps.len();
    if m < 2 {
        let mut msg = String::from_str("The number of maps maps must be at least 2, but got ");
        let ms = usize_to_string(m);
        msg.append(ms.as_str());
        msg.append(".");
        return Err(ElinorError::InvalidArgument(msg));
    }
    let n = maps[0].len();
    let mut i: usize = 1;
    while i < m
        invariant
            m == maps@.len(),
            1 <= i <= m,
            n == maps@[0]@.len(),
            sorted_maps(maps@),
            forall|i2: int| 0 <= i2 < i ==> pair_key_seqs((#[trigger] maps@[i2])@) == pair_key_seqs(maps@[0]@),
        decreases m - i,
    {
        let ni = maps[i].len();
        if n != ni {
            let mut msg = String::from_str(
                "The number of keys in maps must be the same, but got maps[0].len()=",
            );
            let s0 = usize_to_string(n);
            msg.append(s0.as_str());
            msg.append(" and maps[");
            let si = usize_to_string(i);
            msg.append(si.as_str());
            msg.append("].len()=");
            let sn = usize_to_string(ni);
            msg.append(sn.as_str());
            msg.append(".");
            proof {
                assert(pair_key_seqs(maps@[i as int]@).len() != pair_key_seqs(maps@[0]@).len());
                lemma_sorted_keys_equal(pair_key_seqs(maps@[i as int]@), pair_key_seqs(maps@[0]@));
                assert(map_differs(maps@, i as int));
                assert forall|i2: int| 1 <= i2 < i implies !#[trigger] map_differs(maps@, i2) by {
                    assert(pair_key_seqs(maps@[i2]@) == pair_key_seqs(maps@[0]@));
                }
            }
            return Err(ElinorError::InvalidArgument(msg));
        }
        if !same_keys(maps[i], maps[0]) {
            proof {
                lemma_sorted_keys_equal(pair_key_seqs(maps@[i as int]@), pair_key_seqs(maps@[0]@));
                assert(map_differs(maps@, i as int));
                assert forall|i2: int| 1 <= i2 < i implies !#[trigger] map_differs(maps@, i2) by {
                    assert(pair_key_seqs(maps@[i2]@) == pair_key_seqs(maps@[0]@));
                }
            }
            return Err(ElinorError::InvalidArgument(String::from_str("The keys in the maps must be the same.")));
        }
        i = i + 1;
    }
    let mut out: Vec<Vec<V>> = Vec::new();
    let mut k: usize = 0;
    while k < n
        invariant
            m == maps@.len(),
            m >= 2,
            n == maps@[0]@.len(),
            forall|i2: int| 0 <= i2 < m ==> pair_key_seqs((#[trigger] maps@[i2])@) == pair_key_seqs(maps@[0]@),
            k <= n,
            out@.len() == k,
            forall|t: int|
                0 <= t < k ==> (#[trigger] out@[t])@.len() == m && forall|j: int|
                    0 <= j < m ==> #[trigger] out@[t]@[j] == maps@[j]@[t].1,
        decreases n - k,
    {
        let mut tuple: Vec<V> = Vec::new();
        let mut j: usize = 0;
        while j < m
            invariant
                m == maps@.len(),
                n == maps@[0]@.len(),
                forall|i2: int| 0 <= i2 < m ==> pair_key_seqs((#[trigger] maps@[i2])@) == pair_key_seqs(maps@[0]@),
                k < n,
                j <= m,
                tuple@.len() == j,
                forall|t: int| 0 <= t < j ==> #[trigger] tuple@[t] == maps@[t]@[k as int].1,
            decreases m - j,
        {
            proof {
                assert(pair_key_seqs(maps@[j as int]@) == pair_key_seqs(maps@[0]@));
                assert(pair_key_seqs(maps@[j as int]@).len() == pair_key_seqs(maps@[0]@).len());
            }
            let v = maps[j][k].1;
            tuple.push(v);
            j = j + 1;
        }
        out.push(tuple);
        k = k + 1;
    }
    assert forall|i2: int| 1 <= i2 < m implies !#[trigger] map_differs(maps@, i2) by {
        assert(pair_key_seqs(maps@[i2]@) == pair_key_seqs(maps@[0]@));
    }
    Ok(out)
}

/// Converts two maps of scores, `A` and `B`, into pairs of scores: the `k`-th
/// pair holds the values of the maps at the `k`-th key; the maps, each given
/// by its entries in increasing order of key, must have the same keys.
///
/// # Errors
///
/// * [`ElinorError::InvalidArgument`] if the maps have different numbers of
///   keys or different keys.
pub fn pairs_from_maps<K: StoreKey, V: Copy>(map_a: &Vec<(K, V)>, map_b: &Vec<(K, V)>) -> (r: Result<Vec<(V, V)>, ElinorError>)
    requires
        strictly_sorted(pair_key_seqs(map_a@)),
        strictly_sorted(pair_key_seqs(map_b@)),
    ensures
        match r {
            Ok(p) => {
                &&& pair_key_seqs(map_a@) == pair_key_seqs(map_b@)
                &&& p@.len() == map_a@.len()
                &&& forall|k: int| 0 <= k < p@.len() ==> #[trigger] p@[k] == (map_a@[k].1, map_b@[k].1)
            },
            Err(e) => pair_key_seqs(map_b@).to_set() != pair_key_seqs(map_a@).to_set() && differ_error(
                seq![map_a, map_b],
                1,
                e,
            ),
        },
{
    let maps = vec![map_a, map_b];
    let ghost ms = maps@;
    assert(ms =~= seq![map_a, map_b]);
    assert(sorted_maps(ms));
    match tuples_from_maps(maps.as_slice()) {
        Ok(tuples) => {
            assert(pair_key_seqs(ms[1]@) == pair_key_seqs(ms[0]@));
            let mut out: Vec<(V, V)> = Vec::new();
            let n = tuples.len();
            let mut k: usize = 0;
            while k < n
                invariant
                    n == tuples@.len(),
                    n == map_a@.len(),
                    k <= n,
                    out@.len() == k,
                    ms == seq![map_a, map_b],
                    forall|t: int|
                        0 <= t < n ==> (#[trigger] tuples@[t])@.len() == 2 && forall|j: int|
                            0 <= j < 2 ==> #[trigger] tuples@[t]@[j] == ms[j]@[t].1,
                    forall|t: int| 0 <= t < k ==> #[trigger] out@[t] == (map_a@[t].1, map_b@[t].1),
                decreases n - k,
            {
                let a = tuples[k][0];
                let b = tuples[k][1];
                proof {
                    assert(tuples@[k as int]@[0] == ms[0]@[k as int].1);
                    assert(tuples@[k as int]@[1] == ms[1]@[k as int].1);
                }
                out.push((a, b));
                k = k + 1;
            }
            Ok(out)
        },
        Err(e) => {
            proof {
                let i = choose|i: int|
                    1 <= i < ms.len() && #[trigger] map_differs(ms, i) && (forall|i2: int|
                        1 <= i2 < i ==> !#[trigger] map_differs(ms, i2)) && differ_error(ms, i, e);
                assert(i == 1);
            }
            Err(e)
        },
    }
}

} // verus!
