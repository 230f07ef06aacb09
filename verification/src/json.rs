//! Relevance scores read from JSON: an object from query ids to objects from
//! document ids to scores.
use vstd::prelude::*;
use vstd::string::*;
use serde_json::Value;
use crate::errors::ElinorError;
use crate::keys::ScoreValue;
use crate::qrels::Qrels;
use crate::run::Run;
use crate::relevance::{
    duplicate_message, fold_records, lemma_fold_value, nested_contains, pair_dup_at, no_dup_pairs, record_triples, Record,
    RelevanceStore, Triple,
};
use crate::{pred_key_spec, pred_score_from_bits, PredScore};

verus! {

/// A JSON value, with a number kept as the `u64` it is, if it is one, and as
/// the bits of the `f64` it reads as.
#[derive(Debug)]
pub enum JsonValue {
    /// `null`.
    Null,
    /// `true` or `false`.
    Bool(bool),
    /// A number: `Some` of its value when it is an integer within `u64`, and
    /// `Some` of the bits of its `f64` value when it has one.
    Number(Option<u64>, Option<u64>),
    /// A string.
    Str(String),
    /// An array.
    Array(Vec<JsonValue>),
    /// An object: its members in the order of their keys, each key once.
    Object(Vec<(String, JsonValue)>),
}

/// serde_json's value, as an opaque value.
#[verifier::external_type_specification]
#[verifier::external_body]
pub struct ExJsonValue(Value);

/// What `serde_json` reads from a text: the value, or the message of the
/// error.
pub uninterp spec fn json_parse(data: Seq<char>) -> Result<JsonValue, Seq<char>>;

/// Calls `serde_json::from_str::<serde_json::Value>`, converts the value
/// with [`json_value_of`], and an error to its message.
///
/// Claims only that the result is a function of the text, named
/// `json_parse`; what serde_json accepts takes its whole grammar to state.
#[verifier::external_body]
pub fn json_from_str(data: &str) -> (r: Result<JsonValue, String>)
    ensures
        match (r, json_parse(data@)) {
            (Ok(v), Ok(w)) => v == w,
            (Err(m), Err(n)) => m@ == n,
            _ => false,
        },
{
    serde_json::from_str::<Value>(data).map(|v| json_value_of(&v)).map_err(|e| e.to_string())
}

/// Converts serde_json's value variant for variant, a number by `as_u64`
/// and by the bits of `as_f64`, nested values by this same conversion.
///
/// The conversion of [`json_from_str`], whose name `json_parse` covers what
/// it returns; it states nothing of its own.
#[verifier::external_body]
fn json_value_of(v: &Value) -> JsonValue {
    match v {
        Value::Null => JsonValue::Null,
        Value::Bool(b) => JsonValue::Bool(*b),
        Value::Number(n) => JsonValue::Number(n.as_u64(), n.as_f64().map(|x| x.to_bits())),
        Value::String(s) => JsonValue::Str(s.clone()),
        Value::Array(a) => JsonValue::Array(a.iter().map(json_value_of).collect()),
        Value::Object(o) => JsonValue::Object(o.iter().map(|(k, x)| (k.clone(), json_value_of(x))).collect()),
    }
}

/// The message of the error for data of another shape.
pub open spec fn invalid_json_message() -> Seq<char> {
    "Invalid JSON format"@
}

/// The message of the error for a score out of range.
pub open spec fn invalid_score_message() -> Seq<char> {
    "Invalid score"@
}

/// Scores that are read from JSON numbers.
pub trait JsonScore: ScoreValue {
    /// The score that a JSON value reads as, or the message of the failure.
    spec fn read_spec(v: JsonValue) -> Result<Self, Seq<char>>;

    /// Reads a score from a JSON value.
    fn read(v: &JsonValue) -> (r: Result<Self, String>)
        ensures
            match Self::read_spec(*v) {
                Ok(x) => r matches Ok(y) && y == x,
                Err(m) => r matches Err(s) && s@ == m,
            },
    ;
}

/// A gold score: a non-negative integer within `i32`.
impl JsonScore for i32 {
    open spec fn read_spec(v: JsonValue) -> Result<i32, Seq<char>> {
        match v {
            JsonValue::Number(Some(n), _) => if n <= i32::MAX {
                Ok(n as i32)
            } else {
                Err(invalid_score_message())
            },
            _ => Err(invalid_json_message()),
        }
    }

    fn read(v: &JsonValue) -> (r: Result<i32, String>) {
        match v {
            JsonValue::Number(Some(n), _) => if *n <= 2147483647u64 {
                Ok(*n as i32)
            } else {
                Err(String::from_str("Invalid score"))
            },
            _ => Err(String::from_str("Invalid JSON format")),
        }
    }
}

/// A predicted score: the key of a number's `f64` value.
impl JsonScore for u64 {
    open spec fn read_spec(v: JsonValue) -> Result<u64, Seq<char>> {
        match v {
            JsonValue::Number(_, Some(bits)) => Ok(pred_key_spec(bits)),
            _ => Err(invalid_json_message()),
        }
    }

    fn read(v: &JsonValue) -> (r: Result<u64, String>) {
        match v {
            JsonValue::Number(_, Some(bits)) => Ok(pred_score_from_bits(*bits)),
            _ => Err(String::from_str("Invalid JSON format")),
        }
    }
}

/// The triples read from the members of a query's object, in order, up to
/// the first member that is no score, and the message of that failure.
pub open spec fn doc_leaves<T: JsonScore>(q: Seq<char>, docs: Seq<(String, JsonValue)>) -> (Seq<Triple<T>>, Option<Seq<char>>)
    decreases docs.len(),
{
    if docs.len() == 0 {
        (Seq::empty(), None)
    } else {
        let prev = doc_leaves::<T>(q, docs.drop_last());
        if prev.1 is Some {
            prev
        } else {
            match T::read_spec(docs.last().1) {
                Ok(x) => (prev.0.push((q, docs.last().0@, x)), None),
                Err(m) => (prev.0, Some(m)),
            }
        }
    }
}

/// The integer of a JSON number within `u64`, if the value is one.
pub open spec fn json_int(v: JsonValue) -> Option<u64> {
    match v {
        JsonValue::Number(Some(n), _) => Some(n),
        _ => None,
    }
}

/// A gold score given as a JSON integer within `i32` reads as that very
/// integer.
pub proof fn lemma_gold_score_exact(v: JsonValue)
    requires
        json_int(v) matches Some(n) && n <= i32::MAX,
    ensures
        <i32 as JsonScore>::read_spec(v) matches Ok(x) && json_int(v) == Some(x as u64),
{
}

/// The members of a query's object, all of them JSON integers within `i32`,
/// read as gold scores without failure: one triple for each member, in
/// order, of the query, the member's document id and the very integer given.
pub proof fn lemma_gold_doc_leaves_exact(q: Seq<char>, docs: Seq<(String, JsonValue)>)
    requires
        forall|k: int| 0 <= k < docs.len() ==> (json_int(#[trigger] docs[k].1) matches Some(n) && n <= i32::MAX),
    ensures
        doc_leaves::<i32>(q, docs).1 is None,
        doc_leaves::<i32>(q, docs).0.len() == docs.len(),
        forall|k: int|
            0 <= k < docs.len() ==> {
                let t = #[trigger] doc_leaves::<i32>(q, docs).0[k];
                &&& t.0 == q
                &&& t.1 == docs[k].0@
                &&& json_int(docs[k].1) == Some(t.2 as u64)
            },
    decreases docs.len(),
{
    if docs.len() > 0 {
        let p = docs.drop_last();
        assert forall|k: int| 0 <= k < p.len() implies (json_int(#[trigger] p[k].1) matches Some(n) && n <= i32::MAX) by {
            assert(p[k] == docs[k]);
        }
        lemma_gold_doc_leaves_exact(q, p);
        let last = docs.last();
        assert(last == docs[docs.len() - 1]);
        lemma_gold_score_exact(last.1);
        let prev = doc_leaves::<i32>(q, p);
        assert forall|k: int| 0 <= k < docs.len() implies {
            let t = #[trigger] doc_leaves::<i32>(q, docs).0[k];
            &&& t.0 == q
            &&& t.1 == docs[k].0@
            &&& json_int(docs[k].1) == Some(t.2 as u64)
        } by {
            if k < p.len() {
                assert(doc_leaves::<i32>(q, docs).0[k] == prev.0[k]);
                assert(p[k] == docs[k]);
            }
        }
    }
}

/// The triples read from the members of the top object, query by query, up
/// to the first failure, and the message of that failure.
pub open spec fn query_leaves<T: JsonScore>(entries: Seq<(String, JsonValue)>) -> (Seq<Triple<T>>, Option<Seq<char>>)
    decreases entries.len(),
{
    if entries.len() == 0 {
        (Seq::empty(), None)
    } else {
        let prev = query_leaves::<T>(entries.drop_last());
        if prev.1 is Some {
            prev
        } else {
            match entries.last().1 {
                JsonValue::Object(docs) => {
                    let d = doc_leaves::<T>(entries.last().0@, docs@);
                    (prev.0 + d.0, d.1)
                },
                _ => (prev.0, Some(invalid_json_message())),
            }
        }
    }
}

/// The triples read from a JSON value, in order, up to the first failure,
/// and the message of that failure.
pub open spec fn json_leaves<T: JsonScore>(v: JsonValue) -> (Seq<Triple<T>>, Option<Seq<char>>) {
    match v {
        JsonValue::Object(entries) => query_leaves::<T>(entries@),
        _ => (Seq::empty(), Some(invalid_json_message())),
    }
}

/// The members of a JSON object, or none for another value.
pub open spec fn object_members(v: JsonValue) -> Seq<(String, JsonValue)> {
    match v {
        JsonValue::Object(es) => es@,
        _ => Seq::empty(),
    }
}

/// The triple `t` is the one that the `k`-th member of a query's object
/// gives: the query, the member's document id and the very integer given.
pub open spec fn gold_leaf(t: Triple<i32>, entry: (String, JsonValue), k: int) -> bool {
    &&& t.0 == entry.0@
    &&& t.1 == object_members(entry.1)[k].0@
    &&& json_int(object_members(entry.1)[k].1) == Some(t.2 as u64)
}

/// Every member of each query's object is a JSON integer within `i32`.
pub open spec fn gold_entries(entries: Seq<(String, JsonValue)>) -> bool {
    forall|e: int|
        0 <= e < entries.len() ==> {
            &&& (#[trigger] entries[e]).1 is Object
            &&& forall|k: int|
                0 <= k < object_members(entries[e].1).len() ==> (json_int(
                    #[trigger] object_members(entries[e].1)[k].1,
                ) matches Some(n) && n <= i32::MAX)
        }
}

/// Reading the queries' objects of gold scores fails nowhere, and each member
/// of each query's object gives its triple.
proof fn lemma_gold_query_leaves(entries: Seq<(String, JsonValue)>)
    requires
        gold_entries(entries),
    ensures
        query_leaves::<i32>(entries).1 is None,
        forall|e: int, k: int|
            #![trigger object_members(entries[e].1)[k]]
            0 <= e < entries.len() && 0 <= k < object_members(entries[e].1).len() ==> exists|i: int|
                0 <= i < query_leaves::<i32>(entries).0.len() && gold_leaf(
                    #[trigger] query_leaves::<i32>(entries).0[i],
                    entries[e],
                    k,
                ),
    decreases entries.len(),
{
    if entries.len() > 0 {
        let p = entries.drop_last();
        assert forall|e: int| 0 <= e < p.len() implies {
            &&& (#[trigger] p[e]).1 is Object
            &&& forall|k: int|
                0 <= k < object_members(p[e].1).len() ==> (json_int(
                    #[trigger] object_members(p[e].1)[k].1,
                ) matches Some(n) && n <= i32::MAX)
        } by {
            assert(p[e] == entries[e]);
        }
        lemma_gold_query_leaves(p);
        let last = entries.last();
        assert(last == entries[entries.len() - 1]);
        let docs = object_members(last.1);
        lemma_gold_doc_leaves_exact(last.0@, docs);
        let prev = query_leaves::<i32>(p);
        let d = doc_leaves::<i32>(last.0@, docs);
        let all = query_leaves::<i32>(entries);
        assert(all == (prev.0 + d.0, d.1));
        assert forall|e: int, k: int|
            #![trigger object_members(entries[e].1)[k]]
            0 <= e < entries.len() && 0 <= k < object_members(entries[e].1).len() implies exists|i: int|
                0 <= i < all.0.len() && gold_leaf(#[trigger] all.0[i], entries[e], k) by {
            if e < p.len() {
                assert(p[e] == entries[e]);
                assert(object_members(p[e].1)[k] == object_members(entries[e].1)[k]);
                let i = choose|i: int| 0 <= i < prev.0.len() && gold_leaf(#[trigger] prev.0[i], p[e], k);
                assert(all.0[i] == prev.0[i]);
            } else {
                let i = prev.0.len() + k;
                assert(docs[k] == object_members(entries[e].1)[k]);
                assert(all.0[i] == d.0[k]);
                assert(gold_leaf(all.0[i], entries[e], k));
            }
        }
    }
}

/// Qrels read from JSON in which every score is an integer within `i32`, no
/// query-document pair given twice, hold for each pair given the very
/// integer given.
pub proof fn lemma_qrels_from_json_exact(v: JsonValue, r: Result<Qrels, ElinorError>, e: int, k: int)
    requires
        qrels_from_json_result(v, r),
        v is Object,
        gold_entries(object_members(v)),
        no_dup_pairs(json_leaves::<i32>(v).0),
        0 <= e < object_members(v).len(),
        0 <= k < object_members(object_members(v)[e].1).len(),
    ensures
        r matches Ok(qrels) && {
            let q = object_members(v)[e].0@;
            let d = object_members(object_members(v)[e].1)[k].0@;
            &&& qrels@.contains_key(q)
            &&& qrels@[q].contains_key(d)
            &&& json_int(object_members(object_members(v)[e].1)[k].1) == Some(qrels@[q][d] as u64)
        },
{
    let entries = object_members(v);
    lemma_gold_query_leaves(entries);
    let ts = json_leaves::<i32>(v).0;
    assert(ts == query_leaves::<i32>(entries).0);
    assert(object_members(entries[e].1)[k] == object_members(entries[e].1)[k]);
    let i = choose|i: int| 0 <= i < ts.len() && gold_leaf(#[trigger] ts[i], entries[e], k);
    lemma_fold_value(ts);
    assert(nested_contains(fold_records(ts), ts[i].0, ts[i].1));
}

/// `r` is what reading a store from the JSON value `v` gives: the error for
/// the first query-document pair given twice among the triples read before
/// the first failure; else that failure; else a store of those triples.
pub open spec fn store_from_json_result<T: JsonScore>(v: JsonValue, r: Result<RelevanceStore<String, T>, ElinorError>) -> bool {
    let ts = json_leaves::<T>(v).0;
    let failure = json_leaves::<T>(v).1;
    if !no_dup_pairs(ts) {
        exists|j: int|
            0 <= j < ts.len() && pair_dup_at(ts, j) && (forall|jj: int| 0 <= jj < j ==> !pair_dup_at(ts, jj))
                && (r matches Err(ElinorError::DuplicateEntry(m)) && m@ == duplicate_message(ts[j].0, ts[j].1))
    } else {
        match failure {
            Some(f) => r matches Err(ElinorError::InvalidFormat(m)) && m@ == f,
            None => r matches Ok(s) && s@ == fold_records(ts),
        }
    }
}

/// `r` is what reading qrels from the JSON value `v` gives, as
/// [`store_from_json_result`] says, the qrels without a name.
pub open spec fn qrels_from_json_result(v: JsonValue, r: Result<Qrels, ElinorError>) -> bool {
    let ts = json_leaves::<i32>(v).0;
    let failure = json_leaves::<i32>(v).1;
    if !no_dup_pairs(ts) {
        exists|j: int|
            0 <= j < ts.len() && pair_dup_at(ts, j) && (forall|jj: int| 0 <= jj < j ==> !pair_dup_at(ts, jj))
                && (r matches Err(ElinorError::DuplicateEntry(m)) && m@ == duplicate_message(ts[j].0, ts[j].1))
    } else {
        match failure {
            Some(f) => r matches Err(ElinorError::InvalidFormat(m)) && m@ == f,
            None => r matches Ok(q) && q@ == fold_records(ts) && q.spec_name() is None,
        }
    }
}

/// `r` is what reading a run from the JSON value `v` gives, as
/// [`store_from_json_result`] says, each number kept as the key of its `f64`
/// value and the run without a name.
pub open spec fn run_from_json_result(v: JsonValue, r: Result<Run, ElinorError>) -> bool {
    let ts = json_leaves::<PredScore>(v).0;
    let failure = json_leaves::<PredScore>(v).1;
    if !no_dup_pairs(ts) {
        exists|j: int|
            0 <= j < ts.len() && pair_dup_at(ts, j) && (forall|jj: int| 0 <= jj < j ==> !pair_dup_at(ts, jj))
                && (r matches Err(ElinorError::DuplicateEntry(m)) && m@ == duplicate_message(ts[j].0, ts[j].1))
    } else {
        match failure {
            Some(f) => r matches Err(ElinorError::InvalidFormat(m)) && m@ == f,
            None => r matches Ok(q) && q@ == fold_records(ts) && q.spec_name() is None,
        }
    }
}

/// The records of the members of a query's object, up to the first member
/// that is no score, and the message of that failure.
fn collect_doc_leaves<T: JsonScore>(q: &String, docs: &Vec<(String, JsonValue)>, out: &mut Vec<Record<String, T>>) -> (r: Option<String>)
    ensures
        record_triples(final(out)@) == record_triples(old(out)@) + doc_leaves::<T>(q@, docs@).0,
        match doc_leaves::<T>(q@, docs@).1 {
            Some(m) => r matches Some(s) && s@ == m,
            None => r is None,
        },
{
    let ghost base = record_triples(out@);
    let mut k: usize = 0;
    while k < docs.len()
        invariant
            k <= docs@.len(),
            base == record_triples(old(out)@),
            doc_leaves::<T>(q@, docs@.take(k as int)).1 is None,
            record_triples(out@) == base + doc_leaves::<T>(q@, docs@.take(k as int)).0,
        decreases docs@.len() - k,
    {
        proof {
            assert(docs@.take(k + 1).drop_last() =~= docs@.take(k as int));
            assert(docs@.take(k + 1).last() == docs@[k as int]);
        }
        let member = &docs[k];
        match T::read(&member.1) {
            Ok(x) => {
                let ghost prev = out@;
                out.push(Record { query_id: q.clone(), doc_id: member.0.clone(), score: x });
                assert(record_triples(out@) =~= record_triples(prev).push((q@, member.0@, x)));
            },
            Err(m) => {
                proof {
                    lemma_doc_leaves_prefix_fail::<T>(q@, docs@, k as int + 1);
                }
                return Some(m);
            },
        }
        k = k + 1;
    }
    assert(docs@.take(k as int) =~= docs@);
    None
}

/// A failure within a prefix of a query's members is the failure of all of them.
proof fn lemma_doc_leaves_prefix_fail<T: JsonScore>(q: Seq<char>, docs: Seq<(String, JsonValue)>, k: int)
    requires
        0 <= k <= docs.len(),
        doc_leaves::<T>(q, docs.take(k)).1 is Some,
    ensures
        doc_leaves::<T>(q, docs) == doc_leaves::<T>(q, docs.take(k)),
    decreases docs.len() - k,
{
    if k < docs.len() {
        assert(docs.take(k + 1).drop_last() =~= docs.take(k));
        lemma_doc_leaves_prefix_fail::<T>(q, docs, k + 1);
    } else {
        assert(docs.take(k) =~= docs);
    }
}

/// A failure within a prefix of the queries is the failure of all of them.
proof fn lemma_query_leaves_prefix_fail<T: JsonScore>(entries: Seq<(String, JsonValue)>, k: int)
    requires
        0 <= k <= entries.len(),
        query_leaves::<T>(entries.take(k)).1 is Some,
    ensures
        query_leaves::<T>(entries) == query_leaves::<T>(entries.take(k)),
    decreases entries.len() - k,
{
    if k < entries.len() {
        assert(entries.take(k + 1).drop_last() =~= entries.take(k));
        lemma_query_leaves_prefix_fail::<T>(entries, k + 1);
    } else {
        assert(entries.take(k) =~= entries);
    }
}

/// The records read from a JSON value up to the first failure, and the
/// message of that failure.
fn collect_leaves<T: JsonScore>(v: &JsonValue) -> (r: (Vec<Record<String, T>>, Option<String>))
    ensures
        record_triples(r.0@) == json_leaves::<T>(*v).0,
        match json_leaves::<T>(*v).1 {
            Some(m) => r.1 matches Some(s) && s@ == m,
            None => r.1 is None,
        },
{
    let mut out: Vec<Record<String, T>> = Vec::new();
    match v {
        JsonValue::Object(entries) => {
            let mut i: usize = 0;
            while i < entries.len()
                invariant
                    i <= entries@.len(),
                    json_leaves::<T>(*v) == query_leaves::<T>(entries@),
                    query_leaves::<T>(entries@.take(i as int)).1 is None,
                    record_triples(out@) == query_leaves::<T>(entries@.take(i as int)).0,
                decreases entries@.len() - i,
            {
                proof {
                    assert(entries@.take(i + 1).drop_last() =~= entries@.take(i as int));
                    assert(entries@.take(i + 1).last() == entries@[i as int]);
                }
                let entry = &entries[i];
                match &entry.1 {
                    JsonValue::Object(docs) => {
                        let ghost before = record_triples(out@);
                        let failure = collect_doc_leaves::<T>(&entry.0, docs, &mut out);
                        proof {
                            let d = doc_leaves::<T>(entry.0@, docs@);
                            assert(query_leaves::<T>(entries@.take(i + 1)) == (before + d.0, d.1));
                        }
                        if failure.is_some() {
                            proof {
                                lemma_query_leaves_prefix_fail::<T>(entries@, i as int + 1);
                            }
                            return (out, failure);
                        }
                    },
                    _ => {
                        proof {
                            lemma_query_leaves_prefix_fail::<T>(entries@, i as int + 1);
                        }
                        return (out, Some(String::from_str("Invalid JSON format")));
                    },
                }
                i = i + 1;
            }
            assert(entries@.take(i as int) =~= entries@);
            (out, None)
        },
        _ => {
            assert(record_triples(out@) =~= Seq::<Triple<T>>::empty());
            (out, Some(String::from_str("Invalid JSON format")))
        },
    }
}

/// Reads a store from a JSON value: an object from query ids to objects from
/// document ids to scores.
fn store_from_json_value<T: JsonScore>(v: &JsonValue) -> (r: Result<RelevanceStore<String, T>, ElinorError>)
    ensures
        store_from_json_result::<T>(*v, r),
{
    let (records, failure) = collect_leaves::<T>(v);
    match RelevanceStore::from_records(records) {
        Err(e) => Err(e),
        Ok(store) => match failure {
            Some(m) => Err(ElinorError::InvalidFormat(m)),
            None => Ok(store),
        },
    }
}

/// Reads qrels from a JSON value: an object from query ids to objects from
/// document ids to non-negative integer scores within `i32`.
///
/// # Errors
///
/// * [`ElinorError::InvalidFormat`] for a value of another shape, or a
///   score out of range.
/// * [`ElinorError::DuplicateEntry`] for a query-document pair given twice.
///
/// The error is that of the first failure, members read in order.
pub fn qrels_from_json_value(v: &JsonValue) -> (r: Result<Qrels, ElinorError>)
    ensures
        qrels_from_json_result(*v, r),
{
    match store_from_json_value::<i32>(v) {
        Err(e) => Err(e),
        Ok(store) => Ok(Qrels::from_store(None, store)),
    }
}

/// Parses JSON data, an object from query ids to objects from document ids
/// to non-negative integer scores within `i32`, into qrels.
///
/// # Errors
///
/// * [`ElinorError::InvalidFormat`] for data that is no JSON, with the
///   message of the JSON error; else as [`qrels_from_json_value`].
pub fn parse_qrels_from_json(data: &str) -> (r: Result<Qrels, ElinorError>)
    ensures
        match json_parse(data@) {
            Err(n) => r matches Err(ElinorError::InvalidFormat(m)) && m@ == "Invalid JSON format: "@ + n,
            Ok(v) => qrels_from_json_result(v, r),
        },
{
    match json_from_str(data) {
        Err(e) => {
            let mut m = String::from_str("Invalid JSON format: ");
            m.append(e.as_str());
            Err(ElinorError::InvalidFormat(m))
        },
        Ok(v) => qrels_from_json_value(&v),
    }
}

/// Reads a run from a JSON value: an object from query ids to objects from
/// document ids to numbers, each number kept as the key of its `f64` value.
///
/// # Errors
///
/// * [`ElinorError::InvalidFormat`] for a value of another shape.
/// * [`ElinorError::DuplicateEntry`] for a query-document pair given twice.
///
/// The error is that of the first failure, members read in order.
pub fn run_from_json_value(v: &JsonValue) -> (r: Result<Run, ElinorError>)
    ensures
        run_from_json_result(*v, r),
{
    match store_from_json_value::<PredScore>(v) {
        Err(e) => Err(e),
        Ok(store) => Ok(Run::from_store(None, store)),
    }
}

/// Parses JSON data, an object from query ids to objects from document ids
/// to numbers, into a run: each number kept as the key of its `f64` value.
///
/// # Errors
///
/// * [`ElinorError::InvalidFormat`] for data that is no JSON, with the
///   message of the JSON error; else as [`run_from_json_value`].
pub fn parse_run_from_json(data: &str) -> (r: Result<Run, ElinorError>)
    ensures
        match json_parse(data@) {
            Err(n) => r matches Err(ElinorError::InvalidFormat(m)) && m@ == "Invalid JSON format: "@ + n,
            Ok(v) => run_from_json_result(v, r),
        },
{
    match json_from_str(data) {
        Err(e) => {
            let mut m = String::from_str("Invalid JSON format: ");
            m.append(e.as_str());
            Err(ElinorError::InvalidFormat(m))
        },
        Ok(v) => run_from_json_value(&v),
    }
}

} // verus!
