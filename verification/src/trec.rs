//! TREC format parser.
use vstd::prelude::*;
use vstd::string::*;
use crate::errors::ElinorError;
use crate::keys::chars_of;
use crate::relevance::{Triple, fold_records, nested_contains, duplicate_message, lemma_fold_contains};
use crate::text::{split_ws, vec_views, split_white_space, parse_i32_spec, parse_i32, string_from_chars};
use crate::{TrueRelStore, TrueRelStoreBuilder};

verus! {

/// Why reading lines failed: a malformed line, or a query-document pair
/// given twice; each with the message of the error.
pub enum ParseFailure {
    /// A line that does not follow the format.
    Format(Seq<char>),
    /// A query-document pair given twice.
    Duplicate(Seq<char>),
}

/// The views of strings.
pub open spec fn string_views(v: Seq<String>) -> Seq<Seq<char>> {
    v.map_values(|s: String| s@)
}

/// A gold score read from the fourth column: negative scores become 0.
pub open spec fn clamp_score(v: i32) -> u32 {
    if v < 0 {
        0
    } else {
        v as u32
    }
}

/// The triple of a Qrels line `<QueryID> <Dummy> <DocID> <Score>`, or the
/// message of the error.
pub open spec fn qrels_line(line: Seq<char>) -> Result<Triple<u32>, Seq<char>> {
    let cols = split_ws(line);
    if cols.len() < 4 {
        Err("Qrels line must have four columns at least, but got "@ + line)
    } else {
        match parse_i32_spec(cols[3]) {
            None => Err("The fourth column must be i32, but got "@ + cols[3]),
            Some(v) => Ok((cols[0], cols[2], clamp_score(v))),
        }
    }
}

/// The triples of Qrels lines read in order, or the first failure.
pub open spec fn parse_qrels_spec(lines: Seq<Seq<char>>) -> Result<Seq<Triple<u32>>, ParseFailure>
    decreases lines.len(),
{
    if lines.len() == 0 {
        Ok(Seq::empty())
    } else {
        match parse_qrels_spec(lines.drop_last()) {
            Err(f) => Err(f),
            Ok(ts) => match qrels_line(lines.last()) {
                Err(m) => Err(ParseFailure::Format(m)),
                Ok(t) => if nested_contains(fold_records(ts), t.0, t.1) {
                    Err(ParseFailure::Duplicate(duplicate_message(t.0, t.1)))
                } else {
                    Ok(ts.push(t))
                },
            },
        }
    }
}

/// Parses the Qrels data in the TREC format into a [`TrueRelStore`].
///
/// # Format
///
/// Each line should be `<QueryID> <Dummy> <DocID> <Score>`,
/// where `<Dummy>` is ignored.
///
/// # Caution
///
/// The score should be non-negative.
/// If the score is negative, it will be clamped to 0.
///
/// # Errors
///
/// * [`ElinorError::InvalidFormat`] for a line with fewer than four columns,
///   or whose fourth column is not an `i32`.
/// * [`ElinorError::DuplicateEntry`] for a query-document pair given twice.
pub fn parse_true_rels_in_trec(lines: &[String]) -> (r: Result<TrueRelStore<String>, ElinorError>)
    ensures
        match parse_qrels_spec(string_views(lines@)) {
            Ok(ts) => r matches Ok(store) && store@ == fold_records(ts),
            Err(ParseFailure::Format(m)) => r matches Err(ElinorError::InvalidFormat(e)) && e@ == m,
            Err(ParseFailure::Duplicate(m)) => r matches Err(ElinorError::DuplicateEntry(e)) && e@ == m,
        },
{
    let ghost views = string_views(lines@);
    let mut b: TrueRelStoreBuilder<String> = TrueRelStoreBuilder::new();
    let ghost mut ts: Seq<Triple<u32>> = Seq::empty();
    let n = lines.len();
    let mut i: usize = 0;
    while i < n
        invariant
            n == lines@.len(),
            views == string_views(lines@),
            i <= n,
            parse_qrels_spec(views.take(i as int)) == Ok::<Seq<Triple<u32>>, ParseFailure>(ts),
            b@ == fold_records(ts),
            b.n_records() == ts.len(),
            ts.len() <= i,
        decreases n - i,
    {
        let line = &lines[i];
        proof {
            assert(views.take(i + 1).drop_last() =~= views.take(i as int));
            assert(views.take(i + 1).last() == line@);
        }
        let chars = chars_of(line.as_str());
        let cols = split_white_space(&chars);
        if cols.len() < 4 {
            let mut msg = String::from_str("Qrels line must have four columns at least, but got ");
            msg.append(line.as_str());
            proof {
                assert(parse_qrels_spec(views.take(i + 1)) == Err::<Seq<Triple<u32>>, ParseFailure>(
                    ParseFailure::Format(msg@),
                ));
                lemma_parse_prefix_err(views, i as int + 1);
            }
            return Err(ElinorError::InvalidFormat(msg));
        }
        assert(vec_views(cols@)[3] == cols@[3]@);
        let score = match parse_i32(&cols[3]) {
            Some(v) => v,
            None => {
                let mut msg = String::from_str("The fourth column must be i32, but got ");
                let col = string_from_chars(&cols[3]);
                msg.append(col.as_str());
                proof {
                    assert(parse_qrels_spec(views.take(i + 1)) == Err::<Seq<Triple<u32>>, ParseFailure>(
                        ParseFailure::Format(msg@),
                    ));
                    lemma_parse_prefix_err(views, i as int + 1);
                }
                return Err(ElinorError::InvalidFormat(msg));
            },
        };
        let score: u32 = if score < 0 {
            0
        } else {
            score as u32
        };
        let query_id = string_from_chars(&cols[0]);
        let doc_id = string_from_chars(&cols[2]);
        assert(vec_views(cols@)[0] == cols@[0]@);
        assert(vec_views(cols@)[2] == cols@[2]@);
        let ghost t: Triple<u32> = (query_id@, doc_id@, score);
        proof {
            lemma_fold_contains(ts, query_id@, doc_id@);
        }
        match b.add_record(query_id, doc_id, score) {
            Ok(()) => {
                proof {
                    assert(fold_records(ts.push(t)) == b@) by {
                        assert(ts.push(t).drop_last() =~= ts);
                    }
                    ts = ts.push(t);
                }
            },
            Err(e) => {
                proof {
                    lemma_parse_prefix_err(views, i as int + 1);
                }
                return Err(e);
            },
        }
        i = i + 1;
    }
    proof {
        assert(views.take(n as int) =~= views);
    }
    Ok(b.build())
}

/// The columns of a Run line `<QueryID> <Dummy> <DocID> <Rank> <Score> <RunName>`
/// that are read (the query id, the document id and the text of the score),
/// or the message of the error.
pub open spec fn run_line(line: Seq<char>) -> Result<(Seq<char>, Seq<char>, Seq<char>), Seq<char>> {
    let cols = split_ws(line);
    if cols.len() < 5 {
        Err("Run line must have five columns at least, but got "@ + line)
    } else {
        Ok((cols[0], cols[2], cols[4]))
    }
}

/// Reads the query id, the document id and the text of the score of a Run
/// line in the TREC format; `<Dummy>`, `<Rank>` and `<RunName>` are ignored.
///
/// # Errors
///
/// * [`ElinorError::InvalidFormat`] for a line with fewer than five columns.
pub fn run_line_columns(line: &str) -> (r: Result<(String, String, String), ElinorError>)
    ensures
        match run_line(line@) {
            Ok(c) => r matches Ok(t) && t.0@ == c.0 && t.1@ == c.1 && t.2@ == c.2,
            Err(m) => r matches Err(ElinorError::InvalidFormat(e)) && e@ == m,
        },
{
    let chars = chars_of(line);
    let cols = split_white_space(&chars);
    if cols.len() < 5 {
        let mut msg = String::from_str("Run line must have five columns at least, but got ");
        msg.append(line);
        return Err(ElinorError::InvalidFormat(msg));
    }
    assert(vec_views(cols@)[0] == cols@[0]@);
    assert(vec_views(cols@)[2] == cols@[2]@);
    assert(vec_views(cols@)[4] == cols@[4]@);
    let query_id = string_from_chars(&cols[0]);
    let doc_id = string_from_chars(&cols[2]);
    let score = string_from_chars(&cols[4]);
    Ok((query_id, doc_id, score))
}

/// A failure on a prefix of the lines is the failure of all of them.
proof fn lemma_parse_prefix_err(lines: Seq<Seq<char>>, k: int)
    requires
        0 <= k <= lines.len(),
        parse_qrels_spec(lines.take(k)) is Err,
    ensures
        parse_qrels_spec(lines) == parse_qrels_spec(lines.take(k)),
    decreases lines.len() - k,
{
    if k < lines.len() {
        assert(lines.take(k + 1).drop_last() =~= lines.take(k));
        lemma_parse_prefix_err(lines, k + 1);
    } else {
        assert(lines.take(k) =~= lines);
    }
}

} // verus!
