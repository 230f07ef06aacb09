//! Metrics for evaluating information retrieval systems, and their names.
use vstd::prelude::*;
use vstd::string::*;
use crate::errors::ElinorError;
use crate::keys::chars_of;
use crate::text::{all_digits, digits_value, is_digit, digit_value, string_from_chars};

verus! {

/// Metrics for evaluating information retrieval systems.
///
/// # Arguments
///
/// * `k` - Number of top documents to consider. if `k` is set to 0, all documents are considered.
///
/// # Conversion from/into string
///
/// [`Metric::parse_metric`] (and `str::parse`) reads a metric from its name,
/// optionally followed by `@k`; [`Metric::to_string`] writes it back.
///
/// | Metric | String |
/// | ------ | ------ |
/// | [`Metric::Hits`] | `hits` |
/// | [`Metric::Success`] | `success` |
/// | [`Metric::Precision`] | `precision` |
/// | [`Metric::Recall`] | `recall` |
/// | [`Metric::F1`] | `f1` |
/// | [`Metric::AP`] | `ap` |
/// | [`Metric::RR`] | `rr` |
/// | [`Metric::DCG`] | `dcg` |
/// | [`Metric::NDCG`] | `ndcg` |
/// | [`Metric::DCGBurges`] | `dcg_burges` |
/// | [`Metric::NDCGBurges`] | `ndcg_burges` |
#[derive(Debug, Clone, Copy, PartialEq, Eq, Hash, Structural)]
pub enum Metric {
    /// Number of relevant documents retrieved.
    Hits {
        /// Cut-off.
        k: usize,
    },
    /// Whether at least one relevant document is retrieved.
    Success {
        /// Cut-off.
        k: usize,
    },
    /// Proportion of the retrieved documents that are relevant.
    Precision {
        /// Cut-off.
        k: usize,
    },
    /// Proportion of the relevant documents that are retrieved.
    Recall {
        /// Cut-off.
        k: usize,
    },
    /// Harmonic mean of precision and recall.
    F1 {
        /// Cut-off.
        k: usize,
    },
    /// Average of the precisions at the ranks of the relevant documents.
    AP {
        /// Cut-off.
        k: usize,
    },
    /// Multiplicative inverse of the rank of the first relevant document.
    RR {
        /// Cut-off.
        k: usize,
    },
    /// Discounted cumulative gain (Järvelin et al.).
    DCG {
        /// Cut-off.
        k: usize,
    },
    /// Normalized DCG (Järvelin et al.).
    NDCG {
        /// Cut-off.
        k: usize,
    },
    /// Discounted cumulative gain (Burges et al.).
    DCGBurges {
        /// Cut-off.
        k: usize,
    },
    /// Normalized DCG (Burges et al.).
    NDCGBurges {
        /// Cut-off.
        k: usize,
    },
}

/// The name of a metric.
pub open spec fn metric_name(m: Metric) -> Seq<char> {
    match m {
        Metric::Hits { .. } => "hits"@,
        Metric::Success { .. } => "success"@,
        Metric::Precision { .. } => "precision"@,
        Metric::Recall { .. } => "recall"@,
        Metric::F1 { .. } => "f1"@,
        Metric::AP { .. } => "ap"@,
        Metric::RR { .. } => "rr"@,
        Metric::DCG { .. } => "dcg"@,
        Metric::NDCG { .. } => "ndcg"@,
        Metric::DCGBurges { .. } => "dcg_burges"@,
        Metric::NDCGBurges { .. } => "ndcg_burges"@,
    }
}

/// The cut-off of a metric.
pub open spec fn metric_k(m: Metric) -> usize {
    match m {
        Metric::Hits { k } => k,
        Metric::Success { k } => k,
        Metric::Precision { k } => k,
        Metric::Recall { k } => k,
        Metric::F1 { k } => k,
        Metric::AP { k } => k,
        Metric::RR { k } => k,
        Metric::DCG { k } => k,
        Metric::NDCG { k } => k,
        Metric::DCGBurges { k } => k,
        Metric::NDCGBurges { k } => k,
    }
}

/// The metric of a name and a cut-off, if the name is one.
pub open spec fn metric_with(name: Seq<char>, k: usize) -> Option<Metric> {
    if name == "hits"@ {
        Some(Metric::Hits { k })
    } else if name == "success"@ {
        Some(Metric::Success { k })
    } else if name == "precision"@ {
        Some(Metric::Precision { k })
    } else if name == "recall"@ {
        Some(Metric::Recall { k })
    } else if name == "f1"@ {
        Some(Metric::F1 { k })
    } else if name == "ap"@ {
        Some(Metric::AP { k })
    } else if name == "rr"@ {
        Some(Metric::RR { k })
    } else if name == "dcg"@ {
        Some(Metric::DCG { k })
    } else if name == "ndcg"@ {
        Some(Metric::NDCG { k })
    } else if name == "dcg_burges"@ {
        Some(Metric::DCGBurges { k })
    } else if name == "ndcg_burges"@ {
        Some(Metric::NDCGBurges { k })
    } else {
        None
    }
}

/// The decimal digit character of `d`.
pub open spec fn digit_char(d: nat) -> char {
    if d == 0 {
        '0'
    } else if d == 1 {
        '1'
    } else if d == 2 {
        '2'
    } else if d == 3 {
        '3'
    } else if d == 4 {
        '4'
    } else if d == 5 {
        '5'
    } else if d == 6 {
        '6'
    } else if d == 7 {
        '7'
    } else if d == 8 {
        '8'
    } else {
        '9'
    }
}

/// The decimal representation of `n`, without leading zeros.
pub open spec fn decimal(n: nat) -> Seq<char>
    decreases n,
{
    if n < 10 {
        seq![digit_char(n)]
    } else {
        decimal(n / 10).push(digit_char(n % 10))
    }
}

/// The decimal representation of `n` reads back as `n`.
pub proof fn lemma_decimal(n: nat)
    ensures
        all_digits(decimal(n)),
        digits_value(decimal(n)) == n,
        !decimal(n).contains('@'),
    decreases n,
{
    if n >= 10 {
        lemma_decimal(n / 10);
        let d = decimal(n);
        assert(d.drop_last() =~= decimal(n / 10));
        assert forall|i: int| 0 <= i < d.len() implies is_digit(#[trigger] d[i]) by {
            if i < d.len() - 1 {
                assert(d[i] == decimal(n / 10)[i]);
            }
        }
        assert(digit_value(digit_char((n % 10) as nat)) == n % 10);
        assert(d.last() == digit_char((n % 10) as nat));
        assert((n / 10) * 10 + n % 10 == n) by (nonlinear_arith);
        assert(digits_value(d) == digits_value(d.drop_last()) * 10 + digit_value(d.last()));
        assert(!decimal(n).contains('@')) by {
            if decimal(n).contains('@') {
                let i = choose|i: int| 0 <= i < d.len() && d[i] == '@';
                assert(is_digit(d[i]));
            }
        }
    } else {
        let d = decimal(n);
        assert(d.drop_last() =~= Seq::<char>::empty());
        assert(is_digit(d[0]));
        assert(digit_value(digit_char(n)) == n);
        assert(digits_value(d) == digits_value(d.drop_last()) * 10 + digit_value(d.last()));
        assert(!decimal(n).contains('@')) by {
            if decimal(n).contains('@') {
                let i = choose|i: int| 0 <= i < d.len() && d[i] == '@';
                assert(d[i] == d[0]);
            }
        }
    }
}

/// The text of a metric: its name, followed by `@k` when `k` is not 0.
pub open spec fn format_metric_spec(name: Seq<char>, k: usize) -> Seq<char> {
    if k == 0 {
        name
    } else {
        name + seq!['@'] + decimal(k as nat)
    }
}

/// The index of the first `@`, or the length if there is none.
pub open spec fn first_at(s: Seq<char>) -> int
    decreases s.len(),
{
    if s.len() == 0 {
        0
    } else if s[0] == '@' {
        0
    } else {
        1 + first_at(s.drop_first())
    }
}

/// `first_at` is the first `@`.
proof fn lemma_first_at(s: Seq<char>)
    ensures
        0 <= first_at(s) <= s.len(),
        forall|i: int| 0 <= i < first_at(s) ==> s[i] != '@',
        first_at(s) < s.len() ==> s[first_at(s)] == '@',
    decreases s.len(),
{
    if s.len() > 0 && s[0] != '@' {
        lemma_first_at(s.drop_first());
        assert forall|i: int| 0 <= i < first_at(s) implies s[i] != '@' by {
            if i > 0 {
                assert(s[i] == s.drop_first()[i - 1]);
            }
        }
    }
}

/// The metric that a text names: a metric name, optionally followed by `@`
/// and a decimal cut-off that fits in `usize`.
pub open spec fn parse_metric_spec(s: Seq<char>) -> Option<Metric> {
    let at = first_at(s);
    if at == s.len() {
        metric_with(s, 0)
    } else {
        let digits = s.skip(at + 1);
        if all_digits(digits) && digits_value(digits) <= usize::MAX {
            metric_with(s.take(at), digits_value(digits) as usize)
        } else {
            None
        }
    }
}

/// The decimal digit character of `d`.
fn digit_to_char(d: usize) -> (c: char)
    requires
        d < 10,
    ensures
        c == digit_char(d as nat),
{
    match d {
        0 => '0',
        1 => '1',
        2 => '2',
        3 => '3',
        4 => '4',
        5 => '5',
        6 => '6',
        7 => '7',
        8 => '8',
        _ => '9',
    }
}

/// Appends the decimal representation of `n`.
pub fn push_decimal(n: usize, v: &mut Vec<char>)
    ensures
        final(v)@ == old(v)@ + decimal(n as nat),
    decreases n,
{
    if n >= 10 {
        push_decimal(n / 10, v);
    }
    let c = digit_to_char(n % 10);
    v.push(c);
    proof {
        if n >= 10 {
            assert(final(v)@ =~= old(v)@ + decimal(n as nat));
        } else {
            assert(final(v)@ =~= old(v)@ + decimal(n as nat));
        }
    }
}

/// The decimal representation of `n` as a string.
pub fn usize_to_string(n: usize) -> (r: String)
    ensures
        r@ == decimal(n as nat),
{
    let mut v: Vec<char> = Vec::new();
    push_decimal(n, &mut v);
    assert(v@ =~= decimal(n as nat));
    string_from_chars(&v)
}

/// Whether the first `len` characters of `v` are exactly `lit`.
fn prefix_is(v: &Vec<char>, len: usize, lit: &str) -> (r: bool)
    requires
        len <= v@.len(),
    ensures
        r == (v@.take(len as int) == lit@),
{
    let w = chars_of(lit);
    if w.len() != len {
        return false;
    }
    let mut i: usize = 0;
    while i < len
        invariant
            i <= len,
            len <= v@.len(),
            w@.len() == len,
            w@ == lit@,
            forall|j: int| 0 <= j < i ==> v@[j] == w@[j],
        decreases len - i,
    {
        if v[i] != w[i] {
            assert(v@.take(len as int)[i as int] != lit@[i as int]);
            return false;
        }
        i = i + 1;
    }
    assert(v@.take(len as int) =~= lit@);
    true
}

/// Reads a decimal `usize` from the characters of `v` from `from` on.
fn parse_usize_from(v: &Vec<char>, from: usize) -> (r: Option<usize>)
    requires
        from <= v@.len(),
    ensures
        r == (if all_digits(v@.skip(from as int)) && digits_value(v@.skip(from as int)) <= usize::MAX {
            Some(digits_value(v@.skip(from as int)) as usize)
        } else {
            None
        }),
{
    let ghost body = v@.skip(from as int);
    let n = v.len();
    if from >= n {
        return None;
    }
    let mut acc: usize = 0;
    let mut i: usize = from;
    while i < n
        invariant
            n == v@.len(),
            from <= i <= n,
            body == v@.skip(from as int),
            forall|j: int| 0 <= j < i - from ==> is_digit(#[trigger] body[j]),
            acc == digits_value(body.take(i - from)),
        decreases n - i,
    {
        let c = v[i];
        proof {
            assert(body[i - from] == c);
            assert(body.take(i - from + 1).drop_last() =~= body.take(i - from));
        }
        if !('0' <= c && c <= '9') {
            proof {
                assert(!is_digit(body[i - from]));
                assert(!all_digits(body));
            }
            return None;
        }
        let d = (c as u32 - '0' as u32) as usize;
        if acc > (usize::MAX - d) / 10 {
            proof {
                assert(acc * 10 + d > usize::MAX) by (nonlinear_arith)
                    requires
                        acc > (usize::MAX - d) / 10,
                        d <= 9,
                ;
                assert forall|j: int| 0 <= j < i - from + 1 implies is_digit(#[trigger] body[j]) by {}
                if all_digits(body) {
                    lemma_digits_grow(body, i - from + 1);
                }
            }
            return None;
        }
        acc = acc * 10 + d;
        i = i + 1;
    }
    proof {
        assert(body.take(n - from) =~= body);
    }
    Some(acc)
}

/// A longer run of digits has a value at least as large.
proof fn lemma_digits_grow(s: Seq<char>, k: int)
    requires
        0 <= k <= s.len(),
        forall|i: int| 0 <= i < s.len() ==> is_digit(#[trigger] s[i]),
    ensures
        digits_value(s.take(k)) <= digits_value(s),
    decreases s.len() - k,
{
    if k < s.len() {
        lemma_digits_grow(s, k + 1);
        assert(s.take(k + 1).drop_last() =~= s.take(k));
        assert(is_digit(s[k]));
        lemma_digits_nonneg(s.take(k));
    } else {
        assert(s.take(k) =~= s);
    }
}

/// The value of digits is not negative.
proof fn lemma_digits_nonneg(s: Seq<char>)
    requires
        forall|i: int| 0 <= i < s.len() ==> is_digit(#[trigger] s[i]),
    ensures
        0 <= digits_value(s),
    decreases s.len(),
{
    if s.len() > 0 {
        lemma_digits_nonneg(s.drop_last());
        assert(is_digit(s[s.len() - 1]));
    }
}

impl Metric {
    /// Reads a metric from its text: a metric name, optionally followed by
    /// `@k` for a decimal cut-off `k`.
    ///
    /// # Errors
    ///
    /// * [`ElinorError::InvalidFormat`] with the text, if it names no metric.
    pub fn parse_metric(s: &str) -> (r: Result<Metric, ElinorError>)
        ensures
            match parse_metric_spec(s@) {
                Some(m) => r == Ok::<Metric, ElinorError>(m),
                None => r matches Err(ElinorError::InvalidFormat(e)) && e@ == s@,
            },
    {
        let v = chars_of(s);
        let n = v.len();
        let mut at: usize = 0;
        while at < n && v[at] != '@'
            invariant
                at <= n,
                n == v@.len(),
                forall|i: int| 0 <= i < at ==> v@[i] != '@',
            decreases n - at,
        {
            at = at + 1;
        }
        proof {
            lemma_first_at(v@);
            if first_at(v@) < at {
                assert(v@[first_at(v@)] == '@');
            }
            if at < first_at(v@) {
                assert(v@[at as int] == '@');
            }
            assert(at == first_at(v@));
        }
        let k: usize;
        if at == n {
            k = 0;
            assert(v@.take(n as int) =~= v@);
        } else {
            match parse_usize_from(&v, at + 1) {
                Some(x) => {
                    k = x;
                },
                None => {
                    return Err(ElinorError::InvalidFormat(String::from_str(s)));
                },
            }
        }
        let m = if prefix_is(&v, at, "hits") {
            Metric::Hits { k }
        } else if prefix_is(&v, at, "success") {
            Metric::Success { k }
        } else if prefix_is(&v, at, "precision") {
            Metric::Precision { k }
        } else if prefix_is(&v, at, "recall") {
            Metric::Recall { k }
        } else if prefix_is(&v, at, "f1") {
            Metric::F1 { k }
        } else if prefix_is(&v, at, "ap") {
            Metric::AP { k }
        } else if prefix_is(&v, at, "rr") {
            Metric::RR { k }
        } else if prefix_is(&v, at, "dcg") {
            Metric::DCG { k }
        } else if prefix_is(&v, at, "ndcg") {
            Metric::NDCG { k }
        } else if prefix_is(&v, at, "dcg_burges") {
            Metric::DCGBurges { k }
        } else if prefix_is(&v, at, "ndcg_burges") {
            Metric::NDCGBurges { k }
        } else {
            return Err(ElinorError::InvalidFormat(String::from_str(s)));
        };
        Ok(m)
    }

    /// The cut-off of the metric.
    pub fn k(&self) -> (r: usize)
        ensures
            r == metric_k(*self),
    {
        match *self {
            Metric::Hits { k } => k,
            Metric::Success { k } => k,
            Metric::Precision { k } => k,
            Metric::Recall { k } => k,
            Metric::F1 { k } => k,
            Metric::AP { k } => k,
            Metric::RR { k } => k,
            Metric::DCG { k } => k,
            Metric::NDCG { k } => k,
            Metric::DCGBurges { k } => k,
            Metric::NDCGBurges { k } => k,
        }
    }

    /// The name of the metric.
    pub fn name(&self) -> (r: &'static str)
        ensures
            r@ == metric_name(*self),
    {
        match *self {
            Metric::Hits { .. } => "hits",
            Metric::Success { .. } => "success",
            Metric::Precision { .. } => "precision",
            Metric::Recall { .. } => "recall",
            Metric::F1 { .. } => "f1",
            Metric::AP { .. } => "ap",
            Metric::RR { .. } => "rr",
            Metric::DCG { .. } => "dcg",
            Metric::NDCG { .. } => "ndcg",
            Metric::DCGBurges { .. } => "dcg_burges",
            Metric::NDCGBurges { .. } => "ndcg_burges",
        }
    }

    /// The text of the metric: its name, followed by `@k` when `k` is not 0.
    pub fn to_string(&self) -> (r: String)
        ensures
            r@ == format_metric_spec(metric_name(*self), metric_k(*self)),
    {
        format_metric(self.name(), self.k())
    }
}

/// Formats a metric name with its cut-off: `name` when `k` is 0, else `name@k`.
pub fn format_metric(name: &str, k: usize) -> (r: String)
    ensures
        r@ == format_metric_spec(name@, k),
{
    let mut s = String::from_str(name);
    if k != 0 {
        let mut v: Vec<char> = Vec::new();
        v.push('@');
        push_decimal(k, &mut v);
        let tail = string_from_chars(&v);
        s.append(tail.as_str());
        assert(s@ =~= format_metric_spec(name@, k));
    }
    s
}

impl core::str::FromStr for Metric {
    type Err = ElinorError;

    fn from_str(s: &str) -> (r: Result<Self, Self::Err>)
        ensures
            match parse_metric_spec(s@) {
                Some(m) => r == Ok::<Metric, ElinorError>(m),
                None => r matches Err(ElinorError::InvalidFormat(e)) && e@ == s@,
            },
    {
        Metric::parse_metric(s)
    }
}

/// The metrics in order, each kept at its first occurrence.
pub open spec fn first_occurrences(s: Seq<Metric>) -> Seq<Metric>
    decreases s.len(),
{
    if s.len() == 0 {
        Seq::empty()
    } else {
        let d = first_occurrences(s.drop_last());
        if d.contains(s.last()) {
            d
        } else {
            d.push(s.last())
        }
    }
}

/// `x` occurs in `s` before any occurrence of `y`.
pub open spec fn occurs_before(s: Seq<Metric>, x: Metric, y: Metric) -> bool {
    exists|a: int| 0 <= a < s.len() && s[a] == x && forall|t: int| 0 <= t <= a ==> s[t] != y
}

/// Keeping each metric at its first occurrence drops no metric and repeats
/// none: the result holds exactly the metrics of `s`, each once, and of two
/// of them the earlier one occurs in `s` before any occurrence of the later.
pub proof fn lemma_first_occurrences(s: Seq<Metric>)
    ensures
        first_occurrences(s).no_duplicates(),
        forall|m: Metric| #[trigger] first_occurrences(s).contains(m) <==> s.contains(m),
        forall|i: int, j: int|
            0 <= i < j < first_occurrences(s).len() ==> occurs_before(
                s,
                #[trigger] first_occurrences(s)[i],
                #[trigger] first_occurrences(s)[j],
            ),
    decreases s.len(),
{
    if s.len() > 0 {
        let p = s.drop_last();
        let x = s.last();
        let d = first_occurrences(p);
        lemma_first_occurrences(p);
        assert forall|m: Metric| #[trigger] s.contains(m) <==> (p.contains(m) || m == x) by {
            if s.contains(m) {
                let k = choose|k: int| 0 <= k < s.len() && s[k] == m;
                if k < s.len() - 1 {
                    assert(p[k] == m);
                }
            }
            if p.contains(m) {
                let k = choose|k: int| 0 <= k < p.len() && p[k] == m;
                assert(s[k] == m);
            }
            if m == x {
                assert(s[s.len() - 1] == m);
            }
        }
        // An occurrence in `p` before any of `y` is one in `s`.
        assert forall|a: Metric, b: Metric| occurs_before(p, a, b) implies #[trigger] occurs_before(s, a, b) by {
            let k = choose|k: int| 0 <= k < p.len() && p[k] == a && forall|t: int| 0 <= t <= k ==> p[t] != b;
            assert forall|t: int| 0 <= t <= k implies s[t] != b by {
                assert(s[t] == p[t]);
            }
            assert(s[k] == a);
        }
        let r = first_occurrences(s);
        if d.contains(x) {
            assert(r == d);
            assert forall|i: int, j: int| 0 <= i < j < r.len() implies occurs_before(s, #[trigger] r[i], #[trigger] r[j]) by {
                assert(occurs_before(p, d[i], d[j]));
            }
        } else {
            assert(r == d.push(x));
            assert(!p.contains(x));
            assert forall|m: Metric| #[trigger] r.contains(m) <==> (d.contains(m) || m == x) by {
                if r.contains(m) {
                    let k = choose|k: int| 0 <= k < r.len() && r[k] == m;
                    if k < d.len() {
                        assert(d[k] == m);
                    }
                }
                if d.contains(m) {
                    let k = choose|k: int| 0 <= k < d.len() && d[k] == m;
                    assert(r[k] == m);
                }
                if m == x {
                    assert(r[d.len() as int] == m);
                }
            }
            assert forall|i: int, j: int| 0 <= i < j < r.len() implies occurs_before(s, #[trigger] r[i], #[trigger] r[j]) by {
                if j < d.len() {
                    assert(r[i] == d[i] && r[j] == d[j]);
                    assert(occurs_before(p, d[i], d[j]));
                } else {
                    assert(r[j] == x);
                    assert(r[i] == d[i]);
                    assert(d.contains(d[i]));
                    assert(p.contains(d[i]));
                    let a = choose|a: int| 0 <= a < p.len() && p[a] == d[i];
                    assert forall|t: int| 0 <= t <= a implies s[t] != r[j] by {
                        assert(s[t] == p[t]);
                        if s[t] == x {
                            assert(p.contains(x));
                        }
                    }
                    assert(s[a] == r[i]);
                }
            }
            assert forall|i: int, j: int| 0 <= i < r.len() && 0 <= j < r.len() && i != j implies r[i] != r[j] by {
                if i < d.len() && j < d.len() {
                    assert(r[i] == d[i] && r[j] == d[j]);
                } else if i < d.len() {
                    assert(r[i] == d[i]);
                    assert(d.contains(d[i]));
                } else {
                    assert(r[j] == d[j]);
                    assert(d.contains(d[j]));
                }
            }
        }
    }
}

/// The metrics that texts name, in order, or the position of the first text
/// that names none.
pub open spec fn parse_all_spec(texts: Seq<Seq<char>>) -> Result<Seq<Metric>, int>
    decreases texts.len(),
{
    if texts.len() == 0 {
        Ok(Seq::empty())
    } else {
        match parse_all_spec(texts.drop_last()) {
            Err(i) => Err(i),
            Ok(ms) => match parse_metric_spec(texts.last()) {
                Some(m) => Ok(ms.push(m)),
                None => Err(texts.len() - 1),
            },
        }
    }
}

/// Whether a metric is among those of a vector.
fn contains_metric(v: &Vec<Metric>, m: Metric) -> (r: bool)
    ensures
        r == v@.contains(m),
{
    let mut j: usize = 0;
    while j < v.len()
        invariant
            j <= v@.len(),
            forall|t: int| 0 <= t < j ==> v@[t] != m,
        decreases v@.len() - j,
    {
        if v[j] == m {
            return true;
        }
        j = j + 1;
    }
    false
}

/// Parses metrics from their texts, keeping each metric once, at its first
/// occurrence.
///
/// # Errors
///
/// * [`ElinorError::InvalidFormat`] with the first text that names no metric.
pub fn parse_metrics(metrics: &[String]) -> (r: Result<Vec<Metric>, ElinorError>)
    ensures
        match parse_all_spec(metrics@.map_values(|t: String| t@)) {
            Ok(ms) => r matches Ok(v) && v@ == first_occurrences(ms),
            Err(i) => 0 <= i < metrics@.len() && (r matches Err(ElinorError::InvalidFormat(e))
                && e@ == metrics@[i]@),
        },
        r matches Ok(v) ==> {
            &&& parse_all_spec(metrics@.map_values(|t: String| t@)) matches Ok(ms)
            &&& v@.no_duplicates()
            &&& forall|m: Metric| #[trigger] v@.contains(m) <==> ms.contains(m)
            &&& forall|i: int, j: int| 0 <= i < j < v@.len() ==> occurs_before(ms, #[trigger] v@[i], #[trigger] v@[j])
        },
{
    let ghost texts = metrics@.map_values(|t: String| t@);
    let ghost mut ms: Seq<Metric> = Seq::empty();
    let mut out: Vec<Metric> = Vec::new();
    let n = metrics.len();
    let mut i: usize = 0;
    while i < n
        invariant
            n == metrics@.len(),
            texts == metrics@.map_values(|t: String| t@),
            i <= n,
            parse_all_spec(texts.take(i as int)) == Ok::<Seq<Metric>, int>(ms),
            out@ == first_occurrences(ms),
        decreases n - i,
    {
        proof {
            assert(texts.take(i + 1).drop_last() =~= texts.take(i as int));
            assert(texts.take(i + 1).last() == metrics@[i as int]@);
        }
        match Metric::parse_metric(metrics[i].as_str()) {
            Ok(m) => {
                if !contains_metric(&out, m) {
                    out.push(m);
                }
                proof {
                    assert(ms.push(m).drop_last() =~= ms);
                    ms = ms.push(m);
                }
            },
            Err(e) => {
                proof {
                    lemma_parse_all_prefix_err(texts, i as int + 1);
                }
                return Err(e);
            },
        }
        i = i + 1;
    }
    proof {
        assert(texts.take(n as int) =~= texts);
        lemma_first_occurrences(ms);
    }
    Ok(out)
}

/// A failure on a prefix of the texts is the failure of all of them.
proof fn lemma_parse_all_prefix_err(texts: Seq<Seq<char>>, k: int)
    requires
        0 <= k <= texts.len(),
        parse_all_spec(texts.take(k)) is Err,
    ensures
        parse_all_spec(texts) == parse_all_spec(texts.take(k)),
        parse_all_spec(texts) matches Err(i) ==> 0 <= i < k,
    decreases texts.len() - k,
{
    if k < texts.len() {
        assert(texts.take(k + 1).drop_last() =~= texts.take(k));
        lemma_parse_all_prefix_err(texts, k + 1);
    } else {
        assert(texts.take(k) =~= texts);
    }
    lemma_parse_all_err_bound(texts.take(k));
}

/// The position of a failure is that of one of the texts.
proof fn lemma_parse_all_err_bound(texts: Seq<Seq<char>>)
    ensures
        parse_all_spec(texts) matches Err(i) ==> 0 <= i < texts.len(),
    decreases texts.len(),
{
    if texts.len() > 0 {
        lemma_parse_all_err_bound(texts.drop_last());
    }
}

/// The views of a list of names.
pub open spec fn name_views(v: Seq<String>) -> Seq<Seq<char>> {
    v.map_values(|t: String| t@)
}

/// The names of `first`, in order, that each list of `others` also holds.
pub open spec fn common_names(first: Seq<Seq<char>>, others: Seq<Seq<Seq<char>>>) -> Seq<Seq<char>>
    decreases first.len(),
{
    if first.len() == 0 {
        Seq::empty()
    } else {
        let prev = common_names(first.drop_last(), others);
        if forall|j: int| 0 <= j < others.len() ==> (#[trigger] others[j]).contains(first.last()) {
            prev.push(first.last())
        } else {
            prev
        }
    }
}

/// A name is common exactly when the first list holds it and so does every
/// other list.
pub proof fn lemma_common_names(first: Seq<Seq<char>>, others: Seq<Seq<Seq<char>>>)
    ensures
        forall|x: Seq<char>|
            #[trigger] common_names(first, others).contains(x) <==> (first.contains(x) && forall|j: int|
                0 <= j < others.len() ==> (#[trigger] others[j]).contains(x)),
        common_names(first, others).len() <= first.len(),
    decreases first.len(),
{
    if first.len() > 0 {
        let p = first.drop_last();
        let y = first.last();
        lemma_common_names(p, others);
        let prev = common_names(p, others);
        let r = common_names(first, others);
        assert forall|x: Seq<char>| first.contains(x) <==> (p.contains(x) || x == y) by {
            if first.contains(x) {
                let k = choose|k: int| 0 <= k < first.len() && first[k] == x;
                if k < first.len() - 1 {
                    assert(p[k] == x);
                }
            }
            if p.contains(x) {
                let k = choose|k: int| 0 <= k < p.len() && p[k] == x;
                assert(first[k] == x);
            }
            if x == y {
                assert(first[first.len() - 1] == x);
            }
        }
        if forall|j: int| 0 <= j < others.len() ==> (#[trigger] others[j]).contains(y) {
            assert(r == prev.push(y));
            assert forall|x: Seq<char>| r.contains(x) <==> (prev.contains(x) || x == y) by {
                if r.contains(x) {
                    let k = choose|k: int| 0 <= k < r.len() && r[k] == x;
                    if k < prev.len() {
                        assert(prev[k] == x);
                    }
                }
                if prev.contains(x) {
                    let k = choose|k: int| 0 <= k < prev.len() && prev[k] == x;
                    assert(r[k] == x);
                }
                if x == y {
                    assert(r[prev.len() as int] == x);
                }
            }
        } else {
            assert(r == prev);
        }
    }
}

/// Whether a list of names holds a name.
fn contains_name(list: &Vec<String>, name: &String) -> (r: bool)
    ensures
        r == name_views(list@).contains(name@),
{
    let mut j: usize = 0;
    while j < list.len()
        invariant
            j <= list@.len(),
            forall|t: int| 0 <= t < j ==> list@[t]@ != name@,
        decreases list@.len() - j,
    {
        if list[j] == *name {
            assert(name_views(list@)[j as int] == name@);
            return true;
        }
        j = j + 1;
    }
    proof {
        if name_views(list@).contains(name@) {
            let t = choose|t: int| 0 <= t < name_views(list@).len() && name_views(list@)[t] == name@;
            assert(list@[t]@ == name@);
        }
    }
    false
}

/// The metric names of the first list that every other list also holds, in
/// the order of the first list.
pub fn common_metrics(names: &[Vec<String>]) -> (r: Vec<String>)
    requires
        names@.len() > 0,
    ensures
        name_views(r@) == common_names(
            name_views(names@[0]@),
            names@.drop_first().map_values(|v: Vec<String>| name_views(v@)),
        ),
        forall|x: Seq<char>|
            #[trigger] name_views(r@).contains(x) <==> (name_views(names@[0]@).contains(x)
                && forall|j: int| 1 <= j < names@.len() ==> #[trigger] name_views(names@[j]@).contains(x)),
{
    let ghost others = names@.drop_first().map_values(|v: Vec<String>| name_views(v@));
    let ghost first = name_views(names@[0]@);
    let first_list = &names[0];
    let mut out: Vec<String> = Vec::new();
    let mut i: usize = 0;
    while i < first_list.len()
        invariant
            names@.len() > 0,
            *first_list == names@[0],
            first == name_views(first_list@),
            others == names@.drop_first().map_values(|v: Vec<String>| name_views(v@)),
            i <= first_list@.len(),
            name_views(out@) == common_names(first.take(i as int), others),
        decreases first_list@.len() - i,
    {
        let name = &first_list[i];
        let mut in_all = true;
        let mut j: usize = 1;
        while j < names.len()
            invariant
                names@.len() > 0,
                1 <= j <= names@.len(),
                others == names@.drop_first().map_values(|v: Vec<String>| name_views(v@)),
                in_all <==> forall|t: int| 0 <= t < j - 1 ==> (#[trigger] others[t]).contains(name@),
            decreases names@.len() - j,
        {
            if !contains_name(&names[j], name) {
                in_all = false;
            }
            assert(others[j - 1] == name_views(names@[j as int]@));
            j = j + 1;
        }
        proof {
            assert(first.take(i + 1).drop_last() =~= first.take(i as int));
            assert(first.take(i + 1).last() == name@);
        }
        if in_all {
            let ghost prev = out@;
            out.push(name.clone());
            assert(name_views(out@) =~= name_views(prev).push(name@));
        }
        i = i + 1;
    }
    assert(first.take(i as int) =~= first);
    proof {
        lemma_common_names(first, others);
        assert forall|x: Seq<char>| #[trigger] name_views(out@).contains(x) <==> (first.contains(x)
            && forall|j: int| 1 <= j < names@.len() ==> #[trigger] name_views(names@[j]@).contains(x)) by {
            if forall|j: int| 1 <= j < names@.len() ==> #[trigger] name_views(names@[j]@).contains(x) {
                assert forall|t: int| 0 <= t < others.len() implies (#[trigger] others[t]).contains(x) by {
                    assert(others[t] == name_views(names@[t + 1]@));
                }
            }
            if forall|t: int| 0 <= t < others.len() ==> (#[trigger] others[t]).contains(x) {
                assert forall|j: int| 1 <= j < names@.len() implies #[trigger] name_views(names@[j]@).contains(x) by {
                    assert(others[j - 1] == name_views(names@[j]@));
                }
            }
        }
    }
    out
}

/// The metrics that are evaluated when none is named.
pub fn default_metrics() -> (r: Vec<Metric>)
    ensures
        r@ == seq![
            Metric::Success { k: 1 }, Metric::Success { k: 5 }, Metric::Success { k: 10 },
            Metric::Recall { k: 5 }, Metric::Recall { k: 10 }, Metric::Recall { k: 15 }, Metric::Recall { k: 20 },
            Metric::Precision { k: 5 }, Metric::Precision { k: 10 }, Metric::Precision { k: 15 }, Metric::Precision { k: 20 },
            Metric::AP { k: 5 }, Metric::AP { k: 10 }, Metric::AP { k: 15 }, Metric::AP { k: 20 },
            Metric::NDCG { k: 5 }, Metric::NDCG { k: 10 }, Metric::NDCG { k: 15 }, Metric::NDCG { k: 20 },
            Metric::RR { k: 0 },
        ],
{
    let mut v: Vec<Metric> = Vec::new();
    v.push(Metric::Success { k: 1 });
    v.push(Metric::Success { k: 5 });
    v.push(Metric::Success { k: 10 });
    v.push(Metric::Recall { k: 5 });
    v.push(Metric::Recall { k: 10 });
    v.push(Metric::Recall { k: 15 });
    v.push(Metric::Recall { k: 20 });
    v.push(Metric::Precision { k: 5 });
    v.push(Metric::Precision { k: 10 });
    v.push(Metric::Precision { k: 15 });
    v.push(Metric::Precision { k: 20 });
    v.push(Metric::AP { k: 5 });
    v.push(Metric::AP { k: 10 });
    v.push(Metric::AP { k: 15 });
    v.push(Metric::AP { k: 20 });
    v.push(Metric::NDCG { k: 5 });
    v.push(Metric::NDCG { k: 10 });
    v.push(Metric::NDCG { k: 15 });
    v.push(Metric::NDCG { k: 20 });
    v.push(Metric::RR { k: 0 });
    assert(v@ =~= seq![
        Metric::Success { k: 1 }, Metric::Success { k: 5 }, Metric::Success { k: 10 },
        Metric::Recall { k: 5 }, Metric::Recall { k: 10 }, Metric::Recall { k: 15 }, Metric::Recall { k: 20 },
        Metric::Precision { k: 5 }, Metric::Precision { k: 10 }, Metric::Precision { k: 15 }, Metric::Precision { k: 20 },
        Metric::AP { k: 5 }, Metric::AP { k: 10 }, Metric::AP { k: 15 }, Metric::AP { k: 20 },
        Metric::NDCG { k: 5 }, Metric::NDCG { k: 10 }, Metric::NDCG { k: 15 }, Metric::NDCG { k: 20 },
        Metric::RR { k: 0 },
    ]);
    v
}

/// The text of a metric reads back as the same metric.
pub proof fn lemma_parse_format(m: Metric)
    ensures
        parse_metric_spec(format_metric_spec(metric_name(m), metric_k(m))) == Some(m),
{
    reveal_strlit("hits");
    reveal_strlit("success");
    reveal_strlit("precision");
    reveal_strlit("recall");
    reveal_strlit("f1");
    reveal_strlit("ap");
    reveal_strlit("rr");
    reveal_strlit("dcg");
    reveal_strlit("ndcg");
    reveal_strlit("dcg_burges");
    reveal_strlit("ndcg_burges");
    let name = metric_name(m);
    let k = metric_k(m);
    let s = format_metric_spec(name, k);
    assert(forall|i: int| 0 <= i < name.len() ==> name[i] != '@');
    assert(metric_with(name, k) == Some(m));
    lemma_first_at(s);
    if k == 0 {
        if first_at(s) < s.len() {
            assert(s[first_at(s)] == '@');
        }
        assert(first_at(s) == s.len());
    } else {
        lemma_decimal(k as nat);
        assert(s[name.len() as int] == '@');
        if first_at(s) < name.len() {
            assert(s[first_at(s)] == name[first_at(s)]);
        }
        assert(first_at(s) == name.len());
        assert(s.take(name.len() as int) =~= name);
        assert(s.skip(name.len() as int + 1) =~= decimal(k as nat));
    }
}

} // verus!
