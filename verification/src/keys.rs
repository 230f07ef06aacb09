//! Identifiers of queries and documents, relevance scores, and their orders.
//!
//! Query and document ids are ordered by the lexicographic order of their
//! textual form (code point by code point), which is the order in which
//! a `BTreeMap<String, _>` or a `BTreeMap<char, _>` walks its keys.
use vstd::prelude::*;
use vstd::string::*;

verus! {

/// Lexicographic order on sequences of characters, by code point.
pub open spec fn seq_lt(a: Seq<char>, b: Seq<char>) -> bool
    decreases a.len(),
{
    if a.len() == 0 {
        b.len() > 0
    } else if b.len() == 0 {
        false
    } else if a[0] != b[0] {
        (a[0] as int) < (b[0] as int)
    } else {
        seq_lt(a.drop_first(), b.drop_first())
    }
}

/// `seq_lt` is irreflexive.
pub proof fn lemma_seq_lt_irreflexive(a: Seq<char>)
    ensures
        !seq_lt(a, a),
    decreases a.len(),
{
    if a.len() > 0 {
        lemma_seq_lt_irreflexive(a.drop_first());
    }
}

/// `seq_lt` is total on distinct sequences and asymmetric.
pub proof fn lemma_seq_lt_total(a: Seq<char>, b: Seq<char>)
    ensures
        a != b ==> (seq_lt(a, b) || seq_lt(b, a)),
        !(seq_lt(a, b) && seq_lt(b, a)),
    decreases a.len(),
{
    if a.len() > 0 && b.len() > 0 {
        if a[0] == b[0] {
            lemma_seq_lt_total(a.drop_first(), b.drop_first());
            if a != b {
                assert(a.drop_first() != b.drop_first()) by {
                    if a.drop_first() == b.drop_first() {
                        assert(a =~= seq![a[0]] + a.drop_first());
                        assert(b =~= seq![b[0]] + b.drop_first());
                    }
                }
            }
        } else {
            assert((a[0] as int) != (b[0] as int));
        }
    } else if a.len() == 0 && b.len() == 0 {
        assert(a =~= b);
    }
}

/// `seq_lt` is transitive.
pub proof fn lemma_seq_lt_transitive(a: Seq<char>, b: Seq<char>, c: Seq<char>)
    requires
        seq_lt(a, b),
        seq_lt(b, c),
    ensures
        seq_lt(a, c),
    decreases a.len(),
{
    if a.len() > 0 && b.len() > 0 && c.len() > 0 {
        if a[0] == b[0] && b[0] == c[0] {
            lemma_seq_lt_transitive(a.drop_first(), b.drop_first(), c.drop_first());
        }
    }
}

/// Unfolding `seq_lt` past a common prefix of length `i`.
proof fn lemma_seq_lt_skip(a: Seq<char>, b: Seq<char>, i: int)
    requires
        0 <= i <= a.len(),
        i <= b.len(),
        a.take(i) == b.take(i),
    ensures
        seq_lt(a, b) == seq_lt(a.skip(i), b.skip(i)),
    decreases i,
{
    if i > 0 {
        assert(a[0] == a.take(i)[0]);
        assert(b[0] == b.take(i)[0]);
        assert(a.drop_first().take(i - 1) =~= a.take(i).drop_first());
        assert(b.drop_first().take(i - 1) =~= b.take(i).drop_first());
        lemma_seq_lt_skip(a.drop_first(), b.drop_first(), i - 1);
        assert(a.drop_first().skip(i - 1) =~= a.skip(i));
        assert(b.drop_first().skip(i - 1) =~= b.skip(i));
    } else {
        assert(a.skip(0) =~= a);
        assert(b.skip(0) =~= b);
    }
}

/// Characters of a string slice, in order.
pub fn chars_of(s: &str) -> (r: Vec<char>)
    ensures
        r@ == s@,
{
    broadcast use vstd::string::axiom_spec_iter;

    let mut r: Vec<char> = Vec::new();
    for c in it: s.chars()
        invariant
            it.seq() == s@,
            r@ == it.seq().take(it.index()),
    {
        r.push(c);
        assert(r@ =~= it.seq().take(it.index() + 1));
    }
    assert(s@.take(s@.len() as int) =~= s@);
    r
}

/// Compares two character sequences in the order `seq_lt`.
pub fn chars_lt(a: &Vec<char>, b: &Vec<char>) -> (r: bool)
    ensures
        r == seq_lt(a@, b@),
{
    let mut i: usize = 0;
    while i < a.len() && i < b.len()
        invariant
            i <= a.len(),
            i <= b.len(),
            a@.take(i as int) == b@.take(i as int),
        decreases a.len() - i,
    {
        if a[i] != b[i] {
            proof {
                lemma_seq_lt_skip(a@, b@, i as int);
                assert(a@.skip(i as int)[0] == a@[i as int]);
                assert(b@.skip(i as int)[0] == b@[i as int]);
            }
            return a[i] < b[i];
        }
        i = i + 1;
        assert(a@.take(i as int) =~= b@.take(i as int)) by {
            assert forall|j: int| 0 <= j < i implies a@.take(i as int)[j] == b@.take(i as int)[j] by {
                if j < i - 1 {
                    assert(a@.take(i - 1)[j] == b@.take(i - 1)[j]);
                }
            }
        }
    }
    proof {
        lemma_seq_lt_skip(a@, b@, i as int);
    }
    i < b.len()
}

/// Identifiers of queries and documents.
///
/// An identifier has a textual form, by which identifiers are compared,
/// ordered and shown in messages.
pub trait StoreKey: Sized {
    /// The textual form of the identifier.
    spec fn key_seq(&self) -> Seq<char>;

    /// Whether two identifiers have the same textual form.
    fn key_eq(&self, other: &Self) -> (r: bool)
        ensures
            r == (self.key_seq() == other.key_seq()),
    ;

    /// The strict order of identifiers.
    fn key_lt(&self, other: &Self) -> (r: bool)
        ensures
            r == seq_lt(self.key_seq(), other.key_seq()),
    ;

    /// A copy of the identifier.
    fn key_clone(&self) -> (r: Self)
        ensures
            r.key_seq() == self.key_seq(),
    ;

    /// The textual form of the identifier as a string.
    fn key_text(&self) -> (r: String)
        ensures
            r@ == self.key_seq(),
    ;
}

/// `seq_lt` is a strict total order (all instances).
pub proof fn lemma_seq_order_all()
    ensures
        forall|a: Seq<char>| !#[trigger] seq_lt(a, a),
        forall|a: Seq<char>, b: Seq<char>|
            a != b ==> (#[trigger] seq_lt(a, b) || #[trigger] seq_lt(b, a)),
        forall|a: Seq<char>, b: Seq<char>| !(#[trigger] seq_lt(a, b) && #[trigger] seq_lt(b, a)),
        forall|a: Seq<char>, b: Seq<char>, c: Seq<char>|
            #[trigger] seq_lt(a, b) && #[trigger] seq_lt(b, c) ==> seq_lt(a, c),
{
    assert forall|a: Seq<char>| !#[trigger] seq_lt(a, a) by {
        lemma_seq_lt_irreflexive(a);
    }
    assert forall|a: Seq<char>, b: Seq<char>| a != b implies (#[trigger] seq_lt(a, b)
        || #[trigger] seq_lt(b, a)) by {
        lemma_seq_lt_total(a, b);
    }
    assert forall|a: Seq<char>, b: Seq<char>| !(#[trigger] seq_lt(a, b) && #[trigger] seq_lt(
        b,
        a,
    )) by {
        lemma_seq_lt_total(a, b);
    }
    assert forall|a: Seq<char>, b: Seq<char>, c: Seq<char>|
        #[trigger] seq_lt(a, b) && #[trigger] seq_lt(b, c) implies seq_lt(a, c) by {
        lemma_seq_lt_transitive(a, b, c);
    }
}

/// Calls std's `String::from(char)`, which the documentation describes as
/// the string of that one character; the contract claims exactly that.
#[verifier::external_body]
fn char_to_string(c: char) -> (r: String)
    ensures
        r@ == seq![c],
{
    String::from(c)
}

impl StoreKey for char {
    open spec fn key_seq(&self) -> Seq<char> {
        seq![*self]
    }

    fn key_eq(&self, other: &Self) -> (r: bool) {
        let r = *self == *other;
        proof {
            if self.key_seq() == other.key_seq() {
                assert(self.key_seq()[0] == other.key_seq()[0]);
            }
        }
        r
    }

    fn key_lt(&self, other: &Self) -> (r: bool) {
        let r = *self < *other;
        proof {
            let a = self.key_seq();
            let b = other.key_seq();
            assert(a[0] == *self && b[0] == *other);
            assert(r == ((*self as int) < (*other as int)));
            if a[0] == b[0] {
                assert(a.drop_first().len() == 0 && b.drop_first().len() == 0);
                assert(!seq_lt(a.drop_first(), b.drop_first()));
            }
        }
        r
    }

    fn key_clone(&self) -> (r: Self) {
        *self
    }

    fn key_text(&self) -> (r: String) {
        char_to_string(*self)
    }
}

impl StoreKey for String {
    open spec fn key_seq(&self) -> Seq<char> {
        self@
    }

    fn key_eq(&self, other: &Self) -> (r: bool) {
        *self == *other
    }

    fn key_lt(&self, other: &Self) -> (r: bool) {
        let a = chars_of(self.as_str());
        let b = chars_of(other.as_str());
        chars_lt(&a, &b)
    }

    fn key_clone(&self) -> (r: Self) {
        self.clone()
    }

    fn key_text(&self) -> (r: String) {
        self.clone()
    }
}

/// Relevance scores: integers, ordered as integers.
pub trait ScoreValue: Copy {
    /// The integer that the score stands for.
    spec fn score_int(&self) -> int;

    /// Scores are determined by their integer.
    proof fn lemma_score_int_injective(a: Self, b: Self)
        ensures
            a.score_int() == b.score_int() ==> a == b,
    ;

    /// Whether this score is smaller than the other one.
    fn score_lt(&self, other: &Self) -> (r: bool)
        ensures
            r == (self.score_int() < other.score_int()),
    ;
}

impl ScoreValue for i32 {
    open spec fn score_int(&self) -> int {
        *self as int
    }

    proof fn lemma_score_int_injective(a: Self, b: Self) {
    }

    fn score_lt(&self, other: &Self) -> (r: bool) {
        *self < *other
    }
}

impl ScoreValue for u32 {
    open spec fn score_int(&self) -> int {
        *self as int
    }

    proof fn lemma_score_int_injective(a: Self, b: Self) {
    }

    fn score_lt(&self, other: &Self) -> (r: bool) {
        *self < *other
    }
}

impl ScoreValue for i64 {
    open spec fn score_int(&self) -> int {
        *self as int
    }

    proof fn lemma_score_int_injective(a: Self, b: Self) {
    }

    fn score_lt(&self, other: &Self) -> (r: bool) {
        *self < *other
    }
}

impl ScoreValue for u64 {
    open spec fn score_int(&self) -> int {
        *self as int
    }

    proof fn lemma_score_int_injective(a: Self, b: Self) {
    }

    fn score_lt(&self, other: &Self) -> (r: bool) {
        *self < *other
    }
}

} // verus!
