//! URI query parameters: an ordered list of `(key, value)` pairs with case-sensitive
//! keys, where a key may occur more than once.

use vstd::prelude::*;

use crate::headers::{lemma_pair_views_push, lemma_split_two, pair_views, str_pair_views, HeaderView};
use crate::text::{contains_str, contains_seq, lemma_split_concat, lemma_split_prefix, lemma_split_whole, split_seq, split_str, str_eq, str_views};

verus! {

pub type QueryType = (String, String);

pub struct Query {
    pub vec: Vec<QueryType>,
}

impl View for Query {
    type V = Seq<HeaderView>;

    open spec fn view(&self) -> Seq<HeaderView> {
        pair_views(self.vec@)
    }
}

/// The value of the first pair at index `>= i` with key `k`.
pub open spec fn query_get_from(q: Seq<HeaderView>, k: Seq<char>, i: int) -> Option<Seq<char>>
    decreases q.len() - i,
{
    if i < 0 || i >= q.len() {
        None
    } else if q[i].0 == k {
        Some(q[i].1)
    } else {
        query_get_from(q, k, i + 1)
    }
}

/// The value of the first pair with key `k`.
pub open spec fn spec_query_get(q: Seq<HeaderView>, k: Seq<char>) -> Option<Seq<char>> {
    query_get_from(q, k, 0)
}

/// The pairs with key `k`, in order.
pub open spec fn with_key(q: Seq<HeaderView>, k: Seq<char>) -> Seq<HeaderView>
    decreases q.len(),
{
    if q.len() == 0 {
        q
    } else if q.last().0 == k {
        with_key(q.drop_last(), k).push(q.last())
    } else {
        with_key(q.drop_last(), k)
    }
}

/// The pairs whose key is not `k`, in order.
pub open spec fn without_key(q: Seq<HeaderView>, k: Seq<char>) -> Seq<HeaderView>
    decreases q.len(),
{
    if q.len() == 0 {
        q
    } else if q.last().0 == k {
        without_key(q.drop_last(), k)
    } else {
        without_key(q.drop_last(), k).push(q.last())
    }
}

/// The index of the first pair with key `k`, or `-1`.
pub open spec fn first_key_index(q: Seq<HeaderView>, k: Seq<char>, i: int) -> int
    decreases q.len() - i,
{
    if i < 0 || i >= q.len() {
        -1
    } else if q[i].0 == k {
        i
    } else {
        first_key_index(q, k, i + 1)
    }
}

/// Replacing a key: the first pair with the key becomes `(k, v)` and the later ones
/// are dropped; with no such pair, `(k, v)` is appended.
pub open spec fn spec_query_replace(q: Seq<HeaderView>, k: Seq<char>, v: Seq<char>) -> Seq<HeaderView> {
    let f = first_key_index(q, k, 0);
    if f < 0 {
        q.push((k, v))
    } else {
        q.take(f) + seq![(k, v)] + without_key(q.skip(f + 1), k)
    }
}

/// The pair that a piece `"key=value"` gives.
pub open spec fn query_pair(piece: Seq<char>) -> HeaderView {
    let parts = split_seq(piece, seq!['=']);
    (parts[0], parts[1])
}

/// The pairs of a query string: its `&`-separated pieces, each cut at `=`.
pub open spec fn spec_query_from_string(s: Seq<char>) -> Seq<HeaderView> {
    let pieces = split_seq(s, seq!['&']);
    Seq::new(pieces.len(), |i: int| query_pair(pieces[i]))
}

/// Every `&`-separated piece of `s` holds an `=`.
pub open spec fn query_string_ok(s: Seq<char>) -> bool {
    let pieces = split_seq(s, seq!['&']);
    forall|i: int| 0 <= i < pieces.len() ==> contains_seq(#[trigger] pieces[i], seq!['='])
}

pub proof fn lemma_first_key_index(q: Seq<HeaderView>, k: Seq<char>, i: int)
    requires
        0 <= i,
    ensures
        first_key_index(q, k, i) == -1 || (i <= first_key_index(q, k, i) < q.len() && q[first_key_index(q, k, i)].0 == k),
        forall|j: int| i <= j < q.len() && (first_key_index(q, k, i) == -1 || j < first_key_index(q, k, i)) ==> q[j].0 != k,
        query_get_from(q, k, i) == (if first_key_index(q, k, i) == -1 {
            None
        } else {
            Some(q[first_key_index(q, k, i)].1)
        }),
    decreases q.len() - i,
{
    if i < q.len() && q[i].0 != k {
        lemma_first_key_index(q, k, i + 1);
    }
}

pub proof fn lemma_without_key_absent(q: Seq<HeaderView>, k: Seq<char>)
    requires
        forall|j: int| 0 <= j < q.len() ==> q[j].0 != k,
    ensures
        without_key(q, k) == q,
    decreases q.len(),
{
    if q.len() > 0 {
        lemma_without_key_absent(q.drop_last(), k);
        assert(q.drop_last().push(q.last()) =~= q);
    }
}

impl Query {
    pub fn empty() -> (r: Query)
        ensures
            r@ == Seq::<HeaderView>::empty(),
    {
        let r = Query { vec: Vec::new() };
        proof {
            assert(r@ =~= Seq::<HeaderView>::empty());
        }
        r
    }

    /// The pairs, in order.
    pub fn from(vec: Vec<(&str, &str)>) -> (r: Query)
        ensures
            r@ == str_pair_views(vec@),
    {
        let mut new: Vec<QueryType> = Vec::new();
        let mut i: usize = 0;
        while i < vec.len()
            invariant
                i <= vec@.len(),
                pair_views(new@) == str_pair_views(vec@).take(i as int),
            decreases vec@.len() - i,
        {
            let entry = (vec[i].0.to_owned(), vec[i].1.to_owned());
            let ghost before = new@;
            new.push(entry);
            proof {
                lemma_pair_views_push(before, entry);
                assert(pair_views(new@) =~= str_pair_views(vec@).take(i + 1));
            }
            i = i + 1;
        }
        proof {
            assert(str_pair_views(vec@).take(i as int) =~= str_pair_views(vec@));
        }
        Query { vec: new }
    }

    /// The pairs of a query string `"key=value&key=value"`.
    pub fn from_query_string(str: &str) -> (r: Query)
        requires
            query_string_ok(str@),
        ensures
            r@ == spec_query_from_string(str@),
    {
        let amp = "&";
        let eq = "=";
        proof {
            reveal_strlit("&");
            reveal_strlit("=");
            assert(amp@ =~= seq!['&']);
            assert(eq@ =~= seq!['=']);
        }
        let pieces = split_str(str, amp);
        let ghost ps = split_seq(str@, seq!['&']);
        let mut query = Query::empty();
        let mut i: usize = 0;
        while i < pieces.len()
            invariant
                i <= pieces@.len(),
                str_views(pieces@) == ps,
                ps == split_seq(str@, seq!['&']),
                query_string_ok(str@),
                eq@ == seq!['='],
                query@ == Seq::new(i as nat, |k: int| query_pair(ps[k])),
            decreases pieces@.len() - i,
        {
            proof {
                assert(ps[i as int] == pieces@[i as int]@);
                assert(contains_seq(ps[i as int], seq!['=']));
                lemma_split_two(pieces@[i as int]@, seq!['=']);
            }
            let pair = split_str(pieces[i], eq);
            query = query.add((pair[0], pair[1]));
            proof {
                assert(query@ =~= Seq::new((i + 1) as nat, |k: int| query_pair(ps[k])));
            }
            i = i + 1;
        }
        query
    }


    /// The pairs of a query string as `from_query_string` reads them, or `None` where a
    /// piece holds no `=`.
    pub fn try_from_query_string(str: &str) -> (r: Option<Query>)
        ensures
            r is Some <==> query_string_ok(str@),
            r matches Some(q) ==> q@ == spec_query_from_string(str@),
    {
        let amp = "&";
        let eq = "=";
        proof {
            reveal_strlit("&");
            reveal_strlit("=");
            assert(amp@ =~= seq!['&']);
            assert(eq@ =~= seq!['=']);
        }
        let pieces = split_str(str, amp);
        let mut i: usize = 0;
        while i < pieces.len()
            invariant
                i <= pieces@.len(),
                str_views(pieces@) == split_seq(str@, seq!['&']),
                eq@ == seq!['='],
                forall|k: int| 0 <= k < i ==> contains_seq(#[trigger] str_views(pieces@)[k], seq!['=']),
            decreases pieces@.len() - i,
        {
            if !contains_str(pieces[i], eq) {
                proof {
                    assert(!contains_seq(str_views(pieces@)[i as int], seq!['=']));
                }
                return None;
            }
            i = i + 1;
        }
        Some(Query::from_query_string(str))
    }

    /// The value of the first pair with the key (keys are case-sensitive).
    pub fn get(self, by: &str) -> (r: Option<String>)
        ensures
            match r {
                Some(s) => spec_query_get(self@, by@) == Some(s@),
                None => spec_query_get(self@, by@) == None::<Seq<char>>,
            },
    {
        let mut i: usize = 0;
        while i < self.vec.len()
            invariant
                i <= self.vec@.len(),
                spec_query_get(self@, by@) == query_get_from(self@, by@, i as int),
            decreases self.vec@.len() - i,
        {
            if str_eq(self.vec[i].0.as_str(), by) {
                return Some(self.vec[i].1.clone());
            }
            i = i + 1;
        }
        None
    }

    /// The pairs with the key, in order.
    pub fn get_all(&self, p0: &str) -> (r: Vec<QueryType>)
        ensures
            pair_views(r@) == with_key(self@, p0@),
    {
        let mut r: Vec<QueryType> = Vec::new();
        let mut i: usize = 0;
        while i < self.vec.len()
            invariant
                i <= self.vec@.len(),
                pair_views(r@) == with_key(self@.take(i as int), p0@),
            decreases self.vec@.len() - i,
        {
            proof {
                assert(self@.take(i + 1).drop_last() =~= self@.take(i as int));
                assert(self@.take(i + 1).last() == self@[i as int]);
            }
            if str_eq(self.vec[i].0.as_str(), p0) {
                let entry = (self.vec[i].0.clone(), self.vec[i].1.clone());
                let ghost before = r@;
                r.push(entry);
                proof {
                    lemma_pair_views_push(before, entry);
                }
            }
            i = i + 1;
        }
        proof {
            assert(self@.take(i as int) =~= self@);
        }
        r
    }

    /// The pairs with `pair` appended.
    pub fn add(&self, pair: (&str, &str)) -> (r: Query)
        ensures
            r@ == self@.push((pair.0@, pair.1@)),
    {
        let mut new: Vec<QueryType> = Vec::new();
        let mut i: usize = 0;
        while i < self.vec.len()
            invariant
                i <= self.vec@.len(),
                pair_views(new@) == self@.take(i as int),
            decreases self.vec@.len() - i,
        {
            let entry = (self.vec[i].0.clone(), self.vec[i].1.clone());
            let ghost before = new@;
            new.push(entry);
            proof {
                lemma_pair_views_push(before, entry);
                assert(pair_views(new@) =~= self@.take(i + 1));
            }
            i = i + 1;
        }
        let entry = (pair.0.to_owned(), pair.1.to_owned());
        let ghost before = new@;
        new.push(entry);
        proof {
            lemma_pair_views_push(before, entry);
            assert(self@.take(i as int) =~= self@);
        }
        Query { vec: new }
    }

    /// The first pair with the key takes the new value and later ones are dropped;
    /// with no such pair, the pair is appended.
    pub fn replace(&self, pair: (&str, &str)) -> (r: Query)
        ensures
            r@ == spec_query_replace(self@, pair.0@, pair.1@),
    {
        let ghost q = self@;
        let ghost k = pair.0@;
        let ghost v = pair.1@;
        let ghost f = first_key_index(q, k, 0);
        proof {
            lemma_first_key_index(q, k, 0);
        }
        let mut new: Vec<QueryType> = Vec::new();
        let mut seen = false;
        let mut i: usize = 0;
        while i < self.vec.len()
            invariant
                i <= self.vec@.len(),
                q == self@,
                k == pair.0@,
                v == pair.1@,
                f == first_key_index(q, k, 0),
                f == -1 || (0 <= f < q.len() && q[f].0 == k),
                forall|j: int| 0 <= j < q.len() && (f == -1 || j < f) ==> q[j].0 != k,
                seen == (f != -1 && f < i),
                !seen ==> pair_views(new@) == q.take(i as int),
                seen ==> pair_views(new@) == q.take(f) + seq![(k, v)] + without_key(
                    q.subrange(f + 1, i as int),
                    k,
                ),
            decreases self.vec@.len() - i,
        {
            let same = str_eq(self.vec[i].0.as_str(), pair.0);
            let ghost before = new@;
            proof {
                assert(q[i as int].0 == self.vec@[i as int].0@);
            }
            if same && !seen {
                let entry = (pair.0.to_owned(), pair.1.to_owned());
                new.push(entry);
                seen = true;
                proof {
                    lemma_pair_views_push(before, entry);
                    assert(f == i);
                    assert(q.subrange(f + 1, i + 1) =~= Seq::<HeaderView>::empty());
                }
            } else if !same {
                let entry = (self.vec[i].0.clone(), self.vec[i].1.clone());
                new.push(entry);
                proof {
                    lemma_pair_views_push(before, entry);
                    if seen {
                        assert(q.subrange(f + 1, i + 1).drop_last() =~= q.subrange(f + 1, i as int));
                        assert(q.subrange(f + 1, i + 1).last() == q[i as int]);
                        assert(pair_views(new@) =~= q.take(f) + seq![(k, v)] + without_key(
                            q.subrange(f + 1, i + 1),
                            k,
                        ));
                    } else {
                        assert(pair_views(new@) =~= q.take(i + 1));
                    }
                }
            } else {
                proof {
                    assert(q.subrange(f + 1, i + 1).drop_last() =~= q.subrange(f + 1, i as int));
                    assert(q.subrange(f + 1, i + 1).last() == q[i as int]);
                }
            }
            i = i + 1;
        }
        if !seen {
            let entry = (pair.0.to_owned(), pair.1.to_owned());
            let ghost before = new@;
            new.push(entry);
            proof {
                lemma_pair_views_push(before, entry);
                assert(q.take(i as int) =~= q);
            }
        } else {
            proof {
                assert(q.subrange(f + 1, i as int) =~= q.skip(f + 1));
            }
        }
        Query { vec: new }
    }
}

// ---------------------------------------------------------------- laws

/// After adding a pair, every pair before it is still there and the new pair is last.
pub proof fn law_query_add_appends(q: Seq<HeaderView>, k: Seq<char>, v: Seq<char>)
    ensures
        with_key(q.push((k, v)), k) == with_key(q, k).push((k, v)),
        q.push((k, v)).last() == (k, v),
{
    assert(q.push((k, v)).drop_last() =~= q);
}

/// Adding a pair under a key that is absent makes the key give that value.
pub proof fn law_query_get_after_add(q: Seq<HeaderView>, k: Seq<char>, v: Seq<char>)
    requires
        spec_query_get(q, k) is None,
    ensures
        spec_query_get(q.push((k, v)), k) == Some(v),
{
    let p = q.push((k, v));
    lemma_first_key_index(q, k, 0);
    lemma_first_key_index(p, k, 0);
    let g = first_key_index(p, k, 0);
    assert(p[q.len() as int].0 == k);
    if g == -1 {
        assert(p[q.len() as int].0 != k);
    } else if g < q.len() {
        assert(p[g] == q[g]);
    }
}

/// After replacing a key, the key gives the new value.
pub proof fn law_query_get_after_replace(q: Seq<HeaderView>, k: Seq<char>, v: Seq<char>)
    ensures
        spec_query_get(spec_query_replace(q, k, v), k) == Some(v),
{
    let r = spec_query_replace(q, k, v);
    let f = first_key_index(q, k, 0);
    lemma_first_key_index(q, k, 0);
    lemma_first_key_index(r, k, 0);
    let g = first_key_index(r, k, 0);
    let at = if f < 0 { q.len() as int } else { f };
    assert(r[at] == (k, v));
    assert(forall|j: int| 0 <= j < at ==> r[j] == q[j]);
    if g == -1 {
        assert(r[at].0 != k);
    } else if g < at {
        assert(r[g] == q[g]);
    } else if g > at {
        assert(r[at].0 != k);
    }
}


/// Reading two query strings joined by `&` gives the pairs of the first, in order, then
/// the pairs of the second; the joined string reads exactly when both do.
pub proof fn law_query_string_concat(p: Seq<char>, q: Seq<char>)
    ensures
        spec_query_from_string(p + seq!['&'] + q) == spec_query_from_string(p)
            + spec_query_from_string(q),
        query_string_ok(p + seq!['&'] + q) <==> query_string_ok(p) && query_string_ok(q),
{
    lemma_split_concat(p, q, seq!['&']);
    let a = split_seq(p, seq!['&']);
    let b = split_seq(q, seq!['&']);
    assert(spec_query_from_string(p + seq!['&'] + q) =~= spec_query_from_string(p)
        + spec_query_from_string(q));
    if query_string_ok(p) && query_string_ok(q) {
        assert forall|i: int| 0 <= i < (a + b).len() implies contains_seq(
            #[trigger] (a + b)[i],
            seq!['='],
        ) by {
            if i < a.len() {
                assert((a + b)[i] == a[i]);
            } else {
                assert((a + b)[i] == b[i - a.len()]);
            }
        }
    }
    if query_string_ok(p + seq!['&'] + q) {
        assert forall|i: int| 0 <= i < a.len() implies contains_seq(#[trigger] a[i], seq!['=']) by {
            assert((a + b)[i] == a[i]);
        }
        assert forall|i: int| 0 <= i < b.len() implies contains_seq(#[trigger] b[i], seq!['=']) by {
            assert((a + b)[i + a.len()] == b[i]);
        }
    }
}

/// A piece `key=value`, where neither holds `=` or `&`, reads as that one pair.
pub proof fn law_query_single_pair(k: Seq<char>, v: Seq<char>)
    requires
        !contains_seq(k, seq!['=']),
        !contains_seq(k, seq!['&']),
        !contains_seq(v, seq!['=']),
        !contains_seq(v, seq!['&']),
    ensures
        query_string_ok(k + seq!['='] + v),
        spec_query_from_string(k + seq!['='] + v) == seq![(k, v)],
{
    let piece = k + seq!['='] + v;
    assert(!contains_seq(piece, seq!['&'])) by {
        if contains_seq(piece, seq!['&']) {
            let j = choose|j: int| crate::text::occurs_at(piece, seq!['&'], j);
            assert(piece.subrange(j, j + 1)[0] == '&');
            if j < k.len() {
                assert(crate::text::occurs_at(k, seq!['&'], j)) by {
                    assert(k.subrange(j, j + 1) =~= piece.subrange(j, j + 1));
                }
            } else if j == k.len() {
                assert(piece[j] == '=');
            } else {
                let i = j - k.len() - 1;
                assert(crate::text::occurs_at(v, seq!['&'], i)) by {
                    assert(v.subrange(i, i + 1) =~= piece.subrange(j, j + 1));
                }
            }
        }
    }
    lemma_split_whole(piece, seq!['&']);
    lemma_split_prefix(k, v, seq!['=']);
    lemma_split_whole(v, seq!['=']);
    assert(crate::text::occurs_at(piece, seq!['='], k.len() as int)) by {
        assert(piece.subrange(k.len() as int, k.len() as int + 1) =~= seq!['=']);
    }
    assert(spec_query_from_string(piece) =~= seq![(k, v)]);
}

} // verus!
