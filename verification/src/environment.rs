//! Settings as an ordered list of `(name, value)` pairs, looked up by exact name.

use vstd::prelude::*;

use crate::headers::{pair_views, str_pair_views, HeaderView};
use crate::text::str_eq;

verus! {

/// The value of the first pair at index `>= i` whose name is `name`.
pub open spec fn lookup_from(pairs: Seq<HeaderView>, name: Seq<char>, i: int) -> Option<Seq<char>>
    decreases pairs.len() - i,
{
    if i < 0 || i >= pairs.len() {
        None
    } else if pairs[i].0 == name {
        Some(pairs[i].1)
    } else {
        lookup_from(pairs, name, i + 1)
    }
}

/// The value of the first pair whose name is `name`.
pub open spec fn lookup(pairs: Seq<HeaderView>, name: Seq<char>) -> Option<Seq<char>> {
    lookup_from(pairs, name, 0)
}

/// The value of the first pair whose name is `name`, or `None`.
pub fn lookup_pairs(pairs: &Vec<(String, String)>, name: &str) -> (r: Option<String>)
    ensures
        match r {
            Some(v) => lookup(pair_views(pairs@), name@) == Some(v@),
            None => lookup(pair_views(pairs@), name@) is None,
        },
{
    let mut i: usize = 0;
    while i < pairs.len()
        invariant
            i <= pairs@.len(),
            lookup(pair_views(pairs@), name@) == lookup_from(pair_views(pairs@), name@, i as int),
        decreases pairs@.len() - i,
    {
        if str_eq(pairs[i].0.as_str(), name) {
            return Some(pairs[i].1.clone());
        }
        i = i + 1;
    }
    None
}

/// `new` followed by each pair of `old` that is not already there (name and value).
pub open spec fn merge_pairs(new: Seq<HeaderView>, old: Seq<HeaderView>) -> Seq<HeaderView>
    decreases old.len(),
{
    if old.len() == 0 {
        new
    } else {
        let acc = merge_pairs(new, old.drop_last());
        if acc.contains(old.last()) {
            acc
        } else {
            acc.push(old.last())
        }
    }
}

pub struct Environment {
    pub pairs: Vec<(String, String)>,
}

impl View for Environment {
    type V = Seq<HeaderView>;

    open spec fn view(&self) -> Seq<HeaderView> {
        pair_views(self.pairs@)
    }
}

fn contains_pair(v: &Vec<(String, String)>, p: &(String, String)) -> (r: bool)
    ensures
        r == pair_views(v@).contains((p.0@, p.1@)),
{
    let mut i: usize = 0;
    while i < v.len()
        invariant
            i <= v@.len(),
            forall|k: int| 0 <= k < i ==> #[trigger] pair_views(v@)[k] != (p.0@, p.1@),
        decreases v@.len() - i,
    {
        if str_eq(v[i].0.as_str(), p.0.as_str()) && str_eq(v[i].1.as_str(), p.1.as_str()) {
            proof {
                assert(pair_views(v@)[i as int] == (p.0@, p.1@));
            }
            return true;
        }
        i = i + 1;
    }
    false
}

impl Environment {
    /// The pairs given, then each earlier pair that is not among them.
    pub fn with(self, pairs: Vec<(&str, &str)>) -> (r: Environment)
        ensures
            r@ == merge_pairs(str_pair_views(pairs@), self@),
    {
        let mut vec: Vec<(String, String)> = Vec::new();
        let mut i: usize = 0;
        while i < pairs.len()
            invariant
                i <= pairs@.len(),
                pair_views(vec@) == str_pair_views(pairs@).take(i as int),
            decreases pairs@.len() - i,
        {
            let ghost before = vec@;
            let p = (pairs[i].0.to_owned(), pairs[i].1.to_owned());
            vec.push(p);
            proof {
                crate::headers::lemma_pair_views_push(before, p);
                assert(pair_views(vec@) =~= str_pair_views(pairs@).take(i + 1));
            }
            i = i + 1;
        }
        proof {
            assert(str_pair_views(pairs@).take(i as int) =~= str_pair_views(pairs@));
        }
        let old = self.pairs;
        let mut j: usize = 0;
        while j < old.len()
            invariant
                j <= old@.len(),
                pair_views(vec@) == merge_pairs(str_pair_views(pairs@), pair_views(old@).take(j as int)),
            decreases old@.len() - j,
        {
            let p = (old[j].0.clone(), old[j].1.clone());
            proof {
                assert(pair_views(old@).take(j + 1).drop_last() =~= pair_views(old@).take(j as int));
                assert(pair_views(old@).take(j + 1).last() == (p.0@, p.1@));
            }
            if !contains_pair(&vec, &p) {
                let ghost before = vec@;
                vec.push(p);
                proof {
                    crate::headers::lemma_pair_views_push(before, p);
                }
            }
            j = j + 1;
        }
        proof {
            assert(pair_views(old@).take(j as int) =~= pair_views(old@));
        }
        Environment { pairs: vec }
    }

    /// The value of the first pair with the name.
    pub fn get(&self, name: &str) -> (r: Option<String>)
        ensures
            match r {
                Some(v) => lookup(self@, name@) == Some(v@),
                None => lookup(self@, name@) is None,
            },
    {
        lookup_pairs(&self.pairs, name)
    }

    /// An environment with the same pairs.
    pub fn copy(&self) -> (r: Environment)
        ensures
            r@ == self@,
    {
        let mut v: Vec<(String, String)> = Vec::new();
        let mut i: usize = 0;
        while i < self.pairs.len()
            invariant
                i <= self.pairs@.len(),
                pair_views(v@) == self@.take(i as int),
            decreases self.pairs@.len() - i,
        {
            let ghost before = v@;
            let p = (self.pairs[i].0.clone(), self.pairs[i].1.clone());
            v.push(p);
            proof {
                crate::headers::lemma_pair_views_push(before, p);
                assert(pair_views(v@) =~= self@.take(i + 1));
            }
            i = i + 1;
        }
        proof {
            assert(self@.take(i as int) =~= self@);
        }
        Environment { pairs: v }
    }

    pub fn empty() -> (r: Environment)
        ensures
            r@ == Seq::<HeaderView>::empty(),
    {
        let r = Environment { pairs: Vec::new() };
        proof {
            assert(r@ =~= Seq::<HeaderView>::empty());
        }
        r
    }
}

/// The pairs given to `with` come first: a name they hold gives their value; any other
/// name gives what it gave before.
pub proof fn law_environment_with_then_get(new: Seq<HeaderView>, old: Seq<HeaderView>, name: Seq<char>)
    ensures
        lookup(new, name) is Some ==> lookup(merge_pairs(new, old), name) == lookup(new, name),
        lookup(new, name) is None ==> lookup(merge_pairs(new, old), name) == lookup(old, name),
    decreases old.len(),
{
    if old.len() > 0 {
        let init = old.drop_last();
        let e = old.last();
        law_environment_with_then_get(new, init, name);
        let acc = merge_pairs(new, init);
        lemma_lookup_push(acc, e, name, 0);
        lemma_lookup_push(init, e, name, 0);
        assert(init.push(e) =~= old);
        if acc.contains(e) && e.0 == name && lookup(acc, name) is None {
            let k = choose|k: int| 0 <= k < acc.len() && acc[k] == e;
            lemma_lookup_finds(acc, name, 0, k);
        }
    }
}

proof fn lemma_lookup_push(s: Seq<HeaderView>, e: HeaderView, name: Seq<char>, i: int)
    requires
        0 <= i <= s.len(),
    ensures
        lookup_from(s.push(e), name, i) == (match lookup_from(s, name, i) {
            Some(v) => Some(v),
            None => if e.0 == name {
                Some(e.1)
            } else {
                None
            },
        }),
    decreases s.len() - i,
{
    if i < s.len() {
        assert(s.push(e)[i] == s[i]);
        lemma_lookup_push(s, e, name, i + 1);
    } else {
        assert(s.push(e)[i] == e);
        assert(lookup_from(s.push(e), name, i + 1) is None);
    }
}

proof fn lemma_lookup_finds(s: Seq<HeaderView>, name: Seq<char>, i: int, k: int)
    requires
        0 <= i <= k < s.len(),
        s[k].0 == name,
    ensures
        lookup_from(s, name, i) is Some,
    decreases k - i,
{
    if i < k && s[i].0 != name {
        lemma_lookup_finds(s, name, i + 1, k);
    }
}

} // verus!
