//! A router for profile pages: `/site/{name}/profile?org={org}` is answered with a line
//! naming the organisation, the person and the values of the request's headers.

use vstd::prelude::*;

use crate::exchange::string_opt_view;
use crate::handler::Handler;
use crate::headers::{HeaderView, Headers};
use crate::http_message::{response_of, Body, BodyView, Request, RequestView, Response, ResponseView, Status};
use crate::query::{query_string_ok, spec_query_from_string, spec_query_get, Query};
use crate::text::{
    capitalize, capitalize_str, comma_space, ends_with, ends_with_str, join_seq, join_strings,
    string_views,
};

verus! {

/// At `p` stands `/site/`, then at least one character other than `/` up to `e`, then
/// `/profile`.
pub open spec fn profile_at(s: Seq<char>, p: int, e: int) -> bool {
    &&& 0 <= p && p + 6 < e && e + 8 <= s.len()
    &&& s.subrange(p, p + 6) == "/site/"@
    &&& forall|k: int| p + 6 <= k < e ==> s[k] != '/'
    &&& s.subrange(e, e + 8) == "/profile"@
}

/// The pattern `/site/([^/]+)/profile` matches from `p`.
pub open spec fn profile_starts_at(s: Seq<char>, p: int) -> bool {
    exists|e: int| profile_at(s, p, e)
}

/// What the pattern `/site/([^/]+)/profile` captures in `s`: the name at the leftmost
/// place where it matches.
pub open spec fn profile_capture(s: Seq<char>) -> Option<Seq<char>> {
    if exists|p: int| profile_starts_at(s, p) {
        let p = choose|p: int|
            profile_starts_at(s, p) && forall|q: int| 0 <= q < p ==> !profile_starts_at(s, q);
        let e = choose|e: int| profile_at(s, p, e);
        Some(s.subrange(p + 6, e))
    } else {
        None
    }
}

/// Finds the leftmost match of the regular expression `/site/([^/]+)/profile` in `path`
/// with the `regex` crate and gives what its group captured. The contract says this is
/// `profile_capture` of the path (leftmost match; the group can only end at the `/`
/// before `profile`).
#[verifier::external_body]
fn profile_name(path: &str) -> (r: Option<String>)
    ensures
        string_opt_view(r) == profile_capture(path@),
{
    match regex::Regex::new("/site/([^/]+)/profile") {
        Ok(re) => match re.captures(path) {
            Some(c) => match c.get(1) {
                Some(m) => Some(m.as_str().to_string()),
                None => None,
            },
            None => None,
        },
        Err(_) => None,
    }
}

/// The organisation as a title: without a final `s`, capitalised.
pub open spec fn organisation_title(org: Seq<char>) -> Seq<char> {
    capitalize(
        if ends_with(org, "s"@) {
            org.drop_last()
        } else {
            org
        },
    )
}

/// The values of the headers, capitalised, the last header first.
pub open spec fn values_last_first(h: Seq<HeaderView>) -> Seq<Seq<char>> {
    Seq::new(h.len(), |i: int| capitalize(h[h.len() - 1 - i].1))
}

/// The organisation named by the query's `org`, if the query reads as pairs.
pub open spec fn query_org(q: Option<Seq<char>>) -> Option<Seq<char>> {
    match q {
        Some(s) => if query_string_ok(s) {
            spec_query_get(spec_query_from_string(s), "org"@)
        } else {
            None
        },
        None => None,
    }
}

/// `"{Organisation}->{Name}: {Value}, {Value}"`, without the organisation part when
/// there is none.
pub open spec fn profile_text(org: Option<Seq<char>>, name: Seq<char>, h: Seq<HeaderView>) -> Seq<char> {
    (match org {
        Some(o) => organisation_title(o) + "->"@,
        None => Seq::empty(),
    }) + capitalize(name) + ": "@ + join_seq(values_last_first(h), comma_space())
}

/// The name a request's path gives, or `tom`.
pub open spec fn profile_person(path: Seq<char>) -> Seq<char> {
    match profile_capture(path) {
        Some(n) => n,
        None => "tom"@,
    }
}

pub struct Router {}

impl Router {
    pub fn new() -> (r: Router) {
        Router {}
    }
}

impl Handler for Router {
    open spec fn accepts(&self, req: RequestView) -> bool {
        true
    }

    open spec fn responds(&self, req: RequestView, res: ResponseView) -> bool {
        res == response_of(
            Status::OK,
            Seq::empty(),
            BodyView::Text(profile_text(query_org(req.uri.query), profile_person(req.uri.path), req.headers)),
        )
    }

    fn handle<F>(&mut self, req: Request, fun: F) where F: for<'r> FnOnce(Response<'r>) {
        let ghost rv = req@;
        proof {
            reveal_strlit("s");
            reveal_strlit("->");
            reveal_strlit(": ");
            reveal_strlit("tom");
        }
        let name = match profile_name(req.uri.path) {
            Some(n) => n,
            None => "tom".to_owned(),
        };
        let org = match req.uri.query {
            Some(q) => match Query::try_from_query_string(q) {
                Some(query) => query.get("org"),
                None => None,
            },
            None => None,
        };
        let mut text = String::new();
        match org {
            Some(o) => {
                let n = o.unicode_len();
                let base = if ends_with_str(o.as_str(), "s") {
                    o.as_str().substring_char(0, n - 1)
                } else {
                    o.as_str()
                };
                proof {
                    if ends_with(o@, "s"@) {
                        assert(o@.subrange(0, n - 1) =~= o@.drop_last());
                    }
                }
                let title = capitalize_str(base);
                text.append(title.as_str());
                text.append("->");
            },
            None => {},
        }
        let person = capitalize_str(name.as_str());
        text.append(person.as_str());
        text.append(": ");
        let mut values: Vec<String> = Vec::new();
        let count = req.headers.vec.len();
        let mut i: usize = 0;
        while i < count
            invariant
                count == req.headers@.len(),
                i <= count,
                string_views(values@) == values_last_first(req.headers@).take(i as int),
            decreases count - i,
        {
            let v = capitalize_str(req.headers.vec[count - 1 - i].1.as_str());
            let ghost before = values@;
            values.push(v);
            proof {
                assert(string_views(values@) =~= string_views(before).push(v@));
                assert(string_views(values@) =~= values_last_first(req.headers@).take(i + 1));
            }
            i = i + 1;
        }
        proof {
            assert(values_last_first(req.headers@).take(i as int) =~= values_last_first(req.headers@));
            reveal_strlit(", ");
        }
        let joined = join_strings(&values, ", ");
        text.append(joined.as_str());
        let res = Response::ok(Headers::empty(), Body::BodyString(text.as_str()));
        proof {
            assert(", "@ =~= comma_space());
            assert(text@ =~= profile_text(query_org(rv.uri.query), profile_person(rv.uri.path), rv.headers));
            assert(self.responds(rv, res@));
        }
        fun(res)
    }
}

} // verus!
