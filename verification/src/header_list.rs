//! Headers kept as a plain list of `(name, value)` pairs: looking up, adding, reading
//! and writing them without the `Headers` type.

use vstd::prelude::*;

use crate::headers::{
    add_each, all_have_colon, line_pairs, pair_views, spec_js_from_string, spec_js_string,
    spec_wire_string, HeaderView, Headers,
};
use crate::text::{
    colon_space, colon_space_str, comma_space, concat3, comma_space_str, crlf, crlf_str,
    join_strings, names_match, parse_usize, same_name, semicolon_space, spec_parse_usize,
    split_seq, split_str, str_views, string_views,
};

verus! {

/// One header as a pair of strings.
pub type Header = (String, String);

/// The first header at index `>= i` whose name matches `n` (ignoring case).
pub open spec fn first_header_from(h: Seq<HeaderView>, n: Seq<char>, i: int) -> Option<HeaderView>
    decreases h.len() - i,
{
    if i < 0 || i >= h.len() {
        None
    } else if same_name(h[i].0, n) {
        Some(h[i])
    } else {
        first_header_from(h, n, i + 1)
    }
}

/// The first header whose name matches `n` (ignoring case), name and value as they are.
pub open spec fn first_header(h: Seq<HeaderView>, n: Seq<char>) -> Option<HeaderView> {
    first_header_from(h, n, 0)
}

/// Adding to a list: each header with exactly the name gets `", "` and the value
/// appended; if there is none, the header is appended.
pub open spec fn list_add(h: Seq<HeaderView>, n: Seq<char>, v: Seq<char>) -> Seq<HeaderView> {
    if exists|i: int| 0 <= i < h.len() && #[trigger] h[i].0 == n {
        Seq::new(
            h.len(),
            |i: int|
                if h[i].0 == n {
                    (h[i].0, h[i].1 + comma_space() + v)
                } else {
                    h[i]
                },
        )
    } else {
        h.push((n, v))
    }
}

/// Adding each of `pairs` in turn to a list.
pub open spec fn list_add_each(h: Seq<HeaderView>, pairs: Seq<HeaderView>) -> Seq<HeaderView>
    decreases pairs.len(),
{
    if pairs.len() == 0 {
        h
    } else {
        let last = pairs.last();
        list_add(list_add_each(h, pairs.drop_last()), last.0, last.1)
    }
}

/// Adding headers whose names all differ, one by one, to an empty list gives them in
/// order.
pub proof fn lemma_list_add_each_distinct(h: Seq<HeaderView>)
    requires
        forall|i: int, j: int| 0 <= i < j < h.len() ==> #[trigger] h[i].0 != #[trigger] h[j].0,
    ensures
        list_add_each(Seq::empty(), h) == h,
    decreases h.len(),
{
    if h.len() > 0 {
        let init = h.drop_last();
        let e = h.last();
        assert forall|i: int, j: int| 0 <= i < j < init.len() implies #[trigger] init[i].0
            != #[trigger] init[j].0 by {
            assert(init[i] == h[i] && init[j] == h[j]);
        }
        lemma_list_add_each_distinct(init);
        assert(!(exists|i: int| 0 <= i < init.len() && #[trigger] init[i].0 == e.0)) by {
            assert forall|i: int| 0 <= i < init.len() implies #[trigger] init[i].0 != e.0 by {
                assert(init[i] == h[i]);
                assert(e == h[h.len() - 1]);
            }
        }
        assert(init.push(e) =~= h);
    }
}

/// A list read from the wire form: each CRLF-separated line cut at `": "` and added.
pub open spec fn spec_parse_headers(s: Seq<char>) -> Seq<HeaderView> {
    list_add_each(Seq::empty(), line_pairs(split_seq(s, crlf())))
}

/// The first header whose name matches (ignoring case), or `None`.
pub fn header(headers: &Vec<Header>, name: &str) -> (r: Option<Header>)
    ensures
        match r {
            Some(p) => first_header(pair_views(headers@), name@) == Some((p.0@, p.1@)),
            None => first_header(pair_views(headers@), name@) is None,
        },
{
    let mut i: usize = 0;
    while i < headers.len()
        invariant
            i <= headers@.len(),
            first_header(pair_views(headers@), name@) == first_header_from(
                pair_views(headers@),
                name@,
                i as int,
            ),
        decreases headers@.len() - i,
    {
        if names_match(headers[i].0.as_str(), name) {
            return Some((headers[i].0.clone(), headers[i].1.clone()));
        }
        i = i + 1;
    }
    None
}

/// The wire form of a list: `"name: value"` lines separated by CRLF.
pub fn headers_to_string(headers: &Vec<Header>) -> (r: String)
    ensures
        r@ == spec_wire_string(pair_views(headers@)),
{
    let h = Headers { vec: clone_list(headers) };
    h.to_wire_string()
}

fn clone_list(headers: &Vec<Header>) -> (r: Vec<Header>)
    ensures
        pair_views(r@) == pair_views(headers@),
{
    let mut v: Vec<Header> = Vec::new();
    let mut i: usize = 0;
    while i < headers.len()
        invariant
            i <= headers@.len(),
            pair_views(v@) == pair_views(headers@).take(i as int),
        decreases headers@.len() - i,
    {
        let p = (headers[i].0.clone(), headers[i].1.clone());
        let ghost before = v@;
        v.push(p);
        proof {
            crate::headers::lemma_pair_views_push(before, p);
            assert(pair_views(v@) =~= pair_views(headers@).take(i + 1));
        }
        i = i + 1;
    }
    proof {
        assert(pair_views(headers@).take(i as int) =~= pair_views(headers@));
    }
    v
}

/// A new list: the header's value is appended, after `", "`, to each header with exactly
/// its name, or the header is appended when there is none.
pub fn add_header(headers: &Vec<Header>, header: Header) -> (r: Vec<Header>)
    ensures
        pair_views(r@) == list_add(pair_views(headers@), header.0@, header.1@),
{
    let ghost h = pair_views(headers@);
    let ghost n = header.0@;
    let ghost val = header.1@;
    let mut new: Vec<Header> = Vec::new();
    let mut exists = false;
    let mut i: usize = 0;
    while i < headers.len()
        invariant
            i <= headers@.len(),
            h == pair_views(headers@),
            n == header.0@,
            val == header.1@,
            new@.len() == i,
            exists == (exists|k: int| 0 <= k < i && #[trigger] h[k].0 == n),
            forall|k: int|
                0 <= k < i ==> #[trigger] pair_views(new@)[k] == if h[k].0 == n {
                    (h[k].0, h[k].1 + comma_space() + val)
                } else {
                    h[k]
                },
        decreases headers@.len() - i,
    {
        let ghost before = new@;
        let same = crate::text::str_eq(headers[i].0.as_str(), header.0.as_str());
        proof {
            assert(h[i as int].0 == headers@[i as int].0@);
        }
        if same {
            let joined = concat3(headers[i].1.as_str(), comma_space_str(), header.1.as_str());
            new.push((headers[i].0.clone(), joined));
            exists = true;
        } else {
            new.push((headers[i].0.clone(), headers[i].1.clone()));
        }
        proof {
            assert forall|k: int| 0 <= k < i + 1 implies #[trigger] pair_views(new@)[k] == if h[k].0 == n {
                (h[k].0, h[k].1 + comma_space() + val)
            } else {
                h[k]
            } by {
                if k < i {
                    assert(new@[k] == before[k]);
                    assert(pair_views(before)[k] == pair_views(new@)[k]);
                }
            }
        }
        i = i + 1;
    }
    if !exists {
        let ghost before = new@;
        new.push(header);
        proof {
            assert forall|k: int| 0 <= k < h.len() implies h[k].0 != n by {
                if h[k].0 == n {
                    assert(exists|k: int| 0 <= k < i && #[trigger] h[k].0 == n);
                }
            }
            assert(pair_views(before) =~= h);
            crate::headers::lemma_pair_views_push(before, header);
            assert(pair_views(new@) =~= h.push((n, val)));
        }
    } else {
        proof {
            assert(pair_views(new@) =~= list_add(h, n, val));
        }
    }
    new
}

/// A list read from the wire form; each line must hold a `": "`.
pub fn parse_headers(header_string: &str) -> (r: Vec<Header>)
    requires
        all_have_colon(split_seq(header_string@, crlf())),
    ensures
        pair_views(r@) == spec_parse_headers(header_string@),
{
    let lines = split_str(header_string, crlf_str());
    let mut headers: Vec<Header> = Vec::new();
    let mut i: usize = 0;
    while i < lines.len()
        invariant
            i <= lines@.len(),
            str_views(lines@) == split_seq(header_string@, crlf()),
            all_have_colon(str_views(lines@)),
            pair_views(headers@) == list_add_each(
                Seq::empty(),
                line_pairs(str_views(lines@)).take(i as int),
            ),
        decreases lines@.len() - i,
    {
        let line = lines[i];
        proof {
            assert(crate::text::contains_seq(str_views(lines@)[i as int], colon_space()));
            crate::headers::lemma_split_two(line@, colon_space());
        }
        let pair = split_str(line, colon_space_str());
        proof {
            assert(str_views(pair@)[0] == pair@[0]@);
            assert(str_views(pair@)[1] == pair@[1]@);
            assert(line_pairs(str_views(lines@)).take(i + 1).drop_last() =~= line_pairs(
                str_views(lines@),
            ).take(i as int));
        }
        headers = add_header(&headers, (pair[0].to_owned(), pair[1].to_owned()));
        i = i + 1;
    }
    proof {
        assert(line_pairs(str_views(lines@)).take(i as int) =~= line_pairs(str_views(lines@)));
    }
    headers
}

/// The Content-Length of a list, read as a number; its value must be one.
pub fn content_length_header(headers: &Vec<Header>) -> (r: Option<usize>)
    requires
        first_header(pair_views(headers@), "Content-Length"@) matches Some(p) ==> spec_parse_usize(
            p.1,
        ) is Some,
    ensures
        r == (match first_header(pair_views(headers@), "Content-Length"@) {
            Some(p) => spec_parse_usize(p.1),
            None => None,
        }),
{
    match header(headers, "Content-Length") {
        Some(p) => parse_usize(p.1.as_str()),
        None => None,
    }
}

/// A list read from the browser form `"name: value; name: value"`; each piece must hold
/// a `": "`.
pub fn js_headers_from_string(str: &str) -> (r: Vec<Header>)
    requires
        all_have_colon(split_seq(str@, semicolon_space())),
    ensures
        pair_views(r@) == spec_js_from_string(str@),
{
    Headers::js_headers_from_string(str).vec
}

/// The browser form of a list: `"name: value"` separated by `"; "`.
pub fn js_headers_to_string(headers: &Vec<Header>) -> (r: String)
    ensures
        r@ == spec_js_string(pair_views(headers@)),
{
    Headers::js_headers_to_string(headers)
}

} // verus!
