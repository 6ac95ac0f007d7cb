//! HTTP header fields: an ordered list of `(name, value)` pairs whose names are
//! compared case-insensitively and whose case is preserved.

use vstd::prelude::*;

use crate::text::{
    colon_space, colon_space_str, comma_space, comma_space_str, concat3, contains_seq, contains_str, crlf,
    crlf_str, find_from, join_seq, join_strings, lemma_find_from, lemma_no_occurrence_concat,
    lemma_split_concat, lemma_split_join, lemma_split_whole, names_match, occurs_at, decimal, lemma_parse_decimal,
    parse_usize, same_name, semicolon_space, semicolon_space_str, spec_parse_usize,
    spec_to_lowercase, split_from, split_seq, split_str, str_eq, str_views, string_views,
    to_lowercase,
};

verus! {

pub type HeaderType = (String, String);

pub type HeadersType = Vec<HeaderType>;

/// The view of one header: its name and value as characters.
pub type HeaderView = (Seq<char>, Seq<char>);

pub struct Headers {
    pub vec: HeadersType,
}

/// The views of a list of `(String, String)` pairs.
pub open spec fn pair_views(v: Seq<(String, String)>) -> Seq<HeaderView> {
    Seq::new(v.len(), |i: int| (v[i].0@, v[i].1@))
}

/// The views of a list of `(&str, &str)` pairs.
pub open spec fn str_pair_views(v: Seq<(&str, &str)>) -> Seq<HeaderView> {
    Seq::new(v.len(), |i: int| (v[i].0@, v[i].1@))
}

impl View for Headers {
    type V = Seq<HeaderView>;

    open spec fn view(&self) -> Seq<HeaderView> {
        pair_views(self.vec@)
    }
}

// ---------------------------------------------------------------- the model

/// Some header of `h` has a name that matches `n`.
pub open spec fn has_name(h: Seq<HeaderView>, n: Seq<char>) -> bool {
    exists|i: int| 0 <= i < h.len() && same_name(#[trigger] h[i].0, n)
}

/// The value of the first header at index `>= i` whose name matches `n`.
pub open spec fn get_from(h: Seq<HeaderView>, n: Seq<char>, i: int) -> Option<Seq<char>>
    decreases h.len() - i,
{
    if i < 0 || i >= h.len() {
        None
    } else if same_name(h[i].0, n) {
        Some(h[i].1)
    } else {
        get_from(h, n, i + 1)
    }
}

/// The value of the first header whose name matches `n`.
pub open spec fn spec_get(h: Seq<HeaderView>, n: Seq<char>) -> Option<Seq<char>> {
    get_from(h, n, 0)
}

/// Adding a header: every header whose name matches gets `", "` and the new value
/// appended to its value; if none matches, the header is appended.
pub open spec fn spec_add(h: Seq<HeaderView>, n: Seq<char>, v: Seq<char>) -> Seq<HeaderView> {
    if has_name(h, n) {
        Seq::new(
            h.len(),
            |i: int|
                if same_name(h[i].0, n) {
                    (h[i].0, h[i].1 + comma_space() + v)
                } else {
                    h[i]
                },
        )
    } else {
        h.push((n, v))
    }
}

/// Replacing a header: every header whose name matches gets the new value, keeping
/// its own name; if none matches, the header is appended.
pub open spec fn spec_replace(h: Seq<HeaderView>, n: Seq<char>, v: Seq<char>) -> Seq<HeaderView> {
    if has_name(h, n) {
        Seq::new(h.len(), |i: int| if same_name(h[i].0, n) { (h[i].0, v) } else { h[i] })
    } else {
        h.push((n, v))
    }
}

/// The headers whose names do not match `n`, in order.
pub open spec fn spec_remove(h: Seq<HeaderView>, n: Seq<char>) -> Seq<HeaderView>
    decreases h.len(),
{
    if h.len() == 0 {
        h
    } else if same_name(h.last().0, n) {
        spec_remove(h.drop_last(), n)
    } else {
        spec_remove(h.drop_last(), n).push(h.last())
    }
}

/// Adding each of `pairs` in turn to `h`.
pub open spec fn add_each(h: Seq<HeaderView>, pairs: Seq<HeaderView>) -> Seq<HeaderView>
    decreases pairs.len(),
{
    if pairs.len() == 0 {
        h
    } else {
        let last = pairs.last();
        spec_add(add_each(h, pairs.drop_last()), last.0, last.1)
    }
}

/// For each of `names` in order, the name paired with its value in `h`, if it has one.
pub open spec fn spec_filter(h: Seq<HeaderView>, names: Seq<Seq<char>>) -> Seq<HeaderView>
    decreases names.len(),
{
    if names.len() == 0 {
        Seq::empty()
    } else {
        let n = names.last();
        match spec_get(h, n) {
            Some(v) => spec_filter(h, names.drop_last()).push((n, v)),
            None => spec_filter(h, names.drop_last()),
        }
    }
}

/// The headers that `h.add_all(other)` gives: `other` with each header of `h` added in
/// turn.
pub open spec fn spec_add_all(h: Seq<HeaderView>, other: Seq<HeaderView>) -> Seq<HeaderView> {
    add_each(other, h)
}

/// `"name: value"`
pub open spec fn header_line(e: HeaderView) -> Seq<char> {
    e.0 + colon_space() + e.1
}

/// The header lines of `h`, in order.
pub open spec fn header_lines(h: Seq<HeaderView>) -> Seq<Seq<char>> {
    Seq::new(h.len(), |i: int| header_line(h[i]))
}

/// The wire form: header lines separated by CRLF.
pub open spec fn spec_wire_string(h: Seq<HeaderView>) -> Seq<char> {
    join_seq(header_lines(h), crlf())
}

/// The form used by browsers: header lines separated by `"; "`.
pub open spec fn spec_js_string(h: Seq<HeaderView>) -> Seq<char> {
    join_seq(header_lines(h), semicolon_space())
}

/// A line `"name: value"` read back: the text before the first `": "` and the text
/// between it and the next one.
pub open spec fn line_pair(line: Seq<char>) -> HeaderView {
    let parts = split_seq(line, colon_space());
    (parts[0], parts[1])
}

/// Every piece holds a `": "`.
pub open spec fn all_have_colon(pieces: Seq<Seq<char>>) -> bool {
    forall|i: int| 0 <= i < pieces.len() ==> contains_seq(#[trigger] pieces[i], colon_space())
}

/// The pairs that a list of lines gives.
pub open spec fn line_pairs(lines: Seq<Seq<char>>) -> Seq<HeaderView> {
    Seq::new(lines.len(), |i: int| line_pair(lines[i]))
}

/// Headers read from their wire form.
pub open spec fn spec_parse_from(s: Seq<char>) -> Seq<HeaderView> {
    if s.len() == 0 {
        Seq::empty()
    } else {
        add_each(Seq::empty(), line_pairs(split_seq(s, crlf())))
    }
}

/// `parse_from` accepts `s`: it is empty or each of its lines holds a `": "`.
pub open spec fn parse_from_ok(s: Seq<char>) -> bool {
    s.len() == 0 || all_have_colon(split_seq(s, crlf()))
}

/// Headers read from the browser form.
pub open spec fn spec_js_from_string(s: Seq<char>) -> Seq<HeaderView> {
    add_each(Seq::empty(), line_pairs(split_seq(s, semicolon_space())))
}

/// A value read as a length, or kept as the error.
pub open spec fn parse_or_else(value: Option<Seq<char>>) -> Option<Result<usize, Seq<char>>> {
    match value {
        None => None,
        Some(x) => Some(
            match spec_parse_usize(x) {
                Some(n) => Ok(n),
                None => Err(x),
            },
        ),
    }
}

/// All pieces are equal to the first.
pub open spec fn all_same(pieces: Seq<Seq<char>>) -> bool {
    forall|i: int| 0 <= i < pieces.len() ==> #[trigger] pieces[i] == pieces[0]
}

/// The Content-Length of `h`: absent, a length, or the unreadable value. A value that
/// lists one value several times (`"5, 5"`) counts as that value.
pub open spec fn spec_content_length(h: Seq<HeaderView>) -> Option<Result<usize, Seq<char>>> {
    let value = parse_or_else(spec_get(h, "Content-Length"@));
    match value {
        Some(Err(hv)) => {
            let parts = split_seq(hv, comma_space());
            if all_same(parts) {
                parse_or_else(Some(parts[0]))
            } else {
                value
            }
        },
        _ => value,
    }
}

/// The view of a content length read from headers.
pub open spec fn length_view(r: Option<Result<usize, String>>) -> Option<Result<usize, Seq<char>>> {
    match r {
        None => None,
        Some(Ok(n)) => Some(Ok(n)),
        Some(Err(e)) => Some(Err(e@)),
    }
}

/// The names of headers that may not be taken from trailers, in lowercase.
pub open spec fn disallowed_trailer_names() -> Seq<Seq<char>> {
    seq![
        "transfer-encoding"@,
        "content-length"@,
        "host"@,
        "cache-control"@,
        "max-forwards"@,
        "te"@,
        "authorization"@,
        "set-cookie"@,
        "content-encoding"@,
        "content-type"@,
        "content-range"@,
        "trailer"@,
    ]
}

pub open spec fn is_disallowed_trailer_spec(name: Seq<char>) -> bool {
    disallowed_trailer_names().contains(spec_to_lowercase(name))
}

// ---------------------------------------------------------------- executable

/// The value of the first header at index `>= i` whose name matches `name`.
fn find_value(v: &HeadersType, name: &str, i: usize) -> (r: Option<String>)
    requires
        i <= v@.len(),
    ensures
        match r {
            Some(s) => get_from(pair_views(v@), name@, i as int) == Some(s@),
            None => get_from(pair_views(v@), name@, i as int) == None::<Seq<char>>,
        },
{
    let mut k = i;
    while k < v.len()
        invariant
            i <= k <= v@.len(),
            get_from(pair_views(v@), name@, i as int) == get_from(pair_views(v@), name@, k as int),
        decreases v@.len() - k,
    {
        if names_match(v[k].0.as_str(), name) {
            return Some(v[k].1.clone());
        }
        k = k + 1;
    }
    None
}

impl Headers {
    pub fn empty() -> (r: Headers)
        ensures
            r@ == Seq::<HeaderView>::empty(),
    {
        let r = Headers { vec: Vec::new() };
        proof {
            assert(r@ =~= Seq::<HeaderView>::empty());
        }
        r
    }

    /// The headers `pairs` added one after another to no headers.
    pub fn from(pairs: Vec<(&str, &str)>) -> (r: Headers)
        ensures
            r@ == add_each(Seq::empty(), str_pair_views(pairs@)),
    {
        let mut headers = Headers::empty();
        let mut i: usize = 0;
        while i < pairs.len()
            invariant
                i <= pairs@.len(),
                headers@ == add_each(Seq::empty(), str_pair_views(pairs@).take(i as int)),
            decreases pairs@.len() - i,
        {
            let pair = pairs[i];
            headers = headers.add(pair);
            proof {
                assert(str_pair_views(pairs@).take(i + 1).drop_last() =~= str_pair_views(
                    pairs@,
                ).take(i as int));
            }
            i = i + 1;
        }
        proof {
            assert(str_pair_views(pairs@).take(i as int) =~= str_pair_views(pairs@));
        }
        headers
    }

    /// A copy of `headers`.
    pub fn from_headers(headers: &Headers) -> (r: Headers)
        ensures
            r@ == headers@,
    {
        let mut v: HeadersType = Vec::new();
        let mut i: usize = 0;
        while i < headers.vec.len()
            invariant
                i <= headers.vec@.len(),
                pair_views(v@) == pair_views(headers.vec@).take(i as int),
            decreases headers.vec@.len() - i,
        {
            let e = (headers.vec[i].0.clone(), headers.vec[i].1.clone());
            let ghost old_v = v@;
            v.push(e);
            proof {
                lemma_pair_views_push(old_v, e);
                assert(pair_views(v@) =~= pair_views(headers.vec@).take(i + 1));
            }
            i = i + 1;
        }
        proof {
            assert(pair_views(headers.vec@).take(i as int) =~= pair_views(headers.vec@));
        }
        Headers { vec: v }
    }

    /// Adds a header, joining its value onto any header of the same name.
    pub fn add(&self, header: (&str, &str)) -> (r: Headers)
        ensures
            r@ == spec_add(self@, header.0@, header.1@),
    {
        let ghost h = self@;
        let ghost n = header.0@;
        let ghost val = header.1@;
        let mut new: HeadersType = Vec::new();
        let mut exists = false;
        let mut i: usize = 0;
        while i < self.vec.len()
            invariant
                i <= self.vec@.len(),
                h == self@,
                n == header.0@,
                val == header.1@,
                pair_views(new@) == Seq::new(
                    i as nat,
                    |k: int|
                        if same_name(h[k].0, n) {
                            (h[k].0, h[k].1 + comma_space() + val)
                        } else {
                            h[k]
                        },
                ),
                exists == (exists|k: int| 0 <= k < i && same_name(#[trigger] h[k].0, n)),
            decreases self.vec@.len() - i,
        {
            let existing = &self.vec[i];
            let ghost old_new = new@;
            proof {
                assert(h[i as int].0 == self.vec@[i as int].0@);
                assert(h[i as int].1 == self.vec@[i as int].1@);
            }
            let entry = if names_match(existing.0.as_str(), header.0) {
                let value = concat3(existing.1.as_str(), comma_space_str(), header.1);
                exists = true;
                (existing.0.clone(), value)
            } else {
                (existing.0.clone(), existing.1.clone())
            };
            new.push(entry);
            proof {
                lemma_pair_views_push(old_new, entry);
                assert(pair_views(new@) =~= Seq::new(
                    (i + 1) as nat,
                    |k: int|
                        if same_name(h[k].0, n) {
                            (h[k].0, h[k].1 + comma_space() + val)
                        } else {
                            h[k]
                        },
                ));
            }
            i = i + 1;
        }
        if !exists {
            let ghost before = new@;
            let entry = (header.0.to_owned(), header.1.to_owned());
            new.push(entry);
            proof {
                lemma_pair_views_push(before, entry);
                assert(pair_views(before) =~= h);
                assert(pair_views(new@) =~= h.push((n, val)));
            }
        } else {
            proof {
                assert(has_name(h, n));
            }
        }
        Headers { vec: new }
    }

    /// `headers` with each header of `self` added in turn.
    pub fn add_all(&self, headers: Headers) -> (r: Headers)
        ensures
            r@ == spec_add_all(self@, headers@),
    {
        let mut new = headers;
        let ghost start = new@;
        let mut i: usize = 0;
        while i < self.vec.len()
            invariant
                i <= self.vec@.len(),
                new@ == add_each(start, self@.take(i as int)),
            decreases self.vec@.len() - i,
        {
            let x = &self.vec[i];
            proof {
                assert(self@.take(i + 1).drop_last() =~= self@.take(i as int));
                assert(self@.take(i + 1).last() == self@[i as int]);
            }
            new = new.add((x.0.as_str(), x.1.as_str()));
            i = i + 1;
        }
        proof {
            assert(self@.take(i as int) =~= self@);
        }
        new
    }

    /// Sets the value of every header of the name, or appends the header.
    pub fn replace(&self, replacing: (&str, &str)) -> (r: Headers)
        ensures
            r@ == spec_replace(self@, replacing.0@, replacing.1@),
    {
        let ghost h = self@;
        let ghost n = replacing.0@;
        let ghost val = replacing.1@;
        let mut new: HeadersType = Vec::new();
        let mut exists = false;
        let mut i: usize = 0;
        while i < self.vec.len()
            invariant
                i <= self.vec@.len(),
                h == self@,
                n == replacing.0@,
                val == replacing.1@,
                pair_views(new@) == Seq::new(
                    i as nat,
                    |k: int| if same_name(h[k].0, n) { (h[k].0, val) } else { h[k] },
                ),
                exists == (exists|k: int| 0 <= k < i && same_name(#[trigger] h[k].0, n)),
            decreases self.vec@.len() - i,
        {
            let existing = &self.vec[i];
            let ghost old_new = new@;
            proof {
                assert(h[i as int].0 == self.vec@[i as int].0@);
                assert(h[i as int].1 == self.vec@[i as int].1@);
            }
            let entry = if names_match(existing.0.as_str(), replacing.0) {
                exists = true;
                (existing.0.clone(), replacing.1.to_owned())
            } else {
                (existing.0.clone(), existing.1.clone())
            };
            new.push(entry);
            proof {
                lemma_pair_views_push(old_new, entry);
                assert(pair_views(new@) =~= Seq::new(
                    (i + 1) as nat,
                    |k: int| if same_name(h[k].0, n) { (h[k].0, val) } else { h[k] },
                ));
            }
            i = i + 1;
        }
        if !exists {
            let ghost before = new@;
            let entry = (replacing.0.to_owned(), replacing.1.to_owned());
            new.push(entry);
            proof {
                lemma_pair_views_push(before, entry);
                assert(pair_views(before) =~= h);
                assert(pair_views(new@) =~= h.push((n, val)));
            }
        }
        Headers { vec: new }
    }

    /// The headers without those of the name.
    pub fn remove(&self, name: &str) -> (r: Headers)
        ensures
            r@ == spec_remove(self@, name@),
    {
        let mut new: HeadersType = Vec::new();
        let mut i: usize = 0;
        while i < self.vec.len()
            invariant
                i <= self.vec@.len(),
                pair_views(new@) == spec_remove(self@.take(i as int), name@),
            decreases self.vec@.len() - i,
        {
            let existing = &self.vec[i];
            let ghost before = pair_views(new@);
            proof {
                assert(self@.take(i + 1).drop_last() =~= self@.take(i as int));
                assert(self@.take(i + 1).last() == self@[i as int]);
            }
            if names_match(existing.0.as_str(), name) {
            } else {
                let entry = (existing.0.clone(), existing.1.clone());
                let ghost old_new = new@;
                new.push(entry);
                proof {
                    lemma_pair_views_push(old_new, entry);
                    assert(pair_views(new@) =~= before.push(self@[i as int]));
                }
            }
            i = i + 1;
        }
        proof {
            assert(self@.take(i as int) =~= self@);
        }
        Headers { vec: new }
    }

    /// The value of the first header of the name.
    pub fn get(&self, name: &str) -> (r: Option<String>)
        ensures
            match r {
                Some(s) => spec_get(self@, name@) == Some(s@),
                None => spec_get(self@, name@) == None::<Seq<char>>,
            },
    {
        find_value(&self.vec, name, 0)
    }

    /// For each of `names` in order that has a value here, that name with the value.
    pub fn filter(&self, names: Vec<&str>) -> (r: Headers)
        ensures
            r@ == spec_filter(self@, str_views(names@)),
    {
        let mut vec: HeadersType = Vec::new();
        let mut i: usize = 0;
        while i < names.len()
            invariant
                i <= names@.len(),
                pair_views(vec@) == spec_filter(self@, str_views(names@).take(i as int)),
            decreases names@.len() - i,
        {
            let name = names[i];
            let ghost before = pair_views(vec@);
            proof {
                assert(str_views(names@).take(i + 1).drop_last() =~= str_views(names@).take(
                    i as int,
                ));
                assert(str_views(names@).take(i + 1).last() == name@);
            }
            match self.get(name) {
                Some(value) => {
                    let entry = (name.to_owned(), value);
                    let ghost old_vec = vec@;
                    vec.push(entry);
                    proof {
                        lemma_pair_views_push(old_vec, entry);
                        assert(pair_views(vec@) =~= before.push((name@, value@)));
                        assert(pair_views(vec@) =~= spec_filter(
                            self@,
                            str_views(names@).take(i + 1),
                        ));
                    }
                },
                None => {},
            }
            i = i + 1;
        }
        proof {
            assert(str_views(names@).take(i as int) =~= str_views(names@));
        }
        Headers { vec }
    }

    pub fn is_empty(&self) -> (r: bool)
        ensures
            r == (self@.len() == 0),
    {
        self.vec.len() == 0
    }

    /// Some header has the name.
    pub fn has(&self, header_name: &str) -> (r: bool)
        ensures
            r == spec_get(self@, header_name@).is_some(),
    {
        self.get(header_name).is_some()
    }

    /// The value read as a length, or kept as the error.
    fn parse_or_else_value(value: Option<String>) -> (r: Option<Result<usize, String>>)
        ensures
            length_view(r) == parse_or_else(
                match value {
                    Some(s) => Some(s@),
                    None => None,
                },
            ),
    {
        match value {
            None => None,
            Some(x) => match parse_usize(x.as_str()) {
                Some(n) => Some(Ok(n)),
                None => Some(Err(x)),
            },
        }
    }

    /// The Content-Length header read as a length (see `spec_content_length`).
    pub fn content_length_header(&self) -> (r: Option<Result<usize, String>>)
        ensures
            length_view(r) == spec_content_length(self@),
    {
        let name = "Content-Length";
        let value = self.get(name);
        let value = Self::parse_or_else_value(value);
        match value {
            Some(Err(header_value)) => {
                let split = split_str(header_value.as_str(), comma_space_str());
                let ghost parts = split_seq(header_value@, comma_space());
                proof {
                    assert(parts.len() > 0) by {
                        lemma_split_nonempty(header_value@, comma_space());
                    }
                }
                let first = split[0];
                let mut all = true;
                let mut i: usize = 0;
                while i < split.len()
                    invariant
                        i <= split@.len(),
                        str_views(split@) == parts,
                        parts.len() > 0,
                        first@ == parts[0],
                        all == (forall|k: int| 0 <= k < i ==> #[trigger] parts[k] == parts[0]),
                    decreases split@.len() - i,
                {
                    if !str_eq(split[i], first) {
                        all = false;
                    }
                    proof {
                        assert(parts[i as int] == split@[i as int]@);
                    }
                    i = i + 1;
                }
                if all {
                    Self::parse_or_else_value(Some(first.to_owned()))
                } else {
                    Some(Err(header_value))
                }
            },
            _ => value,
        }
    }

    /// Headers read from their wire form: lines separated by CRLF, each `"name: value"`.
    pub fn parse_from(header_string: &str) -> (r: Headers)
        requires
            parse_from_ok(header_string@),
        ensures
            r@ == spec_parse_from(header_string@),
    {
        if header_string.unicode_len() == 0 {
            return Headers::empty();
        }
        let lines = split_str(header_string, crlf_str());
        Self::add_lines(&lines, colon_space_str())
    }

    /// Headers read from their wire form as `parse_from` reads them, or `None` where
    /// `parse_from` cannot read them (a line holds no `": "`).
    pub fn try_parse_from(header_string: &str) -> (r: Option<Headers>)
        ensures
            r is None <==> !parse_from_ok(header_string@),
            r matches Some(h) ==> h@ == spec_parse_from(header_string@),
    {
        if header_string.unicode_len() == 0 {
            return Some(Headers::empty());
        }
        let lines = split_str(header_string, crlf_str());
        let ghost whole = header_string@;
        assert(whole.len() > 0);
        assert(str_views(lines@) == split_seq(whole, crlf()));
        let mut i: usize = 0;
        while i < lines.len()
            invariant
                i <= lines@.len(),
                whole == header_string@,
                whole.len() > 0,
                str_views(lines@) == split_seq(whole, crlf()),
                forall|k: int| 0 <= k < i ==> contains_seq(#[trigger] str_views(lines@)[k], colon_space()),
            decreases lines@.len() - i,
        {
            if !contains_str(lines[i], colon_space_str()) {
                proof {
                    assert(!contains_seq(str_views(lines@)[i as int], colon_space()));
                    assert(!all_have_colon(str_views(lines@)));
                }
                return None;
            }
            i = i + 1;
        }
        Some(Self::add_lines(&lines, colon_space_str()))
    }

    /// Adds, in order, the pair that each line gives when cut at `sep`.
    fn add_lines(lines: &Vec<&str>, sep: &str) -> (r: Headers)
        requires
            sep@ == colon_space(),
            all_have_colon(str_views(lines@)),
        ensures
            r@ == add_each(Seq::empty(), line_pairs(str_views(lines@))),
    {
        let mut acc = Headers::empty();
        let mut i: usize = 0;
        while i < lines.len()
            invariant
                i <= lines@.len(),
                sep@ == colon_space(),
                all_have_colon(str_views(lines@)),
                acc@ == add_each(Seq::empty(), line_pairs(str_views(lines@)).take(i as int)),
            decreases lines@.len() - i,
        {
            let line = lines[i];
            proof {
                assert(contains_seq(str_views(lines@)[i as int], colon_space()));
                lemma_split_two(line@, colon_space());
            }
            let pair = split_str(line, sep);
            acc = acc.add((pair[0], pair[1]));
            proof {
                let lp = line_pairs(str_views(lines@));
                assert(lp.take(i + 1).drop_last() =~= lp.take(i as int));
                assert(lp.take(i + 1).last() == line_pair(line@));
            }
            i = i + 1;
        }
        proof {
            assert(line_pairs(str_views(lines@)).take(i as int) =~= line_pairs(str_views(lines@)));
        }
        acc
    }

    /// The header lines joined with `sep`.
    fn join_lines(headers: &HeadersType, sep: &str) -> (r: String)
        ensures
            r@ == join_seq(header_lines(pair_views(headers@)), sep@),
    {
        let mut lines: Vec<String> = Vec::new();
        let mut i: usize = 0;
        while i < headers.len()
            invariant
                i <= headers@.len(),
                string_views(lines@) == header_lines(pair_views(headers@)).take(i as int),
            decreases headers@.len() - i,
        {
            let line = concat3(headers[i].0.as_str(), colon_space_str(), headers[i].1.as_str());
            let ghost old_lines = lines@;
            lines.push(line);
            proof {
                lemma_string_views_push(old_lines, line);
                assert(string_views(lines@) =~= header_lines(pair_views(headers@)).take(i + 1));
            }
            i = i + 1;
        }
        proof {
            assert(header_lines(pair_views(headers@)).take(i as int) =~= header_lines(
                pair_views(headers@),
            ));
        }
        join_strings(&lines, sep)
    }

    /// The wire form: `"name: value"` lines separated by CRLF.
    pub fn to_wire_string(&self) -> (r: String)
        ensures
            r@ == spec_wire_string(self@),
    {
        Self::join_lines(&self.vec, crlf_str())
    }

    /// Headers read from the browser form `"name: value; name: value"`.
    pub fn js_headers_from_string(str: &str) -> (r: Headers)
        requires
            all_have_colon(split_seq(str@, semicolon_space())),
        ensures
            r@ == spec_js_from_string(str@),
    {
        let pieces = split_str(str, semicolon_space_str());
        Self::add_lines(&pieces, colon_space_str())
    }

    /// The browser form of headers: `"name: value"` separated by `"; "`.
    pub fn js_headers_to_string(headers: &HeadersType) -> (r: String)
        ensures
            r@ == spec_js_string(pair_views(headers@)),
    {
        Self::join_lines(headers, semicolon_space_str())
    }
}

/// The name is one that may not be taken from trailers into headers.
pub fn is_disallowed_trailer(name: &str) -> (r: bool)
    ensures
        r == is_disallowed_trailer_spec(name@),
{
    let lower = to_lowercase(name);
    let names = disallowed_trailers();
    let mut i: usize = 0;
    while i < names.len()
        invariant
            i <= names@.len(),
            str_views(names@) == disallowed_trailer_names(),
            lower@ == spec_to_lowercase(name@),
            forall|k: int| 0 <= k < i ==> names@[k]@ != lower@,
        decreases names@.len() - i,
    {
        if str_eq(names[i], lower.as_str()) {
            proof {
                assert(disallowed_trailer_names()[i as int] == lower@);
            }
            return true;
        }
        i = i + 1;
    }
    proof {
        if disallowed_trailer_names().contains(lower@) {
            let k = choose|k: int| 0 <= k < disallowed_trailer_names().len() && disallowed_trailer_names()[k] == lower@;
            assert(names@[k]@ == lower@);
        }
    }
    false
}

/// The names of headers that may not be taken from trailers.
pub fn disallowed_trailers() -> (r: Vec<&'static str>)
    ensures
        str_views(r@) == disallowed_trailer_names(),
{
    let r = vec![
        "transfer-encoding",
        "content-length",
        "host",
        "cache-control",
        "max-forwards",
        "te",
        "authorization",
        "set-cookie",
        "content-encoding",
        "content-type",
        "content-range",
        "trailer",
    ];
    proof {
        assert(str_views(r@) =~= disallowed_trailer_names());
    }
    r
}

/// The Content-Type header with the value.
pub fn content_type_header(value: &str) -> (r: (&'static str, &str))
    ensures
        r.0@ == "Content-Type"@,
        r.1 == value,
{
    ("Content-Type", value)
}

/// The Cache-Control header with the value.
pub fn cache_control_header(value: &str) -> (r: (&'static str, &str))
    ensures
        r.0@ == "Cache-Control"@,
        r.1 == value,
{
    ("Cache-Control", value)
}



/// The message with the header appended to its headers (no merging with a header of
/// the same name).
pub fn add_header<'a>(header: HeaderType, to: crate::http_message::HttpMessage<'a>) -> (r: crate::http_message::HttpMessage<'a>)
    ensures
        match to {
            crate::http_message::HttpMessage::Request(q) => r matches crate::http_message::HttpMessage::Request(q2)
                && q2@ == (crate::http_message::RequestView {
                headers: q@.headers.push((header.0@, header.1@)),
                ..q@
            }),
            crate::http_message::HttpMessage::Response(s) => r matches crate::http_message::HttpMessage::Response(s2)
                && s2@ == (crate::http_message::ResponseView {
                headers: s@.headers.push((header.0@, header.1@)),
                ..s@
            }),
        },
{
    match to {
        crate::http_message::HttpMessage::Request(req) => {
            let mut headers = req.headers;
            let ghost before = headers.vec@;
            headers.vec.push(header);
            proof {
                lemma_pair_views_push(before, header);
            }
            crate::http_message::HttpMessage::Request(crate::http_message::Request { headers, ..req })
        },
        crate::http_message::HttpMessage::Response(res) => {
            let mut headers = res.headers;
            let ghost before = headers.vec@;
            headers.vec.push(header);
            proof {
                lemma_pair_views_push(before, header);
            }
            crate::http_message::HttpMessage::Response(crate::http_message::Response { headers, ..res })
        },
    }
}

// ---------------------------------------------------------------- laws

/// Neither the name nor the value of the header holds `": "` or CRLF, so its wire line
/// reads back as the same header.
pub open spec fn wire_safe(e: HeaderView) -> bool {
    &&& !contains_seq(e.0, colon_space())
    &&& !contains_seq(e.1, colon_space())
    &&& !contains_seq(e.0, crlf())
    &&& !contains_seq(e.1, crlf())
}

/// No two headers have the same name, ignoring case.
pub open spec fn distinct_names(h: Seq<HeaderView>) -> bool {
    forall|i: int, j: int| 0 <= i < j < h.len() ==> !same_name(#[trigger] h[i].0, #[trigger] h[j].0)
}

/// Looking a name up after a header was pushed on the end: the earlier headers win.
proof fn lemma_get_push(s: Seq<HeaderView>, e: HeaderView, m: Seq<char>, i: int)
    requires
        0 <= i <= s.len(),
    ensures
        get_from(s.push(e), m, i) == (match get_from(s, m, i) {
            Some(x) => Some(x),
            None => if same_name(e.0, m) {
                Some(e.1)
            } else {
                None
            },
        }),
    decreases s.len() - i,
{
    if i < s.len() {
        assert(s.push(e)[i] == s[i]);
        lemma_get_push(s, e, m, i + 1);
    } else {
        assert(s.push(e)[i] == e);
        assert(get_from(s.push(e), m, i + 1) == None::<Seq<char>>);
    }
}

/// Looking a name up after `add` when the name was there: the value of each matching
/// header has the new value appended.
proof fn lemma_get_add_present(h: Seq<HeaderView>, n: Seq<char>, v: Seq<char>, m: Seq<char>, i: int)
    requires
        has_name(h, n),
        0 <= i <= h.len(),
    ensures
        get_from(spec_add(h, n, v), m, i) == (match get_from(h, m, i) {
            Some(x) => Some(
                if same_name(m, n) {
                    x + comma_space() + v
                } else {
                    x
                },
            ),
            None => None,
        }),
    decreases h.len() - i,
{
    let h2 = spec_add(h, n, v);
    if i < h.len() {
        lemma_get_add_present(h, n, v, m, i + 1);
    }
}

/// Looking a name up after `replace` when the name was there.
proof fn lemma_get_replace_present(h: Seq<HeaderView>, n: Seq<char>, v: Seq<char>, m: Seq<char>, i: int)
    requires
        has_name(h, n),
        0 <= i <= h.len(),
    ensures
        get_from(spec_replace(h, n, v), m, i) == (match get_from(h, m, i) {
            Some(x) => Some(
                if same_name(m, n) {
                    v
                } else {
                    x
                },
            ),
            None => None,
        }),
    decreases h.len() - i,
{
    if i < h.len() {
        lemma_get_replace_present(h, n, v, m, i + 1);
    }
}

/// Adding a header makes its name give the earlier value with `", "` and the new value
/// appended, or the new value if there was none; other names give what they gave.
pub proof fn law_headers_get_after_add(h: Seq<HeaderView>, n: Seq<char>, v: Seq<char>, m: Seq<char>)
    ensures
        spec_get(spec_add(h, n, v), n) == Some(
            match spec_get(h, n) {
                Some(old) => old + comma_space() + v,
                None => v,
            },
        ),
        !same_name(m, n) ==> spec_get(spec_add(h, n, v), m) == spec_get(h, m),
{
    if has_name(h, n) {
        lemma_get_add_present(h, n, v, n, 0);
        lemma_get_add_present(h, n, v, m, 0);
        let j = choose|j: int| 0 <= j < h.len() && same_name(#[trigger] h[j].0, n);
        lemma_get_finds(h, n, 0, j);
    } else {
        lemma_get_push(h, (n, v), n, 0);
        lemma_get_push(h, (n, v), m, 0);
        lemma_get_absent(h, n, 0);
    }
}

/// Replacing a header makes its name give the new value; other names give what they gave.
pub proof fn law_headers_get_after_replace(h: Seq<HeaderView>, n: Seq<char>, v: Seq<char>, m: Seq<char>)
    ensures
        spec_get(spec_replace(h, n, v), n) == Some(v),
        !same_name(m, n) ==> spec_get(spec_replace(h, n, v), m) == spec_get(h, m),
{
    if has_name(h, n) {
        lemma_get_replace_present(h, n, v, n, 0);
        lemma_get_replace_present(h, n, v, m, 0);
        let j = choose|j: int| 0 <= j < h.len() && same_name(#[trigger] h[j].0, n);
        lemma_get_finds(h, n, 0, j);
    } else {
        lemma_get_push(h, (n, v), n, 0);
        lemma_get_push(h, (n, v), m, 0);
        lemma_get_absent(h, n, 0);
    }
}

/// Removing a header leaves its name with no value; other names give what they gave.
pub proof fn law_headers_get_after_remove(h: Seq<HeaderView>, n: Seq<char>, m: Seq<char>)
    ensures
        spec_get(spec_remove(h, n), n) == None::<Seq<char>>,
        !same_name(m, n) ==> spec_get(spec_remove(h, n), m) == spec_get(h, m),
    decreases h.len(),
{
    if h.len() > 0 {
        let init = h.drop_last();
        let e = h.last();
        law_headers_get_after_remove(init, n, m);
        assert(init.push(e) =~= h);
        lemma_get_push(init, e, m, 0);
        lemma_get_push(init, e, n, 0);
        if !same_name(e.0, n) {
            lemma_get_push(spec_remove(init, n), e, m, 0);
            lemma_get_push(spec_remove(init, n), e, n, 0);
        }
    }
}

/// A value found from index `i`: some header at or after `i` matches.
pub proof fn lemma_get_finds(h: Seq<HeaderView>, n: Seq<char>, i: int, j: int)
    requires
        0 <= i <= j < h.len(),
        same_name(h[j].0, n),
    ensures
        get_from(h, n, i) is Some,
    decreases j - i,
{
    if i < j && !same_name(h[i].0, n) {
        lemma_get_finds(h, n, i + 1, j);
    }
}

/// No header at or after `i` matches: no value.
proof fn lemma_get_absent(h: Seq<HeaderView>, n: Seq<char>, i: int)
    requires
        !has_name(h, n),
        0 <= i,
    ensures
        get_from(h, n, i) == None::<Seq<char>>,
    decreases h.len() - i,
{
    if i < h.len() {
        assert(!same_name(h[i].0, n));
        lemma_get_absent(h, n, i + 1);
    }
}


/// A Content-Length whose value is the decimal form of a length reads as that length.
pub proof fn law_content_length_of_decimal(h: Seq<HeaderView>, n: usize)
    requires
        spec_get(h, "Content-Length"@) == Some(decimal(n as nat)),
    ensures
        spec_content_length(h) == Some(Ok::<usize, Seq<char>>(n)),
{
    lemma_parse_decimal(n);
}

/// Adding headers with distinct names one after another to no headers gives them back.
proof fn lemma_add_each_distinct(h: Seq<HeaderView>)
    requires
        distinct_names(h),
    ensures
        add_each(Seq::empty(), h) == h,
    decreases h.len(),
{
    if h.len() > 0 {
        let init = h.drop_last();
        let e = h.last();
        assert(distinct_names(init)) by {
            assert forall|i: int, j: int| 0 <= i < j < init.len() implies !same_name(
                #[trigger] init[i].0,
                #[trigger] init[j].0,
            ) by {
                assert(init[i] == h[i] && init[j] == h[j]);
            }
        }
        lemma_add_each_distinct(init);
        assert(!has_name(init, e.0)) by {
            if has_name(init, e.0) {
                let i = choose|i: int| 0 <= i < init.len() && same_name(#[trigger] init[i].0, e.0);
                assert(h[i] == init[i]);
                assert(!same_name(h[i].0, h[h.len() - 1].0));
            }
        }
        assert(init.push(e) =~= h);
    }
}

proof fn lemma_colon_space_has_no_crlf()
    ensures
        !contains_seq(colon_space(), crlf()),
{
    assert forall|j: int| !occurs_at(colon_space(), crlf(), j) by {
        if occurs_at(colon_space(), crlf(), j) {
            assert(j == 0);
            assert(colon_space().subrange(0, 2)[0] == ':');
        }
    }
}

/// A header line read back gives the header.
pub(crate) proof fn lemma_line_pair(e: HeaderView)
    requires
        wire_safe(e),
    ensures
        line_pair(header_line(e)) == e,
        !contains_seq(header_line(e), crlf()),
        header_line(e).len() >= 2,
{
    let pieces = seq![e.0, e.1];
    assert(pieces.drop_last() =~= seq![e.0]);
    assert(join_seq(pieces.drop_last(), colon_space()) == e.0);
    assert(join_seq(pieces, colon_space()) == header_line(e));
    lemma_split_join(pieces, colon_space());
    lemma_colon_space_has_no_crlf();
    lemma_no_occurrence_concat(e.0, colon_space(), crlf());
    lemma_no_occurrence_concat(e.0 + colon_space(), e.1, crlf());
}

/// The wire form of headers reads back as the same headers, when no name or value
/// holds `": "` or CRLF and no two names are the same ignoring case.
pub proof fn law_headers_wire_round_trip(h: Seq<HeaderView>)
    requires
        forall|i: int| 0 <= i < h.len() ==> wire_safe(#[trigger] h[i]),
        distinct_names(h),
    ensures
        parse_from_ok(spec_wire_string(h)),
        spec_parse_from(spec_wire_string(h)) == h,
{
    let lines = header_lines(h);
    let s = spec_wire_string(h);
    if h.len() == 0 {
        assert(lines.len() == 0);
        assert(s.len() == 0);
        assert(h =~= Seq::<HeaderView>::empty());
    } else {
        assert forall|i: int| 0 <= i < lines.len() implies !contains_seq(#[trigger] lines[i], crlf()) by {
            lemma_line_pair(h[i]);
        }
        lemma_split_join(lines, crlf());
        lemma_line_pair(h.last());
        lemma_join_len(lines, crlf());
        assert(line_pairs(lines) =~= h) by {
            assert forall|i: int| 0 <= i < h.len() implies line_pairs(lines)[i] == h[i] by {
                lemma_line_pair(h[i]);
            }
        }
        assert(all_have_colon(split_seq(s, crlf()))) by {
            assert forall|i: int| 0 <= i < lines.len() implies contains_seq(#[trigger] lines[i], colon_space()) by {
                assert(lines[i].subrange(h[i].0.len() as int, h[i].0.len() + 2int) =~= colon_space());
                assert(occurs_at(lines[i], colon_space(), h[i].0.len() as int));
            }
        }
        lemma_add_each_distinct(h);
    }
}

proof fn lemma_join_len(pieces: Seq<Seq<char>>, sep: Seq<char>)
    requires
        pieces.len() > 0,
    ensures
        join_seq(pieces, sep).len() >= pieces.last().len(),
{
}

// ---------------------------------------------------------------- facts about views

pub proof fn lemma_pair_views_push(v: Seq<(String, String)>, x: (String, String))
    ensures
        pair_views(v.push(x)) == pair_views(v).push((x.0@, x.1@)),
{
    assert(pair_views(v.push(x)) =~= pair_views(v).push((x.0@, x.1@)));
}

pub proof fn lemma_string_views_push(v: Seq<String>, x: String)
    ensures
        string_views(v.push(x)) == string_views(v).push(x@),
{
    assert(string_views(v.push(x)) =~= string_views(v).push(x@));
}

// ---------------------------------------------------------------- facts about splitting

/// Splitting always gives at least one piece.
pub proof fn lemma_split_nonempty(s: Seq<char>, pat: Seq<char>)
    requires
        pat.len() > 0,
    ensures
        split_seq(s, pat).len() > 0,
{
    lemma_find_from(s, pat, 0);
}

/// Splitting a string that holds the pattern gives at least two pieces.
pub proof fn lemma_split_two(s: Seq<char>, pat: Seq<char>)
    requires
        pat.len() > 0,
        contains_seq(s, pat),
    ensures
        split_seq(s, pat).len() >= 2,
{
    lemma_find_from(s, pat, 0);
    let i = choose|i: int| occurs_at(s, pat, i);
    assert(find_from(s, pat, 0) != -1);
    let j = find_from(s, pat, 0);
    lemma_split_from_nonempty(s, pat, j + pat.len());
}

pub proof fn lemma_split_from_nonempty(s: Seq<char>, pat: Seq<char>, start: int)
    requires
        pat.len() > 0,
        0 <= start <= s.len(),
    ensures
        split_from(s, pat, start).len() > 0,
{
    lemma_find_from(s, pat, start);
}


/// Adding a header keeps names distinct (ignoring case).
pub proof fn lemma_add_keeps_distinct(h: Seq<HeaderView>, n: Seq<char>, v: Seq<char>)
    requires
        distinct_names(h),
    ensures
        distinct_names(spec_add(h, n, v)),
{
    let r = spec_add(h, n, v);
    if has_name(h, n) {
        assert forall|i: int, j: int| 0 <= i < j < r.len() implies !same_name(#[trigger] r[i].0, #[trigger] r[j].0) by {
            assert(r[i].0 == h[i].0 && r[j].0 == h[j].0);
        }
    } else {
        assert forall|i: int, j: int| 0 <= i < j < r.len() implies !same_name(#[trigger] r[i].0, #[trigger] r[j].0) by {
            if j == h.len() {
                assert(r[i] == h[i]);
                assert(!same_name(h[i].0, n));
            } else {
                assert(r[i] == h[i] && r[j] == h[j]);
            }
        }
    }
}

proof fn lemma_add_each_keeps_distinct(h: Seq<HeaderView>, pairs: Seq<HeaderView>)
    requires
        distinct_names(h),
    ensures
        distinct_names(add_each(h, pairs)),
    decreases pairs.len(),
{
    if pairs.len() > 0 {
        lemma_add_each_keeps_distinct(h, pairs.drop_last());
        lemma_add_keeps_distinct(add_each(h, pairs.drop_last()), pairs.last().0, pairs.last().1);
    }
}

/// Headers read from any wire form never hold two headers of the same name (ignoring
/// case): a repeated name is read into the one header.
pub proof fn law_parsed_names_distinct(s: Seq<char>)
    ensures
        distinct_names(spec_parse_from(s)),
{
    if s.len() > 0 {
        lemma_add_each_keeps_distinct(Seq::empty(), line_pairs(split_seq(s, crlf())));
    }
}

/// Reading a header block is adding its lines one by one: a block, CRLF and one more
/// line read as the block's headers with that line's header added (a name already
/// there gets `", "` and the value appended), and read exactly when both parts do.
pub proof fn law_parse_from_adds_lines(a: Seq<char>, b: Seq<char>)
    requires
        a.len() > 0,
        !contains_seq(b, crlf()),
    ensures
        spec_parse_from(a + crlf() + b) == spec_add(spec_parse_from(a), line_pair(b).0, line_pair(b).1),
        parse_from_ok(a + crlf() + b) <==> parse_from_ok(a) && contains_seq(b, colon_space()),
{
    assert(crate::text::simple_separator(crlf())) by {
        assert(crlf()[0] == '\r' && crlf()[1] == '\n');
    }
    lemma_split_concat(a, b, crlf());
    lemma_split_whole(b, crlf());
    let la = split_seq(a, crlf());
    let all = la + seq![b];
    assert(split_seq(a + crlf() + b, crlf()) == all);
    assert(line_pairs(all).drop_last() =~= line_pairs(la));
    assert(line_pairs(all).last() == line_pair(b));
    assert((a + crlf() + b).len() > 0);
    if parse_from_ok(a) && contains_seq(b, colon_space()) {
        assert forall|i: int| 0 <= i < all.len() implies contains_seq(#[trigger] all[i], colon_space()) by {
            if i < la.len() {
                assert(all[i] == la[i]);
            } else {
                assert(all[i] == b);
            }
        }
    }
    if parse_from_ok(a + crlf() + b) {
        assert forall|i: int| 0 <= i < la.len() implies contains_seq(#[trigger] la[i], colon_space()) by {
            assert(all[i] == la[i]);
        }
        assert(all[la.len() as int] == b);
    }
}


/// One header line, whose name and value hold neither `": "` nor CRLF, reads as that one
/// header.
pub proof fn law_parse_single_line(e: HeaderView)
    requires
        wire_safe(e),
    ensures
        parse_from_ok(header_line(e)),
        spec_parse_from(header_line(e)) == seq![e],
{
    assert(crate::text::simple_separator(crlf())) by {
        assert(crlf()[0] == '\r' && crlf()[1] == '\n');
    }
    lemma_line_pair(e);
    let line = header_line(e);
    lemma_split_whole(line, crlf());
    assert(line.subrange(e.0.len() as int, e.0.len() + 2int) =~= colon_space());
    assert(occurs_at(line, colon_space(), e.0.len() as int));
    assert(line_pairs(seq![line]) =~= seq![e]);
    assert(seq![e].drop_last() =~= Seq::<HeaderView>::empty());
    assert(!has_name(Seq::<HeaderView>::empty(), e.0));
    assert(Seq::<HeaderView>::empty().push(e) =~= seq![e]);
    assert(line.len() > 0);
    assert(split_seq(line, crlf()) == seq![line]);
    let ps = line_pairs(split_seq(line, crlf()));
    assert(ps == seq![e]);
    assert(add_each(Seq::empty(), ps.drop_last()) == Seq::<HeaderView>::empty());
    assert(add_each(Seq::empty(), ps) == spec_add(Seq::empty(), e.0, e.1));
}

} // verus!
