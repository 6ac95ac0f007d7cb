//! URIs split into scheme, authority, path, query and fragment, following the
//! component grammar of RFC 3986 (appendix B):
//! `^(([^:/?#]+):)?(//([^/?#]*))?([^?#]*)(\?([^#]*))?(#(.*))?`

use vstd::prelude::*;

use crate::text::chars_of;

verus! {

#[derive(PartialEq, Debug, Copy, Clone)]
pub struct Uri<'a> {
    pub scheme: Option<&'a str>,
    pub authority: Option<&'a str>,
    pub path: &'a str,
    pub query: Option<&'a str>,
    pub fragment: Option<&'a str>,
}

/// The components of a URI as characters.
pub struct UriView {
    pub scheme: Option<Seq<char>>,
    pub authority: Option<Seq<char>>,
    pub path: Seq<char>,
    pub query: Option<Seq<char>>,
    pub fragment: Option<Seq<char>>,
}

pub open spec fn opt_view(o: Option<&str>) -> Option<Seq<char>> {
    match o {
        Some(s) => Some(s@),
        None => None,
    }
}

impl<'a> View for Uri<'a> {
    type V = UriView;

    open spec fn view(&self) -> UriView {
        UriView {
            scheme: opt_view(self.scheme),
            authority: opt_view(self.authority),
            path: self.path@,
            query: opt_view(self.query),
            fragment: opt_view(self.fragment),
        }
    }
}

/// Where each component ends: the first of its stop characters.
pub enum Stop {
    /// `:`, `/`, `?` or `#`
    Scheme,
    /// `/`, `?` or `#`
    Authority,
    /// `?` or `#`
    Path,
    /// `#`
    Query,
    /// a line feed (what `.` in a regular expression does not match)
    Fragment,
}

pub open spec fn is_stop(stop: Stop, c: char) -> bool {
    match stop {
        Stop::Scheme => c == ':' || c == '/' || c == '?' || c == '#',
        Stop::Authority => c == '/' || c == '?' || c == '#',
        Stop::Path => c == '?' || c == '#',
        Stop::Query => c == '#',
        Stop::Fragment => c == '\n',
    }
}

/// The first index `>= i` holding a stop character, or the length.
pub open spec fn scan_until(s: Seq<char>, i: int, stop: Stop) -> int
    decreases s.len() - i,
{
    if i < 0 || i >= s.len() {
        if i < 0 {
            0
        } else {
            i
        }
    } else if is_stop(stop, s[i]) {
        i
    } else {
        scan_until(s, i + 1, stop)
    }
}

/// The boundaries of the components of `s`.
pub struct Bounds {
    pub scheme_end: int,
    pub has_scheme: bool,
    pub authority_start: int,
    pub has_authority: bool,
    pub authority_end: int,
    pub path_end: int,
    pub has_query: bool,
    pub query_end: int,
    pub has_fragment: bool,
    pub fragment_end: int,
}

pub open spec fn uri_bounds(s: Seq<char>) -> Bounds {
    let e1 = scan_until(s, 0, Stop::Scheme);
    let has_scheme = 0 < e1 < s.len() && s[e1] == ':';
    let p0 = if has_scheme {
        e1 + 1
    } else {
        0
    };
    let has_authority = p0 + 2 <= s.len() && s[p0] == '/' && s[p0 + 1] == '/';
    let a_end = if has_authority {
        scan_until(s, p0 + 2, Stop::Authority)
    } else {
        p0
    };
    let path_end = scan_until(s, a_end, Stop::Path);
    let has_query = path_end < s.len() && s[path_end] == '?';
    let q_end = if has_query {
        scan_until(s, path_end + 1, Stop::Query)
    } else {
        path_end
    };
    let has_fragment = q_end < s.len() && s[q_end] == '#';
    let f_end = if has_fragment {
        scan_until(s, q_end + 1, Stop::Fragment)
    } else {
        q_end
    };
    Bounds {
        scheme_end: e1,
        has_scheme,
        authority_start: p0 + 2,
        has_authority,
        authority_end: a_end,
        path_end,
        has_query,
        query_end: q_end,
        has_fragment,
        fragment_end: f_end,
    }
}

/// The components the grammar gives for `s`.
pub open spec fn spec_parse_uri(s: Seq<char>) -> UriView {
    let b = uri_bounds(s);
    UriView {
        scheme: if b.has_scheme {
            Some(s.take(b.scheme_end))
        } else {
            None
        },
        authority: if b.has_authority {
            Some(s.subrange(b.authority_start, b.authority_end))
        } else {
            None
        },
        path: s.subrange(b.authority_end, b.path_end),
        query: if b.has_query {
            Some(s.subrange(b.path_end + 1, b.query_end))
        } else {
            None
        },
        fragment: if b.has_fragment {
            Some(s.subrange(b.query_end + 1, b.fragment_end))
        } else {
            None
        },
    }
}

/// The text of a URI: `scheme:` `//authority` `path` `?query` `#fragment`, each part
/// present when its component is.
pub open spec fn spec_uri_string(u: UriView) -> Seq<char> {
    (match u.scheme {
        Some(s) => s.push(':'),
        None => Seq::empty(),
    }) + (match u.authority {
        Some(a) => seq!['/', '/'] + a,
        None => Seq::empty(),
    }) + u.path + (match u.query {
        Some(q) => seq!['?'] + q,
        None => Seq::empty(),
    }) + (match u.fragment {
        Some(f) => seq!['#'] + f,
        None => Seq::empty(),
    })
}

pub proof fn lemma_scan_until(s: Seq<char>, i: int, stop: Stop)
    requires
        0 <= i <= s.len(),
    ensures
        i <= scan_until(s, i, stop) <= s.len(),
        scan_until(s, i, stop) < s.len() ==> is_stop(stop, s[scan_until(s, i, stop)]),
        forall|k: int| i <= k < scan_until(s, i, stop) ==> !is_stop(stop, #[trigger] s[k]),
    decreases s.len() - i,
{
    if i < s.len() && !is_stop(stop, s[i]) {
        lemma_scan_until(s, i + 1, stop);
    }
}

pub proof fn lemma_uri_bounds(s: Seq<char>)
    ensures
        ({
            let b = uri_bounds(s);
            &&& 0 <= b.scheme_end <= s.len()
            &&& b.has_scheme ==> b.scheme_end + 1 <= s.len()
            &&& b.has_authority ==> b.authority_start <= b.authority_end
            &&& (if b.has_scheme {
                b.scheme_end + 1
            } else {
                0
            }) <= b.authority_end <= b.path_end <= b.query_end <= b.fragment_end <= s.len()
            &&& b.has_query ==> b.path_end + 1 <= b.query_end
            &&& b.has_fragment ==> b.query_end + 1 <= b.fragment_end
            &&& !b.has_authority ==> b.authority_end == (if b.has_scheme {
                b.scheme_end + 1
            } else {
                0
            })
            &&& !b.has_query ==> b.query_end == b.path_end
            &&& !b.has_fragment ==> b.fragment_end == b.query_end
        }),
{
    let b = uri_bounds(s);
    lemma_scan_until(s, 0, Stop::Scheme);
    let p0 = if b.has_scheme {
        b.scheme_end + 1
    } else {
        0
    };
    if b.has_authority {
        lemma_scan_until(s, p0 + 2, Stop::Authority);
    }
    lemma_scan_until(s, b.authority_end, Stop::Path);
    if b.has_query {
        lemma_scan_until(s, b.path_end + 1, Stop::Query);
    }
    if b.has_fragment {
        lemma_scan_until(s, b.query_end + 1, Stop::Fragment);
    }
}

fn is_stop_exec(stop: &Stop, c: char) -> (r: bool)
    ensures
        r == is_stop(*stop, c),
{
    match stop {
        Stop::Scheme => c == ':' || c == '/' || c == '?' || c == '#',
        Stop::Authority => c == '/' || c == '?' || c == '#',
        Stop::Path => c == '?' || c == '#',
        Stop::Query => c == '#',
        Stop::Fragment => c == '\n',
    }
}

fn scan(cs: &Vec<char>, i: usize, stop: Stop) -> (r: usize)
    requires
        i <= cs@.len(),
    ensures
        r as int == scan_until(cs@, i as int, stop),
{
    let mut k = i;
    while k < cs.len() && !is_stop_exec(&stop, cs[k])
        invariant
            i <= k <= cs@.len(),
            scan_until(cs@, i as int, stop) == scan_until(cs@, k as int, stop),
        decreases cs@.len() - k,
    {
        k = k + 1;
    }
    k
}

impl<'a> Uri<'a> {
    /// The components of `value` (see `spec_parse_uri`).
    pub fn parse(value: &'a str) -> (r: Uri<'a>)
        ensures
            r@ == spec_parse_uri(value@),
    {
        let cs = chars_of(value);
        let n = cs.len();
        let ghost s = value@;
        proof {
            lemma_uri_bounds(s);
        }
        let e1 = scan(&cs, 0, Stop::Scheme);
        let has_scheme = 0 < e1 && e1 < n && cs[e1] == ':';
        let p0 = if has_scheme {
            e1 + 1
        } else {
            0
        };
        let has_authority = p0 < n && n - p0 >= 2 && cs[p0] == '/' && cs[p0 + 1] == '/';
        let a_end = if has_authority {
            scan(&cs, p0 + 2, Stop::Authority)
        } else {
            p0
        };
        let path_end = scan(&cs, a_end, Stop::Path);
        let has_query = path_end < n && cs[path_end] == '?';
        let q_end = if has_query {
            scan(&cs, path_end + 1, Stop::Query)
        } else {
            path_end
        };
        let has_fragment = q_end < n && cs[q_end] == '#';
        let f_end = if has_fragment {
            scan(&cs, q_end + 1, Stop::Fragment)
        } else {
            q_end
        };
        let scheme = if has_scheme {
            Some(value.substring_char(0, e1))
        } else {
            None
        };
        let authority = if has_authority {
            Some(value.substring_char(p0 + 2, a_end))
        } else {
            None
        };
        let path = value.substring_char(a_end, path_end);
        let query = if has_query {
            Some(value.substring_char(path_end + 1, q_end))
        } else {
            None
        };
        let fragment = if has_fragment {
            Some(value.substring_char(q_end + 1, f_end))
        } else {
            None
        };
        let r = Uri { scheme, authority, path, query, fragment };
        proof {
            let b = uri_bounds(s);
            assert(b.has_scheme == has_scheme);
            if has_scheme {
                assert(s.take(e1 as int) =~= s.subrange(0, e1 as int));
            }
        }
        r
    }

    pub fn with_path(self, path: &'a str) -> (r: Uri<'a>)
        ensures
            r@ == (UriView { path: path@, ..self@ }),
    {
        Uri { path, ..self }
    }

    pub fn with_scheme(self, scheme: &'a str) -> (r: Uri<'a>)
        ensures
            r@ == (UriView { scheme: Some(scheme@), ..self@ }),
    {
        Uri { scheme: Some(scheme), ..self }
    }

    pub fn with_authority(self, authority: &'a str) -> (r: Uri<'a>)
        ensures
            r@ == (UriView { authority: Some(authority@), ..self@ }),
    {
        Uri { authority: Some(authority), ..self }
    }

    pub fn with_query(self, query: &'a str) -> (r: Uri<'a>)
        ensures
            r@ == (UriView { query: Some(query@), ..self@ }),
    {
        Uri { query: Some(query), ..self }
    }

    pub fn with_fragment(self, fragment: &'a str) -> (r: Uri<'a>)
        ensures
            r@ == (UriView { fragment: Some(fragment@), ..self@ }),
    {
        Uri { fragment: Some(fragment), ..self }
    }

    /// The text of the URI (see `spec_uri_string`).
    pub fn to_string(&self) -> (r: String)
        ensures
            r@ == spec_uri_string(self@),
    {
        let mut out = String::new();
        proof {
            reveal_strlit(":");
            reveal_strlit("//");
            reveal_strlit("?");
            reveal_strlit("#");
        }
        let ghost u = self@;
        let ghost p1 = match u.scheme {
            Some(s) => s.push(':'),
            None => Seq::empty(),
        };
        if let Some(scheme) = self.scheme {
            out.append(scheme);
            out.append(":");
        }
        proof {
            assert(out@ =~= p1);
        }
        let ghost p2 = match u.authority {
            Some(a) => seq!['/', '/'] + a,
            None => Seq::empty(),
        };
        if let Some(authority) = self.authority {
            out.append("//");
            out.append(authority);
        }
        proof {
            assert(out@ =~= p1 + p2);
        }
        out.append(self.path);
        let ghost p4 = match u.query {
            Some(q) => seq!['?'] + q,
            None => Seq::empty(),
        };
        if let Some(query) = self.query {
            out.append("?");
            out.append(query);
        }
        proof {
            assert(out@ =~= p1 + p2 + u.path + p4);
        }
        let ghost p5 = match u.fragment {
            Some(f) => seq!['#'] + f,
            None => Seq::empty(),
        };
        if let Some(fragment) = self.fragment {
            out.append("#");
            out.append(fragment);
        }
        proof {
            assert(out@ =~= p1 + p2 + u.path + p4 + p5);
        }
        out
    }
}

// ---------------------------------------------------------------- laws

/// The grammar reads all of `s` unless a fragment holds a line feed.
pub open spec fn parse_reads_all(s: Seq<char>) -> bool {
    uri_bounds(s).fragment_end == s.len()
}

/// Writing the components of a URI back gives the text they were read from, whenever
/// the grammar reads the whole text.
#[verifier::rlimit(30)]
pub proof fn law_uri_round_trip(s: Seq<char>)
    requires
        parse_reads_all(s),
    ensures
        spec_uri_string(spec_parse_uri(s)) == s,
{
    let b = uri_bounds(s);
    lemma_uri_bounds(s);
    let u = spec_parse_uri(s);
    let p0 = if b.has_scheme {
        b.scheme_end + 1
    } else {
        0
    };
    let part1 = match u.scheme {
        Some(x) => x.push(':'),
        None => Seq::empty(),
    };
    assert(part1 =~= s.take(p0));
    let part2 = match u.authority {
        Some(a) => seq!['/', '/'] + a,
        None => Seq::empty(),
    };
    assert(part2 =~= s.subrange(p0, b.authority_end));
    let part4 = match u.query {
        Some(q) => seq!['?'] + q,
        None => Seq::empty(),
    };
    assert(part4 =~= s.subrange(b.path_end, b.query_end));
    let part5 = match u.fragment {
        Some(f) => seq!['#'] + f,
        None => Seq::empty(),
    };
    assert(part5 =~= s.subrange(b.query_end, b.fragment_end));
    assert(s.take(p0) + s.subrange(p0, b.authority_end) =~= s.take(b.authority_end));
    assert(s.take(b.authority_end) + s.subrange(b.authority_end, b.path_end) =~= s.take(b.path_end));
    assert(s.take(b.path_end) + s.subrange(b.path_end, b.query_end) =~= s.take(b.query_end));
    assert(s.take(b.query_end) + s.subrange(b.query_end, b.fragment_end) =~= s);
}

/// A text without line feeds is read whole.
pub proof fn lemma_reads_all_without_line_feed(s: Seq<char>)
    requires
        !s.contains('\n'),
    ensures
        parse_reads_all(s),
{
    let b = uri_bounds(s);
    lemma_uri_bounds(s);
    lemma_scan_until(s, b.authority_end, Stop::Path);
    if b.has_query {
        lemma_scan_until(s, b.path_end + 1, Stop::Query);
    }
    if b.has_fragment {
        lemma_scan_until(s, b.query_end + 1, Stop::Fragment);
        if b.fragment_end < s.len() {
            assert(s[b.fragment_end] == '\n');
            assert(s.contains('\n'));
        }
    }
}


/// The authority of a URI is the longest run after `//` that holds no `/`, `?` or `#`
/// (so a `:port` stays in it): it holds none of them, and what follows it is the path,
/// which is empty or starts with `/`. The path holds no `?` or `#`, the query no `#`.
/// The scheme, when there is one, holds none of `:`, `/`, `?` or `#` and is not empty.
pub proof fn law_uri_authority_extent(s: Seq<char>)
    ensures
        ({
            let u = spec_parse_uri(s);
            &&& u.authority matches Some(a) ==> {
                &&& forall|i: int| 0 <= i < a.len() ==> #[trigger] a[i] != '/' && a[i] != '?' && a[i]
                    != '#'
                &&& u.path.len() == 0 || u.path[0] == '/'
            }
            &&& forall|i: int| 0 <= i < u.path.len() ==> #[trigger] u.path[i] != '?' && u.path[i]
                != '#'
            &&& u.query matches Some(q) ==> forall|i: int| 0 <= i < q.len() ==> #[trigger] q[i] != '#'
            &&& u.scheme matches Some(sc) ==> {
                &&& sc.len() > 0
                &&& forall|i: int| 0 <= i < sc.len() ==> #[trigger] sc[i] != ':' && sc[i] != '/'
                    && sc[i] != '?' && sc[i] != '#'
            }
        }),
{
    let b = uri_bounds(s);
    let u = spec_parse_uri(s);
    lemma_scan_until(s, 0, Stop::Scheme);
    let p0 = if b.has_scheme {
        b.scheme_end + 1
    } else {
        0
    };
    if b.has_scheme {
        let sc = s.take(b.scheme_end);
        assert forall|i: int| 0 <= i < sc.len() implies #[trigger] sc[i] != ':' && sc[i] != '/'
            && sc[i] != '?' && sc[i] != '#' by {
            assert(sc[i] == s[i]);
            assert(!is_stop(Stop::Scheme, s[i]));
        }
    }
    lemma_uri_bounds(s);
    lemma_scan_until(s, b.authority_end, Stop::Path);
    assert forall|i: int| 0 <= i < u.path.len() implies #[trigger] u.path[i] != '?' && u.path[i]
        != '#' by {
        assert(u.path[i] == s[b.authority_end + i]);
        assert(!is_stop(Stop::Path, s[b.authority_end + i]));
    }
    if b.has_query {
        lemma_scan_until(s, b.path_end + 1, Stop::Query);
        let q = s.subrange(b.path_end + 1, b.query_end);
        assert forall|i: int| 0 <= i < q.len() implies #[trigger] q[i] != '#' by {
            assert(q[i] == s[b.path_end + 1 + i]);
            assert(!is_stop(Stop::Query, s[b.path_end + 1 + i]));
        }
    }
    lemma_uri_bounds(s);
    lemma_scan_until(s, b.authority_end, Stop::Path);
    assert forall|i: int| 0 <= i < u.path.len() implies #[trigger] u.path[i] != '?' && u.path[i]
        != '#' by {
        assert(u.path[i] == s[b.authority_end + i]);
        assert(!is_stop(Stop::Path, s[b.authority_end + i]));
    }
    if b.has_query {
        lemma_scan_until(s, b.path_end + 1, Stop::Query);
        let q = s.subrange(b.path_end + 1, b.query_end);
        assert forall|i: int| 0 <= i < q.len() implies #[trigger] q[i] != '#' by {
            assert(q[i] == s[b.path_end + 1 + i]);
            assert(!is_stop(Stop::Query, s[b.path_end + 1 + i]));
        }
    }
    if b.has_authority {
        lemma_scan_until(s, p0 + 2, Stop::Authority);
        let a_end = b.authority_end;
        lemma_scan_until(s, a_end, Stop::Path);
        let a = s.subrange(b.authority_start, a_end);
        assert forall|i: int| 0 <= i < a.len() implies #[trigger] a[i] != '/' && a[i] != '?' && a[i]
            != '#' by {
            assert(a[i] == s[b.authority_start + i]);
            assert(!is_stop(Stop::Authority, s[b.authority_start + i]));
        }
        if u.path.len() > 0 {
            assert(u.path[0] == s[a_end]);
            assert(!is_stop(Stop::Path, s[a_end]));
            assert(is_stop(Stop::Authority, s[a_end]));
        }
    }
}

} // verus!
