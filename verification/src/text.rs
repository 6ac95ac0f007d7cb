//! Character-level text utilities: searching, splitting, joining and decimal numbers,
//! each specified over `Seq<char>` views.

use vstd::prelude::*;

verus! {

// ---------------------------------------------------------------- separators

pub open spec fn comma_space() -> Seq<char> {
    seq![',', ' ']
}

pub open spec fn colon_space() -> Seq<char> {
    seq![':', ' ']
}

pub open spec fn semicolon_space() -> Seq<char> {
    seq![';', ' ']
}

pub open spec fn crlf() -> Seq<char> {
    seq!['\r', '\n']
}

/// `", "`
pub fn comma_space_str() -> (r: &'static str)
    ensures
        r@ == comma_space(),
{
    proof {
        reveal_strlit(", ");
    }
    ", "
}

/// `": "`
pub fn colon_space_str() -> (r: &'static str)
    ensures
        r@ == colon_space(),
{
    proof {
        reveal_strlit(": ");
    }
    ": "
}

/// `"; "`
pub fn semicolon_space_str() -> (r: &'static str)
    ensures
        r@ == semicolon_space(),
{
    proof {
        reveal_strlit("; ");
    }
    "; "
}

/// `"\r\n"`
pub fn crlf_str() -> (r: &'static str)
    ensures
        r@ == crlf(),
{
    proof {
        reveal_strlit("\r\n");
    }
    "\r\n"
}

// ---------------------------------------------------------------- searching

/// `pat` occurs in `s` starting at index `i`.
pub open spec fn occurs_at(s: Seq<char>, pat: Seq<char>, i: int) -> bool {
    0 <= i && i + pat.len() <= s.len() && s.subrange(i, i + pat.len()) == pat
}

/// The first index `>= i` where `pat` occurs in `s`, or `-1`.
pub open spec fn find_from(s: Seq<char>, pat: Seq<char>, i: int) -> int
    decreases s.len() + 1 - i,
{
    if i < 0 || i + pat.len() > s.len() {
        -1
    } else if occurs_at(s, pat, i) {
        i
    } else {
        find_from(s, pat, i + 1)
    }
}

/// `pat` occurs somewhere in `s`.
pub open spec fn contains_seq(s: Seq<char>, pat: Seq<char>) -> bool {
    exists|i: int| occurs_at(s, pat, i)
}

/// `s` begins with `prefix`.
pub open spec fn starts_with(s: Seq<char>, prefix: Seq<char>) -> bool {
    prefix.len() <= s.len() && s.subrange(0, prefix.len() as int) == prefix
}

/// `s` ends with `suffix`.
pub open spec fn ends_with(s: Seq<char>, suffix: Seq<char>) -> bool {
    suffix.len() <= s.len() && s.subrange(s.len() - suffix.len(), s.len() as int) == suffix
}

pub proof fn lemma_find_from(s: Seq<char>, pat: Seq<char>, i: int)
    requires
        0 <= i,
    ensures
        find_from(s, pat, i) == -1 || (i <= find_from(s, pat, i) && occurs_at(
            s,
            pat,
            find_from(s, pat, i),
        )),
        forall|k: int| i <= k && (find_from(s, pat, i) == -1 || k < find_from(s, pat, i)) ==> !occurs_at(s, pat, k),
    decreases s.len() + 1 - i,
{
    if i + pat.len() > s.len() {
    } else if occurs_at(s, pat, i) {
    } else {
        lemma_find_from(s, pat, i + 1);
        assert forall|k: int| i <= k && (find_from(s, pat, i) == -1 || k < find_from(s, pat, i)) implies !occurs_at(s, pat, k) by {
            if k > i {
            }
        }
    }
}

// ---------------------------------------------------------------- splitting and joining

/// The pieces of `s` from index `start` on, cut at each leftmost, non-overlapping
/// occurrence of `pat` (the behaviour of `str::split` with a non-empty pattern).
pub open spec fn split_from(s: Seq<char>, pat: Seq<char>, start: int) -> Seq<Seq<char>>
    decreases s.len() + 1 - start,
{
    if start < 0 || start > s.len() || pat.len() == 0 {
        Seq::empty()
    } else {
        let j = find_from(s, pat, start);
        if j < start || j + pat.len() > s.len() {
            seq![s.subrange(start, s.len() as int)]
        } else {
            seq![s.subrange(start, j)] + split_from(s, pat, j + pat.len())
        }
    }
}

/// `s` split at every occurrence of `pat`.
pub open spec fn split_seq(s: Seq<char>, pat: Seq<char>) -> Seq<Seq<char>> {
    split_from(s, pat, 0)
}

/// The pieces joined with `sep` between consecutive pieces.
pub open spec fn join_seq(pieces: Seq<Seq<char>>, sep: Seq<char>) -> Seq<char>
    decreases pieces.len(),
{
    if pieces.len() == 0 {
        Seq::empty()
    } else if pieces.len() == 1 {
        pieces[0]
    } else {
        join_seq(pieces.drop_last(), sep) + sep + pieces.last()
    }
}


/// A separator of two different characters, like `": "` or CRLF.
pub open spec fn two_distinct(sep: Seq<char>) -> bool {
    sep.len() == 2 && sep[0] != sep[1]
}

/// Joining two or more pieces: the first piece, the separator, then the rest joined.
pub proof fn lemma_join_front(pieces: Seq<Seq<char>>, sep: Seq<char>)
    requires
        pieces.len() >= 2,
    ensures
        join_seq(pieces, sep) == pieces[0] + sep + join_seq(pieces.drop_first(), sep),
    decreases pieces.len(),
{
    if pieces.len() == 2 {
        assert(pieces.drop_last() =~= seq![pieces[0]]);
        assert(pieces.drop_first() =~= seq![pieces[1]]);
        assert(join_seq(pieces.drop_last(), sep) == pieces[0]);
        assert(join_seq(pieces.drop_first(), sep) == pieces[1]);
    } else {
        let init = pieces.drop_last();
        let tail = pieces.drop_first();
        lemma_join_front(init, sep);
        assert(init.drop_first() =~= tail.drop_last());
        assert(tail.last() == pieces.last());
        assert(init[0] == pieces[0]);
        assert(join_seq(pieces, sep) == join_seq(init, sep) + sep + pieces.last());
        assert(join_seq(tail, sep) == join_seq(tail.drop_last(), sep) + sep + tail.last());
        assert(join_seq(pieces, sep) =~= pieces[0] + sep + join_seq(tail, sep));
    }
}

/// A separator that cannot overlap itself across a piece boundary: one character, or two
/// different ones.
pub open spec fn simple_separator(sep: Seq<char>) -> bool {
    sep.len() == 1 || two_distinct(sep)
}

/// Where the text from `k` on is a piece free of `sep` followed by `sep`, splitting from
/// `k` cuts that piece off first.
proof fn lemma_split_from_piece(x: Seq<char>, sep: Seq<char>, k: int, p: Seq<char>)
    requires
        simple_separator(sep),
        0 <= k,
        k + p.len() + sep.len() <= x.len(),
        x.subrange(k, k + p.len()) == p,
        x.subrange(k + p.len(), k + p.len() + sep.len()) == sep,
        !contains_seq(p, sep),
    ensures
        split_from(x, sep, k) == seq![p] + split_from(x, sep, k + p.len() + sep.len()),
{
    let e = k + p.len();
    let n = sep.len() as int;
    assert(occurs_at(x, sep, e));
    assert forall|j: int| k <= j < e implies !occurs_at(x, sep, j) by {
        if j + n <= e {
            if occurs_at(x, sep, j) {
                assert(p.subrange(j - k, j - k + n) =~= x.subrange(j, j + n));
                assert(occurs_at(p, sep, j - k));
            }
        } else {
            assert(n == 2 && j == e - 1);
            assert(x[j + 1] == sep[0]);
            if occurs_at(x, sep, j) {
                assert(x.subrange(j, j + 2)[1] == sep[1]);
            }
        }
    }
    lemma_find_from(x, sep, k);
    let f = find_from(x, sep, k);
    if f == -1 || f > e {
        assert(!occurs_at(x, sep, e));
    }
    assert(f == e);
}

/// Where the text from `k` to the end is a piece free of `sep`, splitting from `k` gives
/// just that piece.
proof fn lemma_split_from_last(x: Seq<char>, sep: Seq<char>, k: int)
    requires
        simple_separator(sep),
        0 <= k <= x.len(),
        !contains_seq(x.subrange(k, x.len() as int), sep),
    ensures
        split_from(x, sep, k) == seq![x.subrange(k, x.len() as int)],
{
    let p = x.subrange(k, x.len() as int);
    let n = sep.len() as int;
    lemma_find_from(x, sep, k);
    let f = find_from(x, sep, k);
    if f != -1 {
        assert(p.subrange(f - k, f - k + n) =~= x.subrange(f, f + n));
        assert(occurs_at(p, sep, f - k));
    }
}

proof fn lemma_split_join_from(x: Seq<char>, sep: Seq<char>, k: int, pieces: Seq<Seq<char>>)
    requires
        simple_separator(sep),
        pieces.len() > 0,
        forall|i: int| 0 <= i < pieces.len() ==> !contains_seq(#[trigger] pieces[i], sep),
        0 <= k <= x.len(),
        x.subrange(k, x.len() as int) == join_seq(pieces, sep),
    ensures
        split_from(x, sep, k) == pieces,
    decreases pieces.len(),
{
    if pieces.len() == 1 {
        assert(join_seq(pieces, sep) == pieces[0]);
        lemma_split_from_last(x, sep, k);
        assert(seq![pieces[0]] =~= pieces);
    } else {
        lemma_join_front(pieces, sep);
        let n = sep.len() as int;
        let p = pieces[0];
        let rest = pieces.drop_first();
        let tail = join_seq(rest, sep);
        let whole = x.subrange(k, x.len() as int);
        assert(whole == p + sep + tail);
        assert(whole.len() == p.len() + n + tail.len());
        assert forall|i: int| 0 <= i < whole.len() implies x[k + i] == #[trigger] whole[i] by {}
        assert(x.subrange(k, k + p.len()) =~= p) by {
            assert forall|i: int| 0 <= i < p.len() implies x.subrange(k, k + p.len())[i] == p[i] by {
                assert(whole[i] == p[i]);
            }
        }
        assert(x.subrange(k + p.len(), k + p.len() + n) =~= sep) by {
            assert forall|i: int| 0 <= i < n implies x.subrange(k + p.len(), k + p.len() + n)[i] == sep[i] by {
                assert(whole[p.len() + i] == sep[i]);
                assert(x[k + (p.len() + i)] == whole[p.len() + i]);
            }
        }
        lemma_split_from_piece(x, sep, k, p);
        assert(x.subrange(k + p.len() + n, x.len() as int) =~= tail) by {
            assert forall|i: int| 0 <= i < tail.len() implies x.subrange(k + p.len() + n, x.len() as int)[i]
                == tail[i] by {
                assert(whole[p.len() + n + i] == tail[i]);
                assert(x[k + (p.len() + n + i)] == whole[p.len() + n + i]);
            }
        }
        assert forall|i: int| 0 <= i < rest.len() implies !contains_seq(#[trigger] rest[i], sep) by {
            assert(rest[i] == pieces[i + 1]);
        }
        lemma_split_join_from(x, sep, k + p.len() + n, rest);
        assert(seq![p] + rest =~= pieces);
    }
}


/// Splitting a piece free of the separator, the separator, then the rest: the piece,
/// then the rest split.
pub proof fn lemma_split_prefix(a: Seq<char>, rest: Seq<char>, sep: Seq<char>)
    requires
        simple_separator(sep),
        !contains_seq(a, sep),
    ensures
        split_seq(a + sep + rest, sep) == seq![a] + split_seq(rest, sep),
{
    let x = a + sep + rest;
    assert(x.subrange(0, a.len() as int) =~= a);
    assert(x.subrange(a.len() as int, a.len() + sep.len() as int) =~= sep);
    lemma_split_from_piece(x, sep, 0, a);
    assert(x.subrange(a.len() + sep.len() as int, x.len() as int) =~= rest);
    lemma_split_from_shift(x, sep, a.len() + sep.len() as int, rest);
}

/// A text without the separator splits into itself alone.
pub proof fn lemma_split_whole(a: Seq<char>, sep: Seq<char>)
    requires
        simple_separator(sep),
        !contains_seq(a, sep),
    ensures
        split_seq(a, sep) == seq![a],
{
    assert(a.subrange(0, a.len() as int) =~= a);
    lemma_split_from_last(a, sep, 0);
}

/// Splitting two texts joined by the separator gives the pieces of the first, then the
/// pieces of the second.
pub proof fn lemma_split_concat(a: Seq<char>, b: Seq<char>, sep: Seq<char>)
    requires
        simple_separator(sep),
    ensures
        split_seq(a + sep + b, sep) == split_seq(a, sep) + split_seq(b, sep),
    decreases a.len(),
{
    if !contains_seq(a, sep) {
        lemma_split_prefix(a, b, sep);
        lemma_split_whole(a, sep);
    } else {
        lemma_find_from(a, sep, 0);
        let j = find_from(a, sep, 0);
        if j == -1 {
            let k = choose|k: int| occurs_at(a, sep, k);
            assert(!occurs_at(a, sep, k));
        }
        let a1 = a.take(j);
        let a2 = a.skip(j + sep.len());
        assert(a =~= a1 + sep + a2) by {
            assert(a.subrange(j, j + sep.len()) == sep);
        }
        assert(!contains_seq(a1, sep)) by {
            if contains_seq(a1, sep) {
                let k = choose|k: int| occurs_at(a1, sep, k);
                assert(a.subrange(k, k + sep.len()) =~= a1.subrange(k, k + sep.len()));
                assert(occurs_at(a, sep, k));
            }
        }
        lemma_split_prefix(a1, a2, sep);
        assert(a + sep + b =~= a1 + sep + (a2 + sep + b));
        lemma_split_prefix(a1, a2 + sep + b, sep);
        lemma_split_concat(a2, b, sep);
        assert(seq![a1] + (split_seq(a2, sep) + split_seq(b, sep)) =~= seq![a1] + split_seq(a2, sep)
            + split_seq(b, sep));
    }
}

/// Splitting from `k` in a text whose tail from `k` is `rest` splits `rest`.
proof fn lemma_split_from_shift(x: Seq<char>, sep: Seq<char>, k: int, rest: Seq<char>)
    requires
        simple_separator(sep),
        0 <= k <= x.len(),
        x.subrange(k, x.len() as int) == rest,
    ensures
        split_from(x, sep, k) == split_from(rest, sep, 0),
{
    lemma_split_shift_at(x, sep, k, rest, 0);
}

proof fn lemma_split_shift_at(x: Seq<char>, sep: Seq<char>, k: int, rest: Seq<char>, i: int)
    requires
        simple_separator(sep),
        0 <= k <= x.len(),
        x.subrange(k, x.len() as int) == rest,
        0 <= i <= rest.len(),
    ensures
        split_from(x, sep, k + i) == split_from(rest, sep, i),
    decreases rest.len() - i,
{
    let n = sep.len() as int;
    assert forall|j: int| 0 <= j implies occurs_at(x, sep, k + j) == occurs_at(rest, sep, j) by {
        if j + n <= rest.len() {
            assert(x.subrange(k + j, k + j + n) =~= rest.subrange(j, j + n));
        }
    }
    lemma_find_shift(x, sep, k, rest, i);
    let f = find_from(rest, sep, i);
    lemma_find_from(rest, sep, i);
    if f >= i && f + n <= rest.len() {
        assert(x.subrange(k + i, k + f) =~= rest.subrange(i, f));
        lemma_split_shift_at(x, sep, k, rest, f + n);
    } else {
        assert(x.subrange(k + i, x.len() as int) =~= rest.subrange(i, rest.len() as int));
    }
}

proof fn lemma_find_shift(x: Seq<char>, sep: Seq<char>, k: int, rest: Seq<char>, i: int)
    requires
        simple_separator(sep),
        0 <= k <= x.len(),
        x.subrange(k, x.len() as int) == rest,
        0 <= i <= rest.len(),
        forall|j: int| 0 <= j ==> occurs_at(x, sep, k + j) == occurs_at(rest, sep, j),
    ensures
        find_from(x, sep, k + i) == if find_from(rest, sep, i) == -1 {
            -1
        } else {
            k + find_from(rest, sep, i)
        },
    decreases rest.len() + 1 - i,
{
    let n = sep.len() as int;
    if i + n > rest.len() {
    } else {
        assert(occurs_at(x, sep, k + i) == occurs_at(rest, sep, i));
        if !occurs_at(rest, sep, i) {
            lemma_find_shift(x, sep, k, rest, i + 1);
        }
    }
}

/// Splitting the pieces joined with a separator that cannot overlap itself gives the
/// pieces back, when no piece holds the separator.
pub proof fn lemma_split_join(pieces: Seq<Seq<char>>, sep: Seq<char>)
    requires
        simple_separator(sep),
        pieces.len() > 0,
        forall|i: int| 0 <= i < pieces.len() ==> !contains_seq(#[trigger] pieces[i], sep),
    ensures
        split_seq(join_seq(pieces, sep), sep) == pieces,
{
    let x = join_seq(pieces, sep);
    assert(x.subrange(0, x.len() as int) =~= x);
    lemma_split_join_from(x, sep, 0, pieces);
}

/// A two-character pattern of different characters occurs in `a + b` only inside `a`,
/// inside `b`, or where `a` ends with its first character and `b` begins with its second.
pub proof fn lemma_no_occurrence_concat(a: Seq<char>, b: Seq<char>, pat: Seq<char>)
    requires
        pat.len() == 2,
        !contains_seq(a, pat),
        !contains_seq(b, pat),
        !(a.len() > 0 && b.len() > 0 && a.last() == pat[0] && b[0] == pat[1]),
    ensures
        !contains_seq(a + b, pat),
{
    let s = a + b;
    assert forall|j: int| !occurs_at(s, pat, j) by {
        if occurs_at(s, pat, j) {
            if j + 2 <= a.len() {
                assert(a.subrange(j, j + 2) =~= s.subrange(j, j + 2));
                assert(occurs_at(a, pat, j));
            } else if j >= a.len() {
                assert(b.subrange(j - a.len(), j - a.len() + 2) =~= s.subrange(j, j + 2));
                assert(occurs_at(b, pat, j - a.len()));
            } else {
                assert(s.subrange(j, j + 2)[0] == s[j]);
                assert(s.subrange(j, j + 2)[1] == s[j + 1]);
            }
        }
    }
}

/// The views of a sequence of string slices.
pub open spec fn str_views(v: Seq<&str>) -> Seq<Seq<char>> {
    Seq::new(v.len(), |i: int| v[i]@)
}

/// The views of a sequence of strings.
pub open spec fn string_views(v: Seq<String>) -> Seq<Seq<char>> {
    Seq::new(v.len(), |i: int| v[i]@)
}

// ---------------------------------------------------------------- decimal numbers

pub open spec fn digit_char(d: nat) -> char {
    if d == 0 {
        '0'
    } else if d == 1 {
        '1'
    } else if d == 2 {
        '2'
    } else if d == 3 {
        '3'
    } else if d == 4 {
        '4'
    } else if d == 5 {
        '5'
    } else if d == 6 {
        '6'
    } else if d == 7 {
        '7'
    } else if d == 8 {
        '8'
    } else {
        '9'
    }
}

/// The decimal representation of `n`, without leading zeros.
pub open spec fn decimal(n: nat) -> Seq<char>
    decreases n,
{
    if n < 10 {
        seq![digit_char(n)]
    } else {
        decimal(n / 10).push(digit_char(n % 10))
    }
}

pub open spec fn is_digit(c: char) -> bool {
    '0' <= c && c <= '9'
}

pub open spec fn digit_value(c: char) -> nat {
    (c as int - '0' as int) as nat
}

pub open spec fn all_digits(s: Seq<char>) -> bool {
    forall|i: int| 0 <= i < s.len() ==> is_digit(#[trigger] s[i])
}

/// The value of a string of decimal digits.
pub open spec fn digits_value(s: Seq<char>) -> nat
    decreases s.len(),
{
    if s.len() == 0 {
        0
    } else {
        digits_value(s.drop_last()) * 10 + digit_value(s.last())
    }
}

/// What `str::parse::<usize>` gives: an optional `+`, then one or more decimal
/// digits whose value fits in `usize`.
pub open spec fn spec_parse_usize(s: Seq<char>) -> Option<usize> {
    let d = if s.len() > 0 && s[0] == '+' {
        s.drop_first()
    } else {
        s
    };
    if d.len() > 0 && all_digits(d) && digits_value(d) <= usize::MAX {
        Some(digits_value(d) as usize)
    } else {
        None
    }
}

pub proof fn lemma_digits_value_monotone(s: Seq<char>, j: int, k: int)
    requires
        0 <= j <= k <= s.len(),
        all_digits(s),
    ensures
        digits_value(s.take(j)) <= digits_value(s.take(k)),
    decreases k - j,
{
    if j < k {
        lemma_digits_value_monotone(s, j, k - 1);
        assert(s.take(k).drop_last() =~= s.take(k - 1));
    }
}

pub proof fn lemma_digit_char(k: nat)
    requires
        k < 10,
    ensures
        is_digit(digit_char(k)),
        digit_value(digit_char(k)) == k,
        (digit_char(k) == '0') == (k == 0),
{
}

pub proof fn lemma_decimal_digits(n: nat)
    ensures
        decimal(n).len() > 0,
        all_digits(decimal(n)),
        digits_value(decimal(n)) == n,
        decimal(n)[0] != '0' || n == 0,
    decreases n,
{
    if n >= 10 {
        lemma_decimal_digits(n / 10);
        lemma_digit_char(n % 10);
        let d = decimal(n / 10);
        assert(decimal(n).drop_last() =~= d);
        assert(decimal(n)[0] == d[0]);
        assert(digits_value(decimal(n)) == digits_value(d) * 10 + digit_value(digit_char(n % 10)));
        assert(n == (n / 10) * 10 + n % 10);
        assert(all_digits(decimal(n))) by {
            assert forall|i: int| 0 <= i < decimal(n).len() implies is_digit(#[trigger] decimal(n)[i]) by {
                if i < d.len() {
                    assert(decimal(n)[i] == d[i]);
                }
            }
        }
    } else {
        lemma_digit_char(n);
        assert(decimal(n).drop_last() =~= Seq::<char>::empty());
        assert(digits_value(Seq::<char>::empty()) == 0);
    }
}

/// Parsing the decimal representation of `n` gives `n` back.
pub proof fn lemma_parse_decimal(n: usize)
    ensures
        spec_parse_usize(decimal(n as nat)) == Some(n),
{
    lemma_decimal_digits(n as nat);
}

// ---------------------------------------------------------------- executable helpers

/// The characters of `s`, in order.
pub fn chars_of(s: &str) -> (v: Vec<char>)
    ensures
        v@ == s@,
{
    let mut v: Vec<char> = Vec::new();
    for c in it: s.chars()
        invariant
            v@ == it.seq().take(it.index() as int),
    {
        v.push(c);
    }
    proof {
        assert(v@ =~= s@);
    }
    v
}

/// Equality of two string slices.
pub fn str_eq(a: &str, b: &str) -> (r: bool)
    ensures
        r == (a@ == b@),
{
    let x = a.to_owned();
    let y = b.to_owned();
    x == y
}

/// `pat` occurs in `s` at index `i`.
pub fn matches_at(s: &Vec<char>, pat: &Vec<char>, i: usize) -> (r: bool)
    ensures
        r == occurs_at(s@, pat@, i as int),
{
    if i > s.len() || pat.len() > s.len() - i {
        return false;
    }
    let mut k: usize = 0;
    while k < pat.len()
        invariant
            i + pat.len() <= s.len(),
            k <= pat.len(),
            forall|m: int| 0 <= m < k ==> s@[i + m] == pat@[m],
        decreases pat.len() - k,
    {
        if s[i + k] != pat[k] {
            proof {
                assert(s@.subrange(i as int, i + pat.len())[k as int] != pat@[k as int]);
            }
            return false;
        }
        k = k + 1;
    }
    proof {
        assert(s@.subrange(i as int, i + pat.len()) =~= pat@);
    }
    true
}

/// The first index `>= start` where `pat` occurs in `s`.
pub fn find_chars(s: &Vec<char>, pat: &Vec<char>, start: usize) -> (r: Option<usize>)
    ensures
        match r {
            Some(j) => find_from(s@, pat@, start as int) == j as int,
            None => find_from(s@, pat@, start as int) == -1,
        },
{
    if pat.len() == 0 {
        if start <= s.len() {
            proof {
                assert(s@.subrange(start as int, start as int) =~= pat@);
            }
            return Some(start);
        } else {
            return None;
        }
    }
    let mut i = start;
    while i <= s.len() && pat.len() <= s.len() - i
        invariant
            start <= i,
            pat.len() > 0,
            find_from(s@, pat@, start as int) == find_from(s@, pat@, i as int),
        decreases s.len() + 1 - i,
    {
        if matches_at(s, pat, i) {
            return Some(i);
        }
        i = i + 1;
    }
    None
}

/// `pat` occurs in `s`.
pub fn contains_str(s: &str, pat: &str) -> (r: bool)
    ensures
        r == contains_seq(s@, pat@),
{
    let cs = chars_of(s);
    let ps = chars_of(pat);
    let r = find_chars(&cs, &ps, 0);
    proof {
        lemma_find_from(s@, pat@, 0);
    }
    match r {
        Some(j) => true,
        None => false,
    }
}

/// `s` begins with `prefix`.
pub fn starts_with_str(s: &str, prefix: &str) -> (r: bool)
    ensures
        r == starts_with(s@, prefix@),
{
    let cs = chars_of(s);
    let ps = chars_of(prefix);
    matches_at(&cs, &ps, 0)
}

/// `s` ends with `suffix`.
pub fn ends_with_str(s: &str, suffix: &str) -> (r: bool)
    ensures
        r == ends_with(s@, suffix@),
{
    let cs = chars_of(s);
    let ps = chars_of(suffix);
    if ps.len() > cs.len() {
        return false;
    }
    matches_at(&cs, &ps, cs.len() - ps.len())
}

/// `s` split at every occurrence of `pat`, as `str::split` does.
pub fn split_str<'a>(s: &'a str, pat: &str) -> (r: Vec<&'a str>)
    requires
        pat@.len() > 0,
    ensures
        str_views(r@) == split_seq(s@, pat@),
{
    let cs = chars_of(s);
    let ps = chars_of(pat);
    let mut r: Vec<&'a str> = Vec::new();
    let mut start: usize = 0;
    let n = cs.len();
    loop
        invariant
            cs@ == s@,
            n == s@.len(),
            ps@ == pat@,
            pat@.len() > 0,
            start <= s@.len(),
            str_views(r@) + split_from(s@, pat@, start as int) == split_seq(s@, pat@),
        decreases s@.len() + 1 - start,
    {
        let found = find_chars(&cs, &ps, start);
        proof {
            lemma_find_from(s@, pat@, start as int);
        }
        match found {
            Some(j) => {
                proof {
                    assert(occurs_at(s@, pat@, j as int));
                    assert(j + pat@.len() <= n);
                }
                let piece = s.substring_char(start, j);
                let ghost old_r = r@;
                r.push(piece);
                proof {
                    assert(str_views(r@) =~= str_views(old_r).push(piece@));
                    assert(split_from(s@, pat@, start as int) =~= seq![piece@] + split_from(
                        s@,
                        pat@,
                        j + pat@.len(),
                    ));
                    assert(str_views(r@) + split_from(s@, pat@, j + pat@.len()) =~= str_views(old_r)
                        + split_from(s@, pat@, start as int));
                }
                start = j + ps.len();
            },
            None => {
                let piece = s.substring_char(start, cs.len());
                let ghost old_r = r@;
                r.push(piece);
                proof {
                    assert(str_views(r@) =~= str_views(old_r).push(piece@));
                    assert(split_from(s@, pat@, start as int) =~= seq![piece@]);
                    assert(str_views(r@) =~= str_views(old_r) + split_from(s@, pat@, start as int));
                }
                return r;
            },
        }
    }
}

/// The strings joined with `sep` between consecutive ones.
pub fn join_strings(parts: &Vec<String>, sep: &str) -> (r: String)
    ensures
        r@ == join_seq(string_views(parts@), sep@),
{
    let mut r = String::new();
    let mut i: usize = 0;
    while i < parts.len()
        invariant
            i <= parts.len(),
            r@ == join_seq(string_views(parts@).take(i as int), sep@),
        decreases parts.len() - i,
    {
        let ghost prev = string_views(parts@).take(i as int);
        if i > 0 {
            r.append(sep);
        }
        r.append(parts[i].as_str());
        proof {
            let next = string_views(parts@).take(i + 1);
            assert(next.drop_last() =~= prev);
            if i == 0 {
                assert(r@ =~= next[0]);
            }
        }
        i = i + 1;
    }
    proof {
        assert(string_views(parts@).take(i as int) =~= string_views(parts@));
    }
    r
}


/// `s` with every occurrence of `from` replaced by `to` (as `str::replace` does for a
/// non-empty pattern).
pub open spec fn replace_all(s: Seq<char>, from: Seq<char>, to: Seq<char>) -> Seq<char> {
    join_seq(split_seq(s, from), to)
}

/// `s` with every occurrence of `from` (which must not be empty) replaced by `to`.
pub fn replace_str(s: &str, from: &str, to: &str) -> (r: String)
    requires
        from@.len() > 0,
    ensures
        r@ == replace_all(s@, from@, to@),
{
    let pieces = split_str(s, from);
    let mut owned: Vec<String> = Vec::new();
    let mut i: usize = 0;
    while i < pieces.len()
        invariant
            i <= pieces@.len(),
            string_views(owned@) == str_views(pieces@).take(i as int),
        decreases pieces@.len() - i,
    {
        let ghost before = owned@;
        let piece = pieces[i].to_owned();
        proof {
            assert(piece@ == str_views(pieces@)[i as int]);
        }
        owned.push(piece);
        proof {
            assert(string_views(owned@) =~= string_views(before).push(piece@));
            assert(string_views(owned@) =~= str_views(pieces@).take(i + 1));
        }
        i = i + 1;
    }
    proof {
        assert(str_views(pieces@).take(i as int) =~= str_views(pieces@));
    }
    join_strings(&owned, to)
}

/// The character in upper case, for the ASCII letters `a` to `z`; others are kept.
pub open spec fn ascii_upper(c: char) -> char {
    if 'a' <= c && c <= 'z' {
        ((c as u32 - 32) as u8) as char
    } else {
        c
    }
}

/// `s` with its first character in upper case (ASCII letters only).
pub open spec fn capitalize(s: Seq<char>) -> Seq<char> {
    if s.len() == 0 {
        s
    } else {
        seq![ascii_upper(s[0])] + s.drop_first()
    }
}

/// Calls `char::to_string`: the string of the one character.
#[verifier::external_body]
pub(crate) fn string_of_char(c: char) -> (r: String)
    ensures
        r@ == seq![c],
{
    c.to_string()
}

fn upper_char(c: char) -> (r: char)
    ensures
        r == ascii_upper(c),
{
    if 'a' <= c && c <= 'z' {
        let v = (c as u32 - 32) as u8;
        v as char
    } else {
        c
    }
}

/// `s` with its first character in upper case (ASCII letters only).
pub fn capitalize_str(s: &str) -> (r: String)
    ensures
        r@ == capitalize(s@),
{
    let n = s.unicode_len();
    if n == 0 {
        return s.to_owned();
    }
    let first = upper_char(s.get_char(0));
    let mut out = string_of_char(first);
    let rest = s.substring_char(1, n);
    out.append(rest);
    proof {
        assert(out@ =~= capitalize(s@));
    }
    out
}

/// `a` followed by `b` followed by `c`.
pub fn concat3(a: &str, b: &str, c: &str) -> (r: String)
    ensures
        r@ == a@ + b@ + c@,
{
    let mut r = a.to_owned();
    r.append(b);
    r.append(c);
    r
}

/// The one-character string of decimal digit `d`.
pub fn digit_str(d: usize) -> (r: &'static str)
    requires
        d < 10,
    ensures
        r@ == seq![digit_char(d as nat)],
{
    let digits = "0123456789";
    proof {
        reveal_strlit("0123456789");
    }
    let r = digits.substring_char(d, d + 1);
    proof {
        assert(r@ =~= seq![digit_char(d as nat)]);
    }
    r
}

/// The decimal representation of `n`.
pub fn usize_to_string(n: usize) -> (r: String)
    ensures
        r@ == decimal(n as nat),
    decreases n,
{
    if n < 10 {
        digit_str(n).to_owned()
    } else {
        let mut r = usize_to_string(n / 10);
        r.append(digit_str(n % 10));
        r
    }
}

/// The value of decimal digit `c`, if it is one.
pub fn to_digit(c: char) -> (r: Option<usize>)
    ensures
        match r {
            Some(d) => is_digit(c) && d == digit_value(c) && d < 10,
            None => !is_digit(c),
        },
{
    if '0' <= c && c <= '9' {
        Some((c as u32 - '0' as u32) as usize)
    } else {
        None
    }
}

/// `str::parse::<usize>`.
pub fn parse_usize(s: &str) -> (r: Option<usize>)
    ensures
        r == spec_parse_usize(s@),
{
    let cs = chars_of(s);
    let start: usize = if cs.len() > 0 && cs[0] == '+' {
        1
    } else {
        0
    };
    let ghost d = if s@.len() > 0 && s@[0] == '+' {
        s@.drop_first()
    } else {
        s@
    };
    proof {
        assert(d =~= s@.subrange(start as int, s@.len() as int));
    }
    if start >= cs.len() {
        proof {
            assert(d.len() == 0);
        }
        return None;
    }
    let mut v: usize = 0;
    let mut i: usize = start;
    while i < cs.len()
        invariant
            cs@ == s@,
            start <= i <= cs.len(),
            d == s@.subrange(start as int, s@.len() as int),
            d == (if s@.len() > 0 && s@[0] == '+' {
                s@.drop_first()
            } else {
                s@
            }),
            forall|k: int| 0 <= k < i - start ==> is_digit(#[trigger] d[k]),
            v as nat == digits_value(d.take(i - start)),
        decreases cs.len() - i,
    {
        let dig = to_digit(cs[i]);
        match dig {
            None => {
                proof {
                    assert(d[i - start] == s@[i as int]);
                    assert(!is_digit(d[i - start]));
                    assert(!all_digits(d));
                }
                return None;
            },
            Some(x) => {
                proof {
                    assert(d[i - start] == s@[i as int]);
                    assert(d.take(i - start + 1).drop_last() =~= d.take(i - start));
                    assert(d.take(i - start + 1).last() == d[i - start]);
                    assert(digits_value(d.take(i - start + 1)) == v * 10 + x);
                }
                if v > (usize::MAX - x) / 10 {
                    // the value no longer fits; it is `None` whether or not the rest are digits
                    proof {
                        assert(digits_value(d.take(i - start + 1)) > usize::MAX) by (nonlinear_arith)
                            requires
                                v > (usize::MAX - x) / 10,
                                digits_value(d.take(i - start + 1)) == v * 10 + x,
                                x < 10,
                        ;
                        if all_digits(d) {
                            lemma_digits_value_monotone(d, i - start + 1, d.len() as int);
                            assert(d.take(d.len() as int) =~= d);
                        }
                    }
                    return None;
                }
                v = v * 10 + x;
                i = i + 1;
            },
        }
    }
    proof {
        assert(d.take(i - start) =~= d);
    }
    Some(v)
}

// ---------------------------------------------------------------- case-insensitive names

/// What `str::to_lowercase` gives for a string (a function of the string alone).
pub uninterp spec fn spec_to_lowercase(s: Seq<char>) -> Seq<char>;

/// An ASCII capital letter in lower case; any other character unchanged.
pub open spec fn ascii_lower(c: char) -> char {
    if 'A' <= c && c <= 'Z' {
        ((c as u32) + 32) as char
    } else {
        c
    }
}

/// The text with each ASCII capital letter in lower case.
pub open spec fn ascii_lowercase(s: Seq<char>) -> Seq<char> {
    Seq::new(s.len(), |i: int| ascii_lower(s[i]))
}

/// Calls `str::to_lowercase`; the result is named `spec_to_lowercase` of the argument.
/// For ASCII text, as std documents, each of `A`-`Z` becomes `a`-`z` and every other
/// character stays; what it gives for other text is left unsaid.
#[verifier::external_body]
pub(crate) fn to_lowercase(s: &str) -> (r: String)
    ensures
        r@ == spec_to_lowercase(s@),
        vstd::utf8::is_ascii_chars(s@) ==> r@ == ascii_lowercase(s@),
{
    s.to_lowercase()
}

/// Two names are the same when their lowercase forms are equal.
pub open spec fn same_name(a: Seq<char>, b: Seq<char>) -> bool {
    spec_to_lowercase(a) == spec_to_lowercase(b)
}

/// Case-insensitive comparison of two names; for ASCII names, equality once each ASCII
/// capital letter is put in lower case.
pub fn names_match(a: &str, b: &str) -> (r: bool)
    ensures
        r == same_name(a@, b@),
        vstd::utf8::is_ascii_chars(a@) && vstd::utf8::is_ascii_chars(b@) ==> (r
            <==> ascii_lowercase(a@) == ascii_lowercase(b@)),
{
    let x = to_lowercase(a);
    let y = to_lowercase(b);
    x == y
}

} // verus!
