//! Reading back what was written: the head of a message that `write_body` sends is
//! read by the start-line and header-block readers into the same start line and the
//! same headers, and a response head as `resource_and_headers` writes it is read back
//! from one buffer.

use vstd::prelude::*;
use vstd::utf8::{
    encode_scalar, encode_utf8, has_width_1_encoding, has_width_2_encoding, has_width_3_encoding,
    leading_byte_width_1, leading_byte_width_2, leading_byte_width_3, leading_byte_width_4,
    last_continuation_byte, second_last_continuation_byte, third_last_continuation_byte,
};

use vstd::utf8::decode_utf8;

use crate::chunked::{
    ascii_bytes, chunked_end, chunked_tail, frames, is_ascii_seq, lemma_ascii_encode, lemma_encode_concat,
    stream_chunks,
};
use crate::exchange::{lacks_length, request_head, request_wire, response_head, response_wire, sent_headers, spec_ensure_length, spec_start_line_parts, str_byte_len};
use crate::headers::{
    distinct_names, has_name, law_content_length_of_decimal, law_headers_get_after_add, law_headers_wire_round_trip, spec_add, spec_content_length, lemma_get_finds, parse_from_ok, spec_get,
    spec_parse_from, spec_wire_string, header_lines, wire_safe, HeaderView,
};
use crate::http_message::{method_name, status_code, status_text, BodyView, HttpVersion, Method, RequestView, ResponseView, Status};
use crate::text::{
    colon_space, contains_seq, crlf, decimal, is_digit, join_seq, lemma_decimal_digits, lemma_split_join, lemma_split_prefix,
    occurs_at, same_name,
};
use crate::uri::{spec_uri_string, UriView};
use crate::wire::{blank_line_ends_at, cr, crlf_ends_at, headers_scan, lf, start_line_scan, Scan};
use crate::buffered::{blank_line_before, crlf_before, head_scan};
use crate::buffered_message::{buffered_headers, head_parts, header_block_text, readable_head, start_words};
use crate::header_list::{first_header, lemma_list_add_each_distinct, spec_parse_headers};
use crate::headers::{all_have_colon, header_line, line_pairs};
use crate::http_message::header_block;
use crate::text::{spec_parse_usize, split_seq};

verus! {

/// The text holds no carriage return and no line feed.
pub open spec fn no_line_chars(s: Seq<char>) -> bool {
    forall|i: int| 0 <= i < s.len() ==> #[trigger] s[i] != '\r' && s[i] != '\n'
}

/// The bytes hold no carriage return and no line feed.
pub open spec fn no_line_bytes(b: Seq<u8>) -> bool {
    forall|i: int| 0 <= i < b.len() ==> #[trigger] b[i] != cr() && b[i] != lf()
}

proof fn lemma_high_bytes(y: u8)
    by (bit_vector)
    ensures
        (0xC0u8 | y) >= 0x80u8,
        (0xE0u8 | y) >= 0x80u8,
        (0xF0u8 | y) >= 0x80u8,
        (0x80u8 | y) >= 0x80u8,
{
}

/// The UTF-8 bytes of a character other than CR and LF are neither CR nor LF.
proof fn lemma_scalar_no_line_bytes(c: char)
    requires
        c != '\r' && c != '\n',
    ensures
        no_line_bytes(encode_scalar(c as u32)),
{
    let v = c as u32;
    if has_width_1_encoding(v) {
        assert((v & 0x7f) as u8 == v as u8) by (bit_vector)
            requires
                v < 128,
        ;
        assert(v != 13 && v != 10);
    } else if has_width_2_encoding(v) {
        lemma_high_bytes(((v >> 6) & 0x1F) as u8);
        lemma_high_bytes((v & 0x3F) as u8);
    } else if has_width_3_encoding(v) {
        lemma_high_bytes(((v >> 12) & 0x0F) as u8);
        lemma_high_bytes(((v >> 6) & 0x3F) as u8);
        lemma_high_bytes((v & 0x3F) as u8);
    } else {
        lemma_high_bytes(((v >> 18) & 0x7) as u8);
        lemma_high_bytes(((v >> 12) & 0x3F) as u8);
        lemma_high_bytes(((v >> 6) & 0x3F) as u8);
        lemma_high_bytes((v & 0x3F) as u8);
    }
}

/// Text without CR and LF encodes to bytes without CR and LF.
pub proof fn lemma_encode_no_line_bytes(s: Seq<char>)
    requires
        no_line_chars(s),
    ensures
        no_line_bytes(encode_utf8(s)),
    decreases s.len(),
{
    if s.len() > 0 {
        let t = s.drop_first();
        assert forall|i: int| 0 <= i < t.len() implies #[trigger] t[i] != '\r' && t[i] != '\n' by {
            assert(t[i] == s[i + 1]);
        }
        lemma_encode_no_line_bytes(t);
        assert(s[0] != '\r' && s[0] != '\n');
        lemma_scalar_no_line_bytes(s[0]);
        let a = encode_scalar(s[0] as u32);
        let b = encode_utf8(t);
        assert(encode_utf8(s) == a + b);
        assert forall|i: int| 0 <= i < (a + b).len() implies #[trigger] (a + b)[i] != cr() && (a + b)[i] != lf() by {
            if i < a.len() {
                assert((a + b)[i] == a[i]);
            } else {
                assert((a + b)[i] == b[i - a.len()]);
            }
        }
    }
}

/// The start-line reader, over a run of bytes without CR and LF ended by CRLF, writes
/// the run and stops after the CRLF.
proof fn lemma_start_line_run(r: Seq<u8>, i: int, m: int, k: int, w: Seq<u8>, limit: int)
    requires
        0 <= i <= k <= i + m + 1,
        0 <= m,
        i + m + 2 <= r.len(),
        no_line_bytes(r.subrange(i, i + m)),
        r[i + m] == cr(),
        r[i + m + 1] == lf(),
        w.len() + m < limit,
    ensures
        start_line_scan(r, k, w + r.subrange(i, if k < i + m { k } else { i + m }), limit) == (Scan::Finished {
            up_to: i + m + 2,
            out: w + r.subrange(i, i + m),
        }),
    decreases i + m + 2 - k,
{
    let wk = w + r.subrange(i, if k < i + m { k } else { i + m });
    if k < i + m {
        assert(r.subrange(i, i + m)[k - i] == r[k]);
        assert(r[k] != cr() && r[k] != lf());
        assert(wk.push(r[k]) =~= w + r.subrange(i, k + 1));
        lemma_start_line_run(r, i, m, k + 1, w, limit);
    } else if k == i + m {
        lemma_start_line_run(r, i, m, k + 1, w, limit);
    } else {
        assert(crlf_ends_at(r, k));
    }
}

/// The header-block reader, over bytes whose first blank line ends at `e`, writes them
/// up to that blank line (which it takes back off) and stops after it.
proof fn lemma_headers_run(r: Seq<u8>, k: int, e: int, w0: Seq<u8>, limit: int)
    requires
        0 <= k <= e < r.len(),
        blank_line_ends_at(r, e),
        forall|j: int| k <= j < e ==> !#[trigger] blank_line_ends_at(r, j),
        w0.len() + e < limit,
    ensures
        headers_scan(r, k, w0 + r.subrange(0, k), limit) == (Scan::Finished {
            up_to: e + 1,
            out: w0 + r.subrange(0, e - 3),
        }),
    decreases e - k,
{
    let w2 = (w0 + r.subrange(0, k)).push(r[k]);
    assert(w2 =~= w0 + r.subrange(0, k + 1));
    if k < e {
        assert(!blank_line_ends_at(r, k));
        lemma_headers_run(r, k + 1, e, w0, limit);
    } else {
        assert(w2.take(w2.len() - 4) =~= w0 + r.subrange(0, e - 3));
    }
}

/// Every line feed in the bytes is followed, within them, by a byte other than CR.
pub open spec fn lf_then_no_cr(b: Seq<u8>) -> bool {
    forall|p: int| 0 <= p < b.len() && #[trigger] b[p] == lf() ==> p + 1 < b.len() && b[p + 1] != cr()
}

proof fn lemma_crlf_bytes()
    ensures
        encode_utf8(crlf()) == seq![cr(), lf()],
{
    assert(is_ascii_seq(crlf())) by {
        assert(crlf()[0] == '\r' && crlf()[1] == '\n');
    }
    lemma_ascii_encode(crlf());
    assert(ascii_bytes(crlf()) =~= seq![cr(), lf()]);
}

/// Lines without CR and LF, none empty, joined with CRLF, encode to bytes in which each
/// line feed is followed by a byte other than CR.
proof fn lemma_joined_lines(lines: Seq<Seq<char>>)
    requires
        lines.len() > 0,
        forall|i: int| 0 <= i < lines.len() ==> no_line_chars(#[trigger] lines[i]) && lines[i].len() > 0,
    ensures
        lf_then_no_cr(encode_utf8(crate::text::join_seq(lines, crlf()))),
    decreases lines.len(),
{
    if lines.len() == 1 {
        lemma_encode_no_line_bytes(lines[0]);
    } else {
        let init = lines.drop_last();
        let last = lines.last();
        assert forall|i: int| 0 <= i < init.len() implies no_line_chars(#[trigger] init[i]) && init[i].len() > 0 by {
            assert(init[i] == lines[i]);
        }
        lemma_joined_lines(init);
        let a = encode_utf8(crate::text::join_seq(init, crlf()));
        lemma_encode_no_line_bytes(last);
        let b = encode_utf8(last);
        lemma_encode_concat(crate::text::join_seq(init, crlf()) + crlf(), last);
        lemma_encode_concat(crate::text::join_seq(init, crlf()), crlf());
        lemma_crlf_bytes();
        assert(encode_utf8(crate::text::join_seq(lines, crlf())) == a + seq![cr(), lf()] + b);
        assert(last.len() > 0);
        assert(b.len() > 0) by {
            assert(last =~= seq![last[0]] + last.drop_first());
            lemma_encode_concat(seq![last[0]], last.drop_first());
        }
        let all = a + seq![cr(), lf()] + b;
        assert forall|p: int| 0 <= p < all.len() && #[trigger] all[p] == lf() implies p + 1 < all.len() && all[p + 1] != cr() by {
            if p < a.len() {
                assert(all[p] == a[p]);
                assert(p + 1 < a.len());
                assert(all[p + 1] == a[p + 1]);
            } else if p == a.len() {
                assert(all[p] == cr());
            } else if p == a.len() + 1 {
                assert(all[p + 1] == b[0]);
                assert(b[0] != cr());
            } else {
                assert(all[p] == b[p - a.len() - 2]);
                assert(b[p - a.len() - 2] != lf());
            }
        }
    }
}

/// Bytes in which each line feed is followed by a byte other than CR, then a blank line:
/// the first blank line ends at that blank line's last byte.
proof fn lemma_first_blank_line(enc: Seq<u8>, rest: Seq<u8>)
    requires
        lf_then_no_cr(enc),
    ensures
        ({
            let r = enc + seq![cr(), lf(), cr(), lf()] + rest;
            &&& blank_line_ends_at(r, enc.len() + 3int)
            &&& forall|j: int| 0 <= j < enc.len() + 3 ==> !#[trigger] blank_line_ends_at(r, j)
        }),
{
    let r = enc + seq![cr(), lf(), cr(), lf()] + rest;
    let n = enc.len() as int;
    assert(r[n] == cr() && r[n + 1] == lf() && r[n + 2] == cr() && r[n + 3] == lf());
    assert forall|j: int| 0 <= j < n + 3 implies !#[trigger] blank_line_ends_at(r, j) by {
        if blank_line_ends_at(r, j) {
            let p = j - 2;
            assert(r[p] == lf() && r[p + 1] == cr());
            if p < n {
                assert(r[p] == enc[p]);
                assert(enc[p] == lf());
                assert(p + 1 < n);
                assert(r[p + 1] == enc[p + 1]);
            }
        }
    }
}

/// Text without CR, LF, space or colon.
pub open spec fn plain(s: Seq<char>) -> bool {
    forall|i: int| 0 <= i < s.len() ==> #[trigger] s[i] != '\r' && s[i] != '\n' && s[i] != ' ' && s[i] != ':'
}

/// A header that reads back from its wire line: neither its name nor its value holds CR,
/// LF or `": "`.
pub open spec fn header_safe(e: HeaderView) -> bool {
    &&& no_line_chars(e.0)
    &&& no_line_chars(e.1)
    &&& !contains_seq(e.0, colon_space())
    &&& !contains_seq(e.1, colon_space())
}

/// The start line of a request: `"{method} {uri} HTTP/{major}.{minor}"`.
pub open spec fn request_start_line(method: Method, uri: UriView, version: HttpVersion) -> Seq<char> {
    method_name(method) + seq![' '] + spec_uri_string(uri) + seq![' '] + version_text(version)
}

/// `"HTTP/{major}.{minor}"`
pub open spec fn version_text(version: HttpVersion) -> Seq<char> {
    "HTTP/"@ + decimal(version.major as nat) + seq!['.'] + decimal(version.minor as nat)
}

proof fn lemma_no_line_chars_concat(a: Seq<char>, b: Seq<char>)
    requires
        no_line_chars(a),
        no_line_chars(b),
    ensures
        no_line_chars(a + b),
{
    assert forall|i: int| 0 <= i < (a + b).len() implies #[trigger] (a + b)[i] != '\r' && (a + b)[i] != '\n' by {
        if i < a.len() {
            assert((a + b)[i] == a[i]);
        } else {
            assert((a + b)[i] == b[i - a.len()]);
        }
    }
}

proof fn lemma_plain_concat(a: Seq<char>, b: Seq<char>)
    requires
        plain(a),
        plain(b),
    ensures
        plain(a + b),
{
    assert forall|i: int| 0 <= i < (a + b).len() implies #[trigger] (a + b)[i] != '\r' && (a + b)[i] != '\n' && (a + b)[i] != ' ' && (a + b)[i] != ':' by {
        if i < a.len() {
            assert((a + b)[i] == a[i]);
        } else {
            assert((a + b)[i] == b[i - a.len()]);
        }
    }
}

/// Plain text holds no CR or LF, no space, no `": "` and no CRLF.
proof fn lemma_plain(s: Seq<char>)
    requires
        plain(s),
    ensures
        no_line_chars(s),
        !contains_seq(s, seq![' ']),
        !contains_seq(s, colon_space()),
        !contains_seq(s, crlf()),
{
    assert forall|j: int| !occurs_at(s, seq![' '], j) by {
        if occurs_at(s, seq![' '], j) {
            assert(s.subrange(j, j + 1)[0] == s[j]);
        }
    }
    assert forall|j: int| !occurs_at(s, colon_space(), j) by {
        if occurs_at(s, colon_space(), j) {
            assert(s.subrange(j, j + 2)[0] == s[j]);
        }
    }
    assert forall|j: int| !occurs_at(s, crlf(), j) by {
        if occurs_at(s, crlf(), j) {
            assert(s.subrange(j, j + 2)[0] == s[j]);
        }
    }
}

proof fn lemma_no_line_chars_no_crlf(s: Seq<char>)
    requires
        no_line_chars(s),
    ensures
        !contains_seq(s, crlf()),
{
    assert forall|j: int| !occurs_at(s, crlf(), j) by {
        if occurs_at(s, crlf(), j) {
            assert(s.subrange(j, j + 2)[0] == s[j]);
        }
    }
}

proof fn lemma_decimal_plain(n: nat)
    ensures
        plain(decimal(n)),
{
    lemma_decimal_digits(n);
    let d = decimal(n);
    assert forall|i: int| 0 <= i < d.len() implies #[trigger] d[i] != '\r' && d[i] != '\n' && d[i] != ' ' && d[i] != ':' by {
        assert(is_digit(d[i]));
    }
}

proof fn lemma_method_plain(m: Method)
    ensures
        plain(method_name(m)),
{
    reveal_strlit("GET");
    reveal_strlit("POST");
    reveal_strlit("PATCH");
    reveal_strlit("OPTIONS");
    reveal_strlit("DELETE");
    reveal_strlit("CONNECT");
    reveal_strlit("TRACE");
    reveal_strlit("HEAD");
    reveal_strlit("PUT");
}

proof fn lemma_version_plain(v: HttpVersion)
    ensures
        plain(version_text(v)),
{
    reveal_strlit("HTTP/");
    lemma_decimal_plain(v.major as nat);
    lemma_decimal_plain(v.minor as nat);
    assert(plain("HTTP/"@));
    assert(plain(seq!['.']));
    lemma_plain_concat("HTTP/"@, decimal(v.major as nat));
    lemma_plain_concat("HTTP/"@ + decimal(v.major as nat), seq!['.']);
    lemma_plain_concat("HTTP/"@ + decimal(v.major as nat) + seq!['.'], decimal(v.minor as nat));
}

/// The header a message is sent with in addition to its own, if any, reads back, and no
/// other header has its name.
proof fn lemma_sent_headers_safe(h: Seq<HeaderView>, body: BodyView, version: HttpVersion)
    requires
        forall|i: int| 0 <= i < h.len() ==> header_safe(#[trigger] h[i]),
        distinct_names(h),
    ensures
        forall|i: int| 0 <= i < sent_headers(h, body, version).len() ==> header_safe(#[trigger] sent_headers(h, body, version)[i]),
        distinct_names(sent_headers(h, body, version)),
{
    let te = spec_get(h, "Transfer-Encoding"@) is Some;
    match spec_ensure_length(h, body, te, version) {
        Some(h2) => {
            reveal_strlit("Content-Length");
            reveal_strlit("Transfer-Encoding");
            reveal_strlit("chunked");
            let (n, v) = match body {
                BodyView::Text(s) => ("Content-Length"@, decimal(str_byte_len(s))),
                BodyView::Bytes(_) => ("Transfer-Encoding"@, "chunked"@),
            };
            assert(spec_get(h, n) is None);
            if has_name(h, n) {
                let j = choose|j: int| 0 <= j < h.len() && same_name(#[trigger] h[j].0, n);
                lemma_get_finds(h, n, 0, j);
            }
            assert(h2 == h.push((n, v)));
            match body {
                BodyView::Text(s) => lemma_decimal_plain(str_byte_len(s)),
                BodyView::Bytes(_) => {},
            }
            assert(plain(n));
            assert(plain(v));
            lemma_plain(n);
            lemma_plain(v);
            assert forall|i: int| 0 <= i < h2.len() implies header_safe(#[trigger] h2[i]) by {
                if i < h.len() {
                    assert(h2[i] == h[i]);
                }
            }
            assert forall|i: int, j: int| 0 <= i < j < h2.len() implies !same_name(#[trigger] h2[i].0, #[trigger] h2[j].0) by {
                if j < h.len() {
                    assert(h2[i] == h[i] && h2[j] == h[j]);
                } else {
                    assert(h2[i] == h[i]);
                    assert(h2[j].0 == n);
                }
            }
        },
        None => {},
    }
}

/// Bytes that a request's wire form begins with: the encoded head.
proof fn lemma_request_wire_starts_with_head(q: RequestView)
    requires
        q.body matches BodyView::Bytes(b) ==> b.len() > 0,
    ensures
        ({
            let head = encode_utf8(request_head(q.method, q.uri, q.version, sent_headers(q.headers, q.body, q.version)));
            &&& head.len() <= request_wire(q).len()
            &&& request_wire(q).subrange(0, head.len() as int) == head
        }),
{
    let h = sent_headers(q.headers, q.body, q.version);
    let head_text = request_head(q.method, q.uri, q.version, h);
    let head = encode_utf8(head_text);
    let chunked = spec_get(q.headers, "Transfer-Encoding"@) is Some && q.version == (HttpVersion { major: 1, minor: 1 });
    let b = request_wire(q);
    match q.body {
        BodyView::Text(s) => {
            let tail = if chunked { chunked_tail(s, str_byte_len(s), q.trailers) } else { s };
            lemma_encode_concat(head_text, tail);
            assert(b == head + encode_utf8(tail));
        },
        BodyView::Bytes(bytes) => {
            if chunked {
                assert(b == head + frames(stream_chunks(bytes)) + encode_utf8(chunked_end(q.trailers)));
            } else {
                assert(b == head + bytes);
            }
        },
    }
    assert(b.subrange(0, head.len() as int) =~= head);
}

/// What the start-line and header-block readers give for bytes that begin with a head:
/// the start line and the wire form of the headers.
pub open spec fn head_reads_back(
    b: Seq<u8>,
    start: Seq<char>,
    h: Seq<HeaderView>,
    start_limit: int,
    header_limit: int,
) -> bool {
    let n1 = encode_utf8(start).len() + 2int;
    let wire = encode_utf8(spec_wire_string(h));
    &&& start_line_scan(b, 0, Seq::empty(), start_limit) == (Scan::Finished {
        up_to: n1,
        out: encode_utf8(start),
    })
    &&& headers_scan(b.skip(n1), 0, Seq::empty(), header_limit) == (Scan::Finished {
        up_to: wire.len() + 4int,
        out: wire,
    })
    &&& decode_utf8(encode_utf8(start)) == start
    &&& decode_utf8(wire) == spec_wire_string(h)
    &&& parse_from_ok(spec_wire_string(h))
    &&& spec_parse_from(spec_wire_string(h)) == h
}

/// Bytes that begin with a start line without CR and LF and headers that read back, as
/// a head is written, read back as that start line and those headers.
proof fn lemma_head_reads_back(b: Seq<u8>, start: Seq<char>, h: Seq<HeaderView>, start_limit: int, header_limit: int)
    requires
        no_line_chars(start),
        forall|i: int| 0 <= i < h.len() ==> header_safe(#[trigger] h[i]),
        distinct_names(h),
        ({
            let head = encode_utf8(start + crlf() + spec_wire_string(h) + crlf() + crlf());
            head.len() <= b.len() && b.subrange(0, head.len() as int) == head
        }),
        start_limit > encode_utf8(start).len(),
        header_limit > encode_utf8(spec_wire_string(h)).len() + 4,
    ensures
        head_reads_back(b, start, h, start_limit, header_limit),
{
    let wire_text = spec_wire_string(h);
    let wire = encode_utf8(wire_text);
    let enc_start = encode_utf8(start);
    let m = enc_start.len() as int;

    // the headers read back
    assert forall|i: int| 0 <= i < h.len() implies wire_safe(#[trigger] h[i]) by {
        lemma_no_line_chars_no_crlf(h[i].0);
        lemma_no_line_chars_no_crlf(h[i].1);
    }
    law_headers_wire_round_trip(h);
    vstd::utf8::encode_utf8_decode_utf8(start);
    vstd::utf8::encode_utf8_decode_utf8(wire_text);

    // the bytes of the head
    let lines_part = crlf() + wire_text + crlf() + crlf();
    let head_text = start + crlf() + wire_text + crlf() + crlf();
    assert(head_text =~= start + lines_part);
    let x = wire_text + crlf() + crlf();
    assert(lines_part =~= crlf() + x);
    lemma_encode_concat(start, lines_part);
    lemma_encode_concat(crlf(), x);
    lemma_encode_concat(wire_text + crlf(), crlf());
    lemma_encode_concat(wire_text, crlf());
    lemma_crlf_bytes();
    let head = encode_utf8(head_text);
    assert(head =~= enc_start + seq![cr(), lf()] + wire + seq![cr(), lf(), cr(), lf()]);
    assert forall|i: int| 0 <= i < head.len() implies b[i] == #[trigger] head[i] by {
        assert(b.subrange(0, head.len() as int)[i] == b[i]);
    }

    // the start-line reader
    lemma_encode_no_line_bytes(start);
    assert(b.subrange(0, m) =~= enc_start) by {
        assert forall|i: int| 0 <= i < m implies b.subrange(0, m)[i] == enc_start[i] by {
            assert(head[i] == enc_start[i]);
        }
    }
    assert(head[m] == cr() && head[m + 1] == lf());
    assert(Seq::<u8>::empty() + b.subrange(0, 0) =~= Seq::<u8>::empty());
    lemma_start_line_run(b, 0, m, 0, Seq::empty(), start_limit);
    assert(Seq::<u8>::empty() + b.subrange(0, m) =~= enc_start);

    // the header-block reader
    let r = b.skip(m + 2);
    let after = b.skip(head.len() as int);
    assert(r =~= wire + seq![cr(), lf(), cr(), lf()] + after) by {
        assert forall|i: int| 0 <= i < r.len() implies r[i] == (wire + seq![cr(), lf(), cr(), lf()] + after)[i] by {
            if i < wire.len() + 4 {
                assert(r[i] == b[m + 2 + i]);
                assert(head[m + 2 + i] == (wire + seq![cr(), lf(), cr(), lf()])[i]);
            }
        }
    }
    if h.len() > 0 {
        let lines = header_lines(h);
        assert forall|i: int| 0 <= i < lines.len() implies no_line_chars(#[trigger] lines[i]) && lines[i].len() > 0 by {
            reveal_strlit(": ");
            assert(no_line_chars(colon_space()));
            lemma_no_line_chars_concat(h[i].0, colon_space());
            lemma_no_line_chars_concat(h[i].0 + colon_space(), h[i].1);
        }
        lemma_joined_lines(lines);
    } else {
        assert(header_lines(h).len() == 0);
        assert(wire_text =~= Seq::<char>::empty());
        assert(wire =~= Seq::<u8>::empty());
    }
    lemma_first_blank_line(wire, after);
    let e = wire.len() + 3int;
    assert(Seq::<u8>::empty() + r.subrange(0, 0) =~= Seq::<u8>::empty());
    lemma_headers_run(r, 0, e, Seq::empty(), header_limit);
    assert(Seq::<u8>::empty() + r.subrange(0, e - 3) =~= wire);
}

/// The head of a request as `write_body` sends it reads back: the start-line reader
/// gives its start line and stops after it, the header-block reader then gives the wire
/// form of the headers it was sent with, the start line splits into the method's name,
/// the URI and the version, and the headers read back as they were sent. This holds
/// when no header name or value holds CR, LF or `": "` and no two names are the same
/// ignoring case, when the URI's text holds no CR, LF or space, when a byte body is not
/// empty (an empty byte body sent in the chunked coding goes without its head), and when
/// the readers' limits are above the start line's and the header block's sizes.
pub proof fn law_request_head_reads_back(q: RequestView, start_limit: int, header_limit: int)
    requires
        forall|i: int| 0 <= i < q.headers.len() ==> header_safe(#[trigger] q.headers[i]),
        distinct_names(q.headers),
        no_line_chars(spec_uri_string(q.uri)),
        !spec_uri_string(q.uri).contains(' '),
        q.body matches BodyView::Bytes(b) ==> b.len() > 0,
        start_limit > encode_utf8(request_start_line(q.method, q.uri, q.version)).len(),
        header_limit > encode_utf8(spec_wire_string(sent_headers(q.headers, q.body, q.version))).len() + 4,
    ensures
        head_reads_back(
            request_wire(q),
            request_start_line(q.method, q.uri, q.version),
            sent_headers(q.headers, q.body, q.version),
            start_limit,
            header_limit,
        ),
        spec_start_line_parts(request_start_line(q.method, q.uri, q.version)) == Some(
            (method_name(q.method), spec_uri_string(q.uri), version_text(q.version)),
        ),
{
    let h = sent_headers(q.headers, q.body, q.version);
    let start = request_start_line(q.method, q.uri, q.version);
    let uri = spec_uri_string(q.uri);
    lemma_sent_headers_safe(q.headers, q.body, q.version);

    // the start line, and how it splits
    lemma_method_plain(q.method);
    lemma_version_plain(q.version);
    lemma_plain(method_name(q.method));
    lemma_plain(version_text(q.version));
    assert(no_line_chars(seq![' ']));
    lemma_no_line_chars_concat(method_name(q.method), seq![' ']);
    lemma_no_line_chars_concat(method_name(q.method) + seq![' '], uri);
    lemma_no_line_chars_concat(method_name(q.method) + seq![' '] + uri, seq![' ']);
    lemma_no_line_chars_concat(method_name(q.method) + seq![' '] + uri + seq![' '], version_text(q.version));
    let pieces = seq![method_name(q.method), uri, version_text(q.version)];
    assert(pieces.drop_last() =~= seq![method_name(q.method), uri]);
    assert(pieces.drop_last().drop_last() =~= seq![method_name(q.method)]);
    assert(join_seq(pieces.drop_last().drop_last(), seq![' ']) == method_name(q.method));
    assert(join_seq(pieces.drop_last(), seq![' ']) == method_name(q.method) + seq![' '] + uri);
    assert(join_seq(pieces, seq![' ']) =~= start);
    assert(!contains_seq(uri, seq![' '])) by {
        if contains_seq(uri, seq![' ']) {
            let j = choose|j: int| occurs_at(uri, seq![' '], j);
            assert(uri.subrange(j, j + 1)[0] == uri[j]);
            assert(uri.contains(' '));
        }
    }
    assert forall|i: int| 0 <= i < pieces.len() implies !contains_seq(#[trigger] pieces[i], seq![' ']) by {}
    lemma_split_join(pieces, seq![' ']);
    reveal_strlit(" ");
    assert(" "@ =~= seq![' ']);

    // the head comes first in what is written
    reveal_strlit("HTTP/");
    reveal_strlit(" HTTP/");
    assert(request_head(q.method, q.uri, q.version, h) =~= start + crlf() + spec_wire_string(h) + crlf() + crlf());
    lemma_request_wire_starts_with_head(q);
    lemma_head_reads_back(request_wire(q), start, h, start_limit, header_limit);
}

/// The status line of a response: `"HTTP/1.1 {code} {text}"`.
pub open spec fn status_line(status: Status) -> Seq<char> {
    "HTTP/1.1 "@ + decimal(status_code(status) as nat) + seq![' '] + status_text(status)
}

/// Bytes that a response's wire form begins with: the encoded head.
proof fn lemma_response_wire_starts_with_head(s: ResponseView)
    requires
        s.body matches BodyView::Bytes(b) ==> b.len() > 0,
    ensures
        ({
            let head = encode_utf8(response_head(s.status, sent_headers(s.headers, s.body, s.version)));
            &&& head.len() <= response_wire(s).len()
            &&& response_wire(s).subrange(0, head.len() as int) == head
        }),
{
    let h = sent_headers(s.headers, s.body, s.version);
    let head_text = response_head(s.status, h);
    let head = encode_utf8(head_text);
    let chunked = spec_get(h, "Transfer-Encoding"@) is Some && s.version == (HttpVersion { major: 1, minor: 1 });
    let b = response_wire(s);
    match s.body {
        BodyView::Text(t) => {
            if !chunked && s.trailers.len() > 0 {
                lemma_encode_concat(head_text, t);
                assert(b == head + encode_utf8(t) + encode_utf8(crlf() + spec_wire_string(s.trailers) + crlf() + crlf()));
            } else {
                let tail = if chunked { chunked_tail(t, str_byte_len(t), s.trailers) } else { t };
                lemma_encode_concat(head_text, tail);
                assert(b == head + encode_utf8(tail));
            }
        },
        BodyView::Bytes(bytes) => {
            if chunked {
                assert(b == head + frames(stream_chunks(bytes)) + encode_utf8(chunked_end(s.trailers)));
            } else {
                assert(b == head + bytes);
            }
        },
    }
    assert(b.subrange(0, head.len() as int) =~= head);
}

/// The head of a response as `write_body` sends it reads back: the readers give its
/// status line and the wire form of the headers it was sent with, which read back as
/// they were sent; the status line's first two parts are `HTTP/1.1` and the code. This
/// holds when no header name or value holds CR, LF or `": "`, no two names are the
/// same ignoring case, a byte body is not empty, and the readers' limits are above the
/// status line's and the header block's sizes.
pub proof fn law_response_head_reads_back(s: ResponseView, start_limit: int, header_limit: int)
    requires
        forall|i: int| 0 <= i < s.headers.len() ==> header_safe(#[trigger] s.headers[i]),
        distinct_names(s.headers),
        s.body matches BodyView::Bytes(b) ==> b.len() > 0,
        start_limit > encode_utf8(status_line(s.status)).len(),
        header_limit > encode_utf8(spec_wire_string(sent_headers(s.headers, s.body, s.version))).len() + 4,
    ensures
        head_reads_back(
            response_wire(s),
            status_line(s.status),
            sent_headers(s.headers, s.body, s.version),
            start_limit,
            header_limit,
        ),
        spec_start_line_parts(status_line(s.status)) matches Some(p) && p.0 == "HTTP/1.1"@ && p.1
            == decimal(status_code(s.status) as nat),
{
    let h = sent_headers(s.headers, s.body, s.version);
    let start = status_line(s.status);
    let code = decimal(status_code(s.status) as nat);
    let text = status_text(s.status);
    lemma_sent_headers_safe(s.headers, s.body, s.version);
    reveal_strlit("HTTP/1.1 ");
    reveal_strlit("HTTP/1.1");
    reveal_strlit(" ");
    reveal_strlit("OK");
    reveal_strlit("Moved Permanently");
    reveal_strlit("Forbidden");
    reveal_strlit("Not Found");
    reveal_strlit("Bad Request");
    reveal_strlit("Internal Server Error");
    reveal_strlit("Unknown");
    lemma_decimal_plain(status_code(s.status) as nat);
    lemma_plain(code);
    assert(no_line_chars(text));
    assert(no_line_chars("HTTP/1.1 "@));
    assert(no_line_chars(seq![' ']));
    lemma_no_line_chars_concat("HTTP/1.1 "@, code);
    lemma_no_line_chars_concat("HTTP/1.1 "@ + code, seq![' ']);
    lemma_no_line_chars_concat("HTTP/1.1 "@ + code + seq![' '], text);

    // how the status line splits
    assert(" "@ =~= seq![' ']);
    assert(plain("HTTP/1.1"@));
    lemma_plain("HTTP/1.1"@);
    assert(start =~= "HTTP/1.1"@ + seq![' '] + (code + seq![' '] + text));
    lemma_split_prefix("HTTP/1.1"@, code + seq![' '] + text, seq![' ']);
    assert(code + seq![' '] + text =~= code + seq![' '] + text);
    lemma_split_prefix(code, text, seq![' ']);
    crate::headers::lemma_split_nonempty(text, seq![' ']);

    // the head comes first in what is written
    assert(response_head(s.status, h) =~= start + crlf() + spec_wire_string(h) + crlf() + crlf());
    lemma_response_wire_starts_with_head(s);
    lemma_head_reads_back(response_wire(s), start, h, start_limit, header_limit);
}

/// A string body sent without a length header is read with the length it was sent
/// with: the Content-Length added for it reads as its length in bytes.
pub proof fn law_sent_length_reads_back(h: Seq<HeaderView>, s: Seq<char>, version: HttpVersion)
    requires
        lacks_length(h),
        encode_utf8(s).len() <= usize::MAX,
    ensures
        spec_content_length(sent_headers(h, BodyView::Text(s), version)) == Some(
            Ok::<usize, Seq<char>>(encode_utf8(s).len() as usize),
        ),
{
    let n = encode_utf8(s).len() as usize;
    let sent = sent_headers(h, BodyView::Text(s), version);
    assert(sent == spec_add(h, "Content-Length"@, decimal(n as nat)));
    law_headers_get_after_add(h, "Content-Length"@, decimal(n as nat), "Content-Length"@);
    law_content_length_of_decimal(sent, n);
}


// ---------------------------------------------------------------- heads read from one buffer

/// The text `resource_and_headers` writes for a status and headers: a status line with
/// the status's text before its code, a line per header, then a blank line.
pub open spec fn resource_and_headers_text(status: Status, h: Seq<HeaderView>) -> Seq<char> {
    "HTTP/1.1 "@ + status_text(status) + seq![' '] + decimal(status_code(status) as nat) + crlf()
        + header_block(h) + crlf()
}

/// A header block of at least one header is its wire form followed by CRLF.
proof fn lemma_header_block_wire(h: Seq<HeaderView>)
    requires
        h.len() > 0,
    ensures
        header_block(h) == spec_wire_string(h) + crlf(),
    decreases h.len(),
{
    let init = h.drop_last();
    assert(header_lines(h).drop_last() =~= header_lines(init));
    assert(header_lines(h).last() == header_line(h.last()));
    if h.len() == 1 {
        assert(header_block(init) =~= Seq::<char>::empty());
        assert(header_block(h) =~= header_line(h.last()) + crlf());
    } else {
        lemma_header_block_wire(init);
        assert(header_block(h) =~= spec_wire_string(init) + crlf() + header_line(h.last()) + crlf());
    }
}

/// Scanning on from `i` once the start line's end `f` is known: the head ends at the
/// first blank line from `i` on.
proof fn lemma_head_scan_blank(b: Seq<u8>, i: int, f: int, e: int)
    requires
        0 <= i <= e < b.len(),
        blank_line_before(b, e),
        forall|j: int| i <= j < e ==> !#[trigger] blank_line_before(b, j),
    ensures
        head_scan(b, i, Some(f)) == Some((f, e - 4, e)),
    decreases e - i,
{
    if i < e {
        assert(!blank_line_before(b, i));
        lemma_head_scan_blank(b, i + 1, f, e);
    }
}

/// The head ends at the first blank line after the first CRLF.
proof fn lemma_head_scan_finds(b: Seq<u8>, i: int, f: int, e: int)
    requires
        0 <= i <= f <= e < b.len(),
        crlf_before(b, f),
        forall|j: int| i <= j < f ==> !#[trigger] crlf_before(b, j),
        blank_line_before(b, e),
        forall|j: int| f <= j < e ==> !#[trigger] blank_line_before(b, j),
    ensures
        head_scan(b, i, None) == Some((f, e - 4, e)),
    decreases f - i,
{
    if i < f {
        assert(!crlf_before(b, i));
        lemma_head_scan_finds(b, i + 1, f, e);
    } else if i < e {
        assert(!blank_line_before(b, i));
        lemma_head_scan_blank(b, i + 1, f, e);
    }
}

/// The status line `resource_and_headers` writes: it holds no CR or LF, and cut at
/// spaces (with its CRLF) it begins with `HTTP/1.1`, has at least three words, and,
/// for a status whose text is one word, has that text second.
proof fn lemma_reason_status_line(status: Status)
    ensures
        ({
            let start = "HTTP/1.1 "@ + status_text(status) + seq![' '] + decimal(
                status_code(status) as nat,
            );
            let words = split_seq(start + crlf(), " "@);
            &&& no_line_chars(start)
            &&& start.len() > 0
            &&& words.len() >= 3
            &&& words[0] == "HTTP/1.1"@
            &&& !contains_seq(status_text(status), seq![' ']) ==> words[1] == status_text(status)
        }),
{
    let code = decimal(status_code(status) as nat);
    let text = status_text(status);
    let start = "HTTP/1.1 "@ + text + seq![' '] + code;
    reveal_strlit("HTTP/1.1 ");
    reveal_strlit("HTTP/1.1");
    reveal_strlit(" ");
    reveal_strlit("OK");
    reveal_strlit("Moved Permanently");
    reveal_strlit("Forbidden");
    reveal_strlit("Not Found");
    reveal_strlit("Bad Request");
    reveal_strlit("Internal Server Error");
    reveal_strlit("Unknown");
    lemma_decimal_plain(status_code(status) as nat);
    lemma_plain(code);
    assert(no_line_chars(text));
    assert(no_line_chars("HTTP/1.1 "@));
    assert(no_line_chars(seq![' ']));
    lemma_no_line_chars_concat("HTTP/1.1 "@, text);
    lemma_no_line_chars_concat("HTTP/1.1 "@ + text, seq![' ']);
    lemma_no_line_chars_concat("HTTP/1.1 "@ + text + seq![' '], code);
    assert(" "@ =~= seq![' ']);
    assert(plain("HTTP/1.1"@));
    lemma_plain("HTTP/1.1"@);
    let after = text + seq![' '] + (code + crlf());
    assert(start + crlf() =~= "HTTP/1.1"@ + seq![' '] + after);
    lemma_split_prefix("HTTP/1.1"@, after, seq![' ']);
    assert(occurs_at(after, seq![' '], text.len() as int)) by {
        assert(after.subrange(text.len() as int, text.len() as int + 1) =~= seq![' ']);
    }
    crate::headers::lemma_split_two(after, seq![' ']);
    if !contains_seq(text, seq![' ']) {
        lemma_split_prefix(text, code + crlf(), seq![' ']);
    }
}

/// Header lines of headers without CR, LF or `": "` in names and values: each is
/// non-empty and free of CR and LF, their wire form splits back into them, each holds
/// `": "`, and with no two names the same (ignoring case) the wire form reads back as
/// the headers.
proof fn lemma_safe_header_lines(h: Seq<HeaderView>)
    requires
        forall|i: int| 0 <= i < h.len() ==> header_safe(#[trigger] h[i]),
        distinct_names(h),
        h.len() > 0,
    ensures
        forall|i: int| 0 <= i < h.len() ==> no_line_chars(#[trigger] header_lines(h)[i])
            && header_lines(h)[i].len() > 0,
        all_have_colon(split_seq(spec_wire_string(h), crlf())),
        spec_parse_headers(spec_wire_string(h)) == h,
{
    let lines = header_lines(h);
    let w = spec_wire_string(h);
    assert forall|i: int| 0 <= i < h.len() implies wire_safe(#[trigger] h[i]) by {
        lemma_no_line_chars_no_crlf(h[i].0);
        lemma_no_line_chars_no_crlf(h[i].1);
    }
    assert(no_line_chars(colon_space())) by {
        assert(colon_space()[0] == ':' && colon_space()[1] == ' ');
    }
    assert forall|i: int| 0 <= i < lines.len() implies no_line_chars(#[trigger] lines[i])
        && lines[i].len() > 0 && !contains_seq(lines[i], crlf()) by {
        assert(h[i].0 + colon_space() + h[i].1 == lines[i]);
        lemma_no_line_chars_concat(h[i].0, colon_space());
        lemma_no_line_chars_concat(h[i].0 + colon_space(), h[i].1);
        crate::headers::lemma_line_pair(h[i]);
    }
    lemma_split_join(lines, crlf());
    assert forall|i: int| 0 <= i < lines.len() implies contains_seq(#[trigger] lines[i], colon_space()) by {
        assert(lines[i].subrange(h[i].0.len() as int, h[i].0.len() + 2int) =~= colon_space());
        assert(occurs_at(lines[i], colon_space(), h[i].0.len() as int));
    }
    assert(line_pairs(lines) =~= h) by {
        assert forall|i: int| 0 <= i < h.len() implies line_pairs(lines)[i] == h[i] by {
            crate::headers::lemma_line_pair(h[i]);
        }
    }
    assert forall|i: int, j: int| 0 <= i < j < h.len() implies #[trigger] h[i].0
        != #[trigger] h[j].0 by {
        assert(!same_name(h[i].0, h[j].0));
    }
    lemma_list_add_each_distinct(h);
}

/// The bytes of a start line, CRLF, header lines joined with CRLF, CRLF CRLF, then at
/// least one byte: the head scan finds the start line's end after its CRLF and the head's
/// end after the blank line.
proof fn lemma_written_head_scan(start: Seq<char>, lines: Seq<Seq<char>>, rest: Seq<u8>)
    requires
        no_line_chars(start),
        start.len() > 0,
        lines.len() > 0,
        forall|i: int| 0 <= i < lines.len() ==> no_line_chars(#[trigger] lines[i]) && lines[i].len() > 0,
        rest.len() > 0,
    ensures
        ({
            let w = crate::text::join_seq(lines, crlf());
            let es = encode_utf8(start);
            let ew = encode_utf8(w);
            let b = es + seq![cr(), lf()] + ew + seq![cr(), lf(), cr(), lf()] + rest;
            head_scan(b, 0, None) == Some(
                (
                    es.len() as int + 2,
                    es.len() as int + 2 + ew.len() as int,
                    es.len() as int + 2 + ew.len() as int + 4,
                ),
            )
        }),
{
    let w = crate::text::join_seq(lines, crlf());
    let es = encode_utf8(start);
    let ew = encode_utf8(w);
    let enc = es + seq![cr(), lf()] + ew;
    let b = es + seq![cr(), lf()] + ew + seq![cr(), lf(), cr(), lf()] + rest;
    lemma_crlf_bytes();
    lemma_encode_no_line_bytes(start);
    let all_lines = seq![start] + lines;
    assert(all_lines.drop_first() =~= lines);
    crate::text::lemma_join_front(all_lines, crlf());
    assert forall|i: int| 0 <= i < all_lines.len() implies no_line_chars(#[trigger] all_lines[i])
        && all_lines[i].len() > 0 by {
        if i > 0 {
            assert(all_lines[i] == lines[i - 1]);
        }
    }
    lemma_joined_lines(all_lines);
    lemma_encode_concat(start, crlf());
    lemma_encode_concat(start + crlf(), w);
    assert(encode_utf8(crate::text::join_seq(all_lines, crlf())) == enc);
    lemma_first_blank_line(enc, rest);
    assert(b =~= enc + seq![cr(), lf(), cr(), lf()] + rest);
    let f: int = es.len() as int + 2;
    let e: int = enc.len() as int + 4;
    assert(b[es.len() as int] == cr());
    assert(b[es.len() as int + 1] == lf());
    assert(crlf_before(b, f));
    assert forall|j: int| 0 <= j < f implies !#[trigger] crlf_before(b, j) by {
        if j >= 1 {
            if j - 1 < es.len() {
                assert(b[j - 1] == es[j - 1]);
            } else {
                assert(b[j - 1] == cr());
            }
        }
    }
    assert(b[e - 4] == cr() && b[e - 3] == lf() && b[e - 2] == cr() && b[e - 1] == lf());
    assert(blank_line_before(b, e));
    assert forall|j: int| f <= j < e implies !#[trigger] blank_line_before(b, j) by {
        if blank_line_before(b, j) {
            assert(j - 4 >= 0);
            assert(blank_line_ends_at(b, j - 1));
        }
    }
    lemma_head_scan_finds(b, 0, f, e);
}

/// A response head as `resource_and_headers` writes it, followed by at least one more
/// byte, is read back from the buffer: the head is readable, it ends where it was
/// written to end, its headers are those written, and its start line's first word is
/// `HTTP/1.1` and, for a status whose text is one word, its second word is that text.
/// This holds for at least one header, when no header name or value holds CR, LF or
/// `": "`, no two names are the same ignoring case, and a Content-Length is a number.
pub proof fn law_written_head_reads_from_buffer(status: Status, h: Seq<HeaderView>, rest: Seq<u8>)
    requires
        h.len() > 0,
        forall|i: int| 0 <= i < h.len() ==> header_safe(#[trigger] h[i]),
        distinct_names(h),
        first_header(h, "Content-Length"@) matches Some(p) ==> spec_parse_usize(p.1) is Some,
        rest.len() > 0,
    ensures
        ({
            let head = encode_utf8(resource_and_headers_text(status, h));
            let b = head + rest;
            &&& readable_head(b)
            &&& head_parts(b).2 == head.len()
            &&& buffered_headers(b) == h
            &&& start_words(b)[0] == "HTTP/1.1"@
            &&& !contains_seq(status_text(status), seq![' ']) ==> start_words(b)[1]
                == status_text(status)
        }),
{
    let start = "HTTP/1.1 "@ + status_text(status) + seq![' '] + decimal(
        status_code(status) as nat,
    );
    let lines = header_lines(h);
    let w = spec_wire_string(h);
    lemma_header_block_wire(h);
    assert(resource_and_headers_text(status, h) =~= start + crlf() + w + crlf() + crlf());
    lemma_reason_status_line(status);
    lemma_safe_header_lines(h);
    assert forall|i: int| 0 <= i < lines.len() implies no_line_chars(#[trigger] lines[i])
        && lines[i].len() > 0 by {
        assert(lines[i] == header_lines(h)[i]);
    }
    lemma_written_head_scan(start, lines, rest);

    let es = encode_utf8(start);
    let ew = encode_utf8(w);
    lemma_crlf_bytes();
    lemma_encode_concat(start, crlf());
    lemma_encode_concat(start + crlf(), w);
    lemma_encode_concat(start + crlf() + w, crlf());
    lemma_encode_concat(start + crlf() + w + crlf(), crlf());
    let head = encode_utf8(resource_and_headers_text(status, h));
    let b = head + rest;
    assert(b =~= es + seq![cr(), lf()] + ew + seq![cr(), lf(), cr(), lf()] + rest);
    let f: int = es.len() as int + 2;
    let e: int = head.len() as int;
    assert(head_parts(b) == (f, e - 4, e));

    assert(b.subrange(0, f) =~= encode_utf8(start + crlf()));
    vstd::utf8::encode_utf8_valid_utf8(start + crlf());
    vstd::utf8::encode_utf8_decode_utf8(start + crlf());
    assert(b.subrange(f, e - 4) =~= ew);
    vstd::utf8::encode_utf8_valid_utf8(w);
    vstd::utf8::encode_utf8_decode_utf8(w);
    assert(header_block_text(b) == w);
}

} // verus!
