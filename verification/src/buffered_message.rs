//! Reading a message whose head sits whole in one buffer: its start line cut into words,
//! its headers, where its body is, and the error for a message that says nothing of its
//! length.

use vstd::prelude::*;
use vstd::slice::slice_subrange;
use vstd::utf8::{decode_utf8, encode_utf8_decode_utf8, valid_utf8};

use crate::buffered::{
    blank_line_before, buffered_body, crlf_before, head_scan, spec_buffered_body, split_head,
    BufferedBody,
};
use crate::exchange::no_length_text;
use crate::header_list::{
    content_length_header, first_header, header, parse_headers, spec_parse_headers, Header,
};
use crate::headers::{all_have_colon, pair_views, HeaderView};
use crate::http_message::{
    from_utf8, is_known_method, spec_method_from, spec_status_from_reason, MessageError, Method,
    Status,
};
use crate::text::{
    crlf, spec_parse_usize, spec_to_lowercase, split_seq, split_str, starts_with,
    starts_with_str, str_views,
};

verus! {

/// Where the head in the buffer ends: the end of the start line (with its CRLF), the end
/// of the header block, and the start of the body.
pub open spec fn head_parts(b: Seq<u8>) -> (int, int, int) {
    head_scan(b, 0, None).unwrap()
}

/// The words of the start line (with its CRLF), cut at single spaces.
pub open spec fn start_words(b: Seq<u8>) -> Seq<Seq<char>> {
    split_seq(decode_utf8(b.subrange(0, head_parts(b).0)), " "@)
}

/// The text of the header block.
pub open spec fn header_block_text(b: Seq<u8>) -> Seq<char> {
    decode_utf8(b.subrange(head_parts(b).0, head_parts(b).1))
}

/// The headers of the header block.
pub open spec fn buffered_headers(b: Seq<u8>) -> Seq<HeaderView> {
    spec_parse_headers(header_block_text(b))
}

/// The head in the buffer can be read: it ends before the last byte of the buffer (see
/// `head_scan`), after a start line and at least one header line, both are UTF-8, the
/// start line has at least three words, every header line holds `": "`, and a
/// Content-Length is a number.
pub open spec fn readable_head(b: Seq<u8>) -> bool {
    &&& head_scan(b, 0, None) is Some
    &&& head_parts(b).0 <= head_parts(b).1
    &&& valid_utf8(b.subrange(0, head_parts(b).0))
    &&& start_words(b).len() >= 3
    &&& valid_utf8(b.subrange(head_parts(b).0, head_parts(b).1))
    &&& all_have_colon(split_seq(header_block_text(b), crlf()))
    &&& first_header(buffered_headers(b), "Content-Length"@) matches Some(p) ==> spec_parse_usize(
        p.1,
    ) is Some
}

/// Neither a Content-Length nor a Transfer-Encoding header (by name, ignoring case).
pub open spec fn says_no_length(h: Seq<HeaderView>) -> bool {
    first_header(h, "Content-Length"@) is None && first_header(h, "Transfer-Encoding"@) is None
}

/// The Content-Length as a number, if there is one.
pub open spec fn buffered_length(h: Seq<HeaderView>) -> Option<usize> {
    match first_header(h, "Content-Length"@) {
        Some(p) => spec_parse_usize(p.1),
        None => None,
    }
}

/// Where the body of the buffered message is (see `spec_buffered_body`).
pub open spec fn body_of(b: Seq<u8>, first_read: nat, keep_received: bool) -> BufferedBody {
    spec_buffered_body(
        buffered_length(buffered_headers(b)),
        head_parts(b).2 as nat,
        b.len(),
        first_read,
        keep_received,
    )
}

/// What the start line says.
#[derive(Debug)]
pub enum StartLine {
    /// a request: its method and its target
    Request(Method, String),
    /// a response: the status its second word gives
    Response(Status),
}

/// A message read from a buffer; its body is described, not read.
#[derive(Debug)]
pub struct BufferedMessage {
    pub start: StartLine,
    pub headers: Vec<Header>,
    pub body: BufferedBody,
}

#[derive(Debug)]
pub enum RequestError {
    NoContentLengthOrTransferEncoding(String),
    HeadersTooBig(String),
}

#[derive(Debug)]
pub enum ResponseError {
    NoContentLengthOrTransferEncoding(String),
    HeadersTooBig(String),
}

/// A request line: the method the first word names, and the second word.
pub open spec fn is_request_start(s: StartLine, words: Seq<Seq<char>>) -> bool {
    s matches StartLine::Request(m, u) && m == spec_method_from(words[0]) && u@ == words[1]
}

/// A status line: the status the second word gives.
pub open spec fn is_response_start(s: StartLine, words: Seq<Seq<char>>) -> bool {
    s matches StartLine::Response(st) && st == spec_status_from_reason(spec_to_lowercase(words[1]))
}

/// Bounds of what `head_scan` finds.
proof fn lemma_head_scan_bounds(b: Seq<u8>, i: int, first: Option<int>)
    requires
        0 <= i,
        first matches Some(x) ==> 0 <= x <= i,
    ensures
        head_scan(b, i, first) matches Some(t) ==> 4 <= t.2 < b.len() && t.1 == t.2 - 4 && 0
            <= t.0 <= t.2,
    decreases b.len() - i,
{
    if i < 0 || i >= b.len() {
    } else {
        let first2 = if first is None && crlf_before(b, i) {
            Some(i)
        } else {
            first
        };
        if first2 is Some && blank_line_before(b, i) {
        } else {
            lemma_head_scan_bounds(b, i + 1, first2);
        }
    }
}

/// The words of the start line, the headers, and where the body starts.
fn read_head<'b>(buffer: &'b [u8]) -> (r: (Vec<&'b str>, Vec<Header>, usize))
    requires
        readable_head(buffer@),
    ensures
        str_views(r.0@) == start_words(buffer@),
        pair_views(r.1@) == buffered_headers(buffer@),
        r.2 == head_parts(buffer@).2,
        r.2 <= buffer@.len(),
{
    proof {
        lemma_head_scan_bounds(buffer@, 0, None);
    }
    let p = match split_head(buffer) {
        Some(p) => p,
        None => {
            proof {
                assert(false);
            }
            unreached()
        },
    };
    let first = slice_subrange(buffer, 0, p.first_line_end);
    let line = match from_utf8(first) {
        Some(s) => s,
        None => {
            proof {
                assert(false);
            }
            unreached()
        },
    };
    proof {
        encode_utf8_decode_utf8(line@);
        reveal_strlit(" ");
    }
    let words = split_str(line, " ");
    let block = slice_subrange(buffer, p.first_line_end, p.headers_end);
    let text = match from_utf8(block) {
        Some(s) => s,
        None => {
            proof {
                assert(false);
            }
            unreached()
        },
    };
    proof {
        encode_utf8_decode_utf8(text@);
    }
    let headers = parse_headers(text);
    (words, headers, p.body_start)
}

/// Reads a request or a response from a buffer holding its whole head, of which
/// `first_read` bytes were received: a start line whose first word begins with `HTTP`
/// is a response. A message with neither a Content-Length nor a Transfer-Encoding is
/// refused. The body is in the buffer when it fits there, else it is what was received
/// after the head followed by the rest from the connection.
pub fn message_from_buffer(buffer: &[u8], first_read: usize) -> (r: Result<
    BufferedMessage,
    MessageError,
>)
    requires
        readable_head(buffer@),
        first_read <= buffer@.len(),
        !says_no_length(buffered_headers(buffer@)) && !starts_with(
            start_words(buffer@)[0],
            "HTTP"@,
        ) ==> is_known_method(start_words(buffer@)[0]),
    ensures
        r is Err <==> says_no_length(buffered_headers(buffer@)),
        r matches Err(e) ==> e matches MessageError::NoContentLengthOrTransferEncoding(t) && t@
            == no_length_text(),
        r matches Ok(m) ==> {
            &&& pair_views(m.headers@) == buffered_headers(buffer@)
            &&& m.body == body_of(buffer@, first_read as nat, true)
            &&& if starts_with(start_words(buffer@)[0], "HTTP"@) {
                is_response_start(m.start, start_words(buffer@))
            } else {
                is_request_start(m.start, start_words(buffer@))
            }
        },
{
    let (words, headers, body_start) = read_head(buffer);
    if header(&headers, "Content-Length").is_none() && header(
        &headers,
        "Transfer-Encoding",
    ).is_none() {
        return Err(
            MessageError::NoContentLengthOrTransferEncoding(
                "Content-Length or Transfer-Encoding must be provided".to_owned(),
            ),
        );
    }
    let content_length = content_length_header(&headers);
    let body = buffered_body(content_length, body_start, buffer.len(), first_read, true);
    proof {
        assert(words@[0]@ == start_words(buffer@)[0]);
        assert(words@[1]@ == start_words(buffer@)[1]);
    }
    let start = if starts_with_str(words[0], "HTTP") {
        StartLine::Response(Status::from_reason(words[1]))
    } else {
        StartLine::Request(Method::from(words[0]), words[1].to_owned())
    };
    Ok(BufferedMessage { start, headers, body })
}

/// Reads a request from a buffer holding its whole head. A request with neither a
/// Content-Length nor a Transfer-Encoding is refused; otherwise it must have a
/// Content-Length. The body is in the buffer when it fits there, else it is read whole
/// from the connection.
pub fn request_from_buffer(buffer: &[u8]) -> (r: Result<BufferedMessage, RequestError>)
    requires
        readable_head(buffer@),
        !says_no_length(buffered_headers(buffer@)) ==> {
            &&& first_header(buffered_headers(buffer@), "Content-Length"@) is Some
            &&& is_known_method(start_words(buffer@)[0])
        },
    ensures
        r is Err <==> says_no_length(buffered_headers(buffer@)),
        r matches Err(e) ==> e matches RequestError::NoContentLengthOrTransferEncoding(t) && t@
            == no_length_text(),
        r matches Ok(m) ==> {
            &&& pair_views(m.headers@) == buffered_headers(buffer@)
            &&& m.body == body_of(buffer@, 0, false)
            &&& is_request_start(m.start, start_words(buffer@))
        },
{
    let (words, headers, body_start) = read_head(buffer);
    if header(&headers, "Content-Length").is_none() && header(
        &headers,
        "Transfer-Encoding",
    ).is_none() {
        return Err(
            RequestError::NoContentLengthOrTransferEncoding(
                "Content-Length or Transfer-Encoding must be provided".to_owned(),
            ),
        );
    }
    let content_length = content_length_header(&headers);
    let body = buffered_body(content_length, body_start, buffer.len(), 0, false);
    proof {
        assert(words@[0]@ == start_words(buffer@)[0]);
        assert(words@[1]@ == start_words(buffer@)[1]);
    }
    let start = StartLine::Request(Method::from(words[0]), words[1].to_owned());
    Ok(BufferedMessage { start, headers, body })
}

/// Reads a response from a buffer holding its whole head, of which `first_read` bytes
/// were received. A response with neither a Content-Length nor a Transfer-Encoding is
/// refused; otherwise it must have a Content-Length. The body is in the buffer when it
/// fits there, else it is what was received after the head followed by the rest from
/// the connection.
pub fn response_from_buffer(buffer: &[u8], first_read: usize) -> (r: Result<
    BufferedMessage,
    ResponseError,
>)
    requires
        readable_head(buffer@),
        first_read <= buffer@.len(),
        !says_no_length(buffered_headers(buffer@)) ==> first_header(
            buffered_headers(buffer@),
            "Content-Length"@,
        ) is Some,
    ensures
        r is Err <==> says_no_length(buffered_headers(buffer@)),
        r matches Err(e) ==> e matches ResponseError::NoContentLengthOrTransferEncoding(t) && t@
            == no_length_text(),
        r matches Ok(m) ==> {
            &&& pair_views(m.headers@) == buffered_headers(buffer@)
            &&& m.body == body_of(buffer@, first_read as nat, true)
            &&& is_response_start(m.start, start_words(buffer@))
        },
{
    let (words, headers, body_start) = read_head(buffer);
    if header(&headers, "Content-Length").is_none() && header(
        &headers,
        "Transfer-Encoding",
    ).is_none() {
        return Err(
            ResponseError::NoContentLengthOrTransferEncoding(
                "Content-Length or Transfer-Encoding must be provided".to_owned(),
            ),
        );
    }
    let content_length = content_length_header(&headers);
    let body = buffered_body(content_length, body_start, buffer.len(), first_read, true);
    proof {
        assert(words@[1]@ == start_words(buffer@)[1]);
    }
    let start = StartLine::Response(Status::from_reason(words[1]));
    Ok(BufferedMessage { start, headers, body })
}

} // verus!
