//! The decisions taken when a message is read from or written to the wire: which
//! length headers a message must carry, what its start line says, how its body is
//! framed, and which headers and trailers it ends up with.

use vstd::prelude::*;
use vstd::string::StringSliceAdditionalSpecFns;

use crate::headers::{
    law_headers_get_after_add, is_disallowed_trailer, is_disallowed_trailer_spec, parse_from_ok, spec_add, spec_add_all,
    spec_filter, spec_get, spec_parse_from, spec_remove, spec_replace, HeaderView, Headers,
};
use crate::wire::ChunkMode;
use crate::http_message::{
    spec_method_from, spec_status_from, Body, BodyView, HttpMessage, HttpVersion,
    MessageError, Method, Request, RequestView, Response, ResponseView, Status,
    is_known_method,
};
use crate::text::{
    comma_space, comma_space_str, contains_seq, contains_str, decimal, spec_to_lowercase,
    split_seq, split_str, starts_with, starts_with_str, str_eq, str_views, usize_to_string,
};
use crate::uri::{spec_parse_uri, spec_uri_string, Uri, UriView};
use crate::chunked::{chunked_stream, chunked_tail, push_bytes, stream_reads, write_chunked_stream, write_chunked_string};
use crate::headers::spec_wire_string;
use crate::http_message::{method_name, response_of, status_code, status_text};
use crate::text::{crlf, crlf_str};
use vstd::utf8::encode_utf8;

verus! {

// ---------------------------------------------------------------- length headers

/// The text of the error for a message that says nothing of its length.
pub open spec fn no_length_text() -> Seq<char> {
    "Content-Length or Transfer-Encoding must be provided"@
}

/// The message has neither a Content-Length nor a Transfer-Encoding header.
pub open spec fn lacks_length(h: Seq<HeaderView>) -> bool {
    spec_get(h, "Content-Length"@) is None && spec_get(h, "Transfer-Encoding"@) is None
}

/// The message must say how long its body is: responses always, requests whose
/// method may carry a body.
pub open spec fn length_required(is_response: bool, method_can_have_body: bool) -> bool {
    is_response || method_can_have_body
}

/// A response, or a request whose method may carry a body, must have a Content-Length
/// or a Transfer-Encoding header.
pub fn check_valid_content_length_or_transfer_encoding(
    headers: &Headers,
    is_response: bool,
    method_can_have_body: bool,
) -> (r: Result<(), MessageError>)
    ensures
        r is Err <==> length_required(is_response, method_can_have_body) && lacks_length(headers@),
        r matches Err(e) ==> e matches MessageError::NoContentLengthOrTransferEncoding(t) && t@
            == no_length_text(),
{
    let is_req_and_method_can_have_body = !is_response && method_can_have_body;
    let no_content_length_or_transfer_encoding = !headers.has("Content-Length") && headers.get(
        "Transfer-Encoding",
    ).is_none();
    if (is_req_and_method_can_have_body && no_content_length_or_transfer_encoding) || (is_response
        && no_content_length_or_transfer_encoding) {
        return Err(
            MessageError::NoContentLengthOrTransferEncoding(
                "Content-Length or Transfer-Encoding must be provided".to_owned(),
            ),
        );
    }
    Ok(())
}

/// The length in bytes of a string (as `str::len` gives it).
pub open spec fn str_byte_len(s: Seq<char>) -> nat {
    (encode_utf8(s).len() as usize) as nat
}

/// The headers a message is sent with when it carries no length header and no
/// Transfer-Encoding: a string body gets its byte length as Content-Length, a byte
/// body over HTTP/1.1 gets `Transfer-Encoding: chunked`. `None` when nothing is added.
pub open spec fn spec_ensure_length(
    h: Seq<HeaderView>,
    body: BodyView,
    has_transfer_encoding: bool,
    version: HttpVersion,
) -> Option<Seq<HeaderView>> {
    let has_content_length = spec_get(h, "Content-Length"@) is Some;
    if !has_content_length && !has_transfer_encoding {
        match body {
            BodyView::Text(s) => Some(spec_add(h, "Content-Length"@, decimal(str_byte_len(s)))),
            BodyView::Bytes(_) => if version == (HttpVersion { major: 1, minor: 1 }) {
                Some(spec_add(h, "Transfer-Encoding"@, "chunked"@))
            } else {
                None
            },
        }
    } else {
        None
    }
}


/// The headers a message is sent with always say how long its body is, so the reader's
/// check accepts them: a string body gets a Content-Length, and a byte body over
/// HTTP/1.1 gets a Transfer-Encoding, where neither was there.
pub proof fn law_sent_headers_pass_length_check(h: Seq<HeaderView>, body: BodyView, version: HttpVersion)
    requires
        body is Bytes ==> version == (HttpVersion { major: 1, minor: 1 }) || !lacks_length(h),
    ensures
        !lacks_length(sent_headers(h, body, version)),
{
    let te = spec_get(h, "Transfer-Encoding"@) is Some;
    match spec_ensure_length(h, body, te, version) {
        Some(h2) => {
            match body {
                BodyView::Text(s) => {
                    law_headers_get_after_add(h, "Content-Length"@, decimal(str_byte_len(s)), "Content-Length"@);
                },
                BodyView::Bytes(_) => {
                    law_headers_get_after_add(h, "Transfer-Encoding"@, "chunked"@, "Transfer-Encoding"@);
                },
            }
        },
        None => {},
    }
}

/// Adds the length header a message needs to be sent, if it has none (see
/// `spec_ensure_length`; the Content-Length given is the body's length in bytes).
pub fn ensure_content_length_or_transfer_encoding(
    headers: &Headers,
    body: &Body,
    has_transfer_encoding: bool,
    version: &HttpVersion,
) -> (r: Option<Headers>)
    ensures
        ({
            let has_content_length = spec_get(headers@, "Content-Length"@) is Some;
            match *body {
                Body::BodyString(s) => {
                    &&& (r is Some <==> !has_content_length && !has_transfer_encoding)
                    &&& r matches Some(h) ==> h@ == spec_add(
                        headers@,
                        "Content-Length"@,
                        decimal(s.len() as nat),
                    )
                },
                Body::BodyStream(_) => {
                    &&& (r is Some <==> !has_content_length && !has_transfer_encoding && *version
                        == HttpVersion { major: 1, minor: 1 })
                    &&& r matches Some(h) ==> h@ == spec_add(
                        headers@,
                        "Transfer-Encoding"@,
                        "chunked"@,
                    )
                },
            }
        }),
{
    let has_content_length = headers.has("Content-Length");
    if !has_content_length && !has_transfer_encoding && body.is_body_string() {
        let length = usize_to_string(body.length());
        Some(headers.add(("Content-Length", length.as_str())))
    } else if !has_content_length && !has_transfer_encoding && body.is_body_stream() && version.major
        == 1 && version.minor == 1 {
        Some(headers.add(("Transfer-Encoding", "chunked")))
    } else {
        None
    }
}

/// The message with a Content-Length header giving its body's length in bytes, when it
/// has neither a Content-Length nor a Transfer-Encoding header; such a message must
/// have a string body.
pub fn with_content_length<'a>(message: HttpMessage<'a>) -> (r: HttpMessage<'a>)
    requires
        ({
            let (h, b) = match message {
                HttpMessage::Request(q) => (q@.headers, q.body),
                HttpMessage::Response(s) => (s@.headers, s.body),
            };
            lacks_length(h) ==> b is BodyString
        }),
    ensures
        match message {
            HttpMessage::Request(q) => r matches HttpMessage::Request(q2) && q2@ == (RequestView {
                headers: if lacks_length(q@.headers) {
                    spec_add(
                        q@.headers,
                        "Content-Length"@,
                        decimal((q.body->BodyString_0.len() as u32) as nat),
                    )
                } else {
                    q@.headers
                },
                ..q@
            }),
            HttpMessage::Response(s) => r matches HttpMessage::Response(s2) && s2@ == (ResponseView {
                headers: if lacks_length(s@.headers) {
                    spec_add(
                        s@.headers,
                        "Content-Length"@,
                        decimal((s.body->BodyString_0.len() as u32) as nat),
                    )
                } else {
                    s@.headers
                },
                ..s@
            }),
        },
{
    match message {
        HttpMessage::Request(request) => {
            if !request.headers.has("Content-Length") && !request.headers.has("Transfer-Encoding") {
                let length = usize_to_string(crate::http_message::body_length(&request.body) as usize);
                let headers = request.headers.add(("Content-Length", length.as_str()));
                HttpMessage::Request(Request { headers, ..request })
            } else {
                HttpMessage::Request(request)
            }
        },
        HttpMessage::Response(response) => {
            if !response.headers.has("Content-Length") && !response.headers.has(
                "Transfer-Encoding",
            ) {
                let length = usize_to_string(crate::http_message::body_length(&response.body) as usize);
                let headers = response.headers.add(("Content-Length", length.as_str()));
                HttpMessage::Response(Response { headers, ..response })
            } else {
                HttpMessage::Response(response)
            }
        },
    }
}

// ---------------------------------------------------------------- start lines

/// The code of a character taken as a byte (its low eight bits).
pub open spec fn char_byte(c: char) -> u8 {
    (c as u32) as u8
}

/// The version the start line's version part gives: the characters at indices 0 and 3,
/// each taken as a byte.
pub open spec fn spec_http_version_from(s: Seq<char>) -> (u8, u8) {
    (char_byte(s[0]), char_byte(s[3]))
}

fn byte_of_char(c: char) -> (r: u8)
    ensures
        r == char_byte(c),
{
    let v = c as u32;
    #[verifier::truncate]
    (v as u8)
}

/// The characters at indices 0 and 3 of `str`, each taken as a byte; `str` must have at
/// least four characters.
pub fn http_version_from(str: &str) -> (r: (u8, u8))
    requires
        str@.len() >= 4,
    ensures
        r == spec_http_version_from(str@),
{
    let major = str.get_char(0);
    let minor = str.get_char(3);
    (byte_of_char(major), byte_of_char(minor))
}

/// The message a start line and what was read after it make: a response when the
/// first part starts with `HTTP`, with the status of the second part and the version
/// read from the first part; otherwise a request with the method of the first part,
/// the URI of the second and the version read from the third.
pub fn message<'a>(
    part1: String,
    part2: &'a str,
    part3: String,
    is_response: bool,
    body: Body<'a>,
    headers: Headers,
    trailers: Headers,
) -> (r: Result<HttpMessage<'a>, MessageError>)
    requires
        is_response ==> part1@.len() >= 4,
        !is_response ==> part3@.len() >= 4 && is_known_method(part1@),
    ensures
        is_response ==> (r matches Ok(HttpMessage::Response(s)) && s@ == (ResponseView {
            status: spec_status_from(spec_to_lowercase(part2@)),
            headers: headers@,
            body: body@,
            version: HttpVersion {
                major: spec_http_version_from(part1@).0,
                minor: spec_http_version_from(part1@).1,
            },
            trailers: trailers@,
        })),
        !is_response ==> (r matches Ok(HttpMessage::Request(q)) && q@ == (RequestView {
            method: spec_method_from(part1@),
            uri: spec_parse_uri(part2@),
            headers: headers@,
            body: body@,
            version: HttpVersion {
                major: spec_http_version_from(part3@).0,
                minor: spec_http_version_from(part3@).1,
            },
            trailers: trailers@,
        })),
{
    if is_response {
        let (major, minor) = http_version_from(part1.as_str());
        Ok(
            HttpMessage::Response(
                Response {
                    status: Status::from(part2),
                    headers,
                    body,
                    version: HttpVersion { major, minor },
                    trailers,
                },
            ),
        )
    } else {
        let (major, minor) = http_version_from(part3.as_str());
        Ok(
            HttpMessage::Request(
                Request {
                    method: Method::from(part1.as_str()),
                    uri: Uri::parse(part2),
                    headers,
                    body,
                    version: HttpVersion { major, minor },
                    trailers,
                },
            ),
        )
    }
}

/// The first three space-separated parts of a start line, if it has three.
pub open spec fn spec_start_line_parts(s: Seq<char>) -> Option<(Seq<char>, Seq<char>, Seq<char>)> {
    let p = split_seq(s, " "@);
    if p.len() >= 3 {
        Some((p[0], p[1], p[2]))
    } else {
        None
    }
}

/// The first three space-separated parts of a start line, or `None` when it has fewer.
pub fn start_line_parts<'a>(line: &'a str) -> (r: Option<(&'a str, &'a str, &'a str)>)
    ensures
        match r {
            Some(t) => spec_start_line_parts(line@) == Some((t.0@, t.1@, t.2@)),
            None => spec_start_line_parts(line@) is None,
        },
{
    proof {
        reveal_strlit(" ");
    }
    let parts = split_str(line, " ");
    if parts.len() >= 3 {
        proof {
            assert(str_views(parts@)[0] == parts@[0]@);
            assert(str_views(parts@)[1] == parts@[1]@);
            assert(str_views(parts@)[2] == parts@[2]@);
        }
        Some((parts[0], parts[1], parts[2]))
    } else {
        None
    }
}

/// A start line whose first part starts with `HTTP` is a status line.
pub fn is_status_line(part1: &str) -> (r: bool)
    ensures
        r == starts_with(part1@, "HTTP"@),
{
    starts_with_str(part1, "HTTP")
}

/// The methods whose requests may carry a body.
pub open spec fn spec_method_can_have_body(m: Seq<char>) -> bool {
    m == "POST"@ || m == "PUT"@ || m == "PATCH"@ || m == "DELETE"@
}

/// The requests whose body is read are exactly those of POST, PUT, PATCH and DELETE: a
/// request line starting with such a method's name is not a status line, and its
/// message's body is read (and its length required); the other methods' bodies are not.
pub proof fn law_methods_with_bodies(m: Method)
    ensures
        spec_method_can_have_body(method_name(m)) <==> (m == Method::POST || m == Method::PUT
            || m == Method::PATCH || m == Method::DELETE),
        !starts_with(method_name(m), "HTTP"@),
{
    reveal_strlit("GET");
    reveal_strlit("POST");
    reveal_strlit("PUT");
    reveal_strlit("PATCH");
    reveal_strlit("DELETE");
    reveal_strlit("OPTIONS");
    reveal_strlit("CONNECT");
    reveal_strlit("HEAD");
    reveal_strlit("TRACE");
    reveal_strlit("HTTP");
    let n = method_name(m);
    assert("GET"@[0] != "PUT"@[0]);
    assert("HEAD"@[0] != "POST"@[0]);
    assert("TRACE"@[0] != "PATCH"@[0]);
    if n.len() >= 4 {
        assert(n.subrange(0, 4)[0] == n[0]);
        assert("HTTP"@[0] == 'H');
        if m == Method::HEAD {
            assert(n.subrange(0, 4)[1] == n[1]);
            assert(n[1] != "HTTP"@[1]);
        }
    }
}

/// A request with this method may carry a body: POST, PUT, PATCH or DELETE.
pub fn method_can_have_body(part1: &str) -> (r: bool)
    ensures
        r == spec_method_can_have_body(part1@),
{
    str_eq(part1, "POST") || str_eq(part1, "PUT") || str_eq(part1, "PATCH") || str_eq(part1, "DELETE")
}

/// The view of an optional string.
pub open spec fn string_opt_view(o: Option<String>) -> Option<Seq<char>> {
    match o {
        Some(s) => Some(s@),
        None => None,
    }
}

/// What the start line and the headers of a message say before its body is read.
pub struct MessageHead<'a> {
    pub part1: &'a str,
    pub part2: &'a str,
    pub part3: &'a str,
    pub is_response: bool,
    pub method_can_have_body: bool,
    pub is_version_1_0: bool,
    pub headers: Headers,
    pub transfer_encoding: Option<String>,
}

/// The headers a message keeps: a Content-Length is dropped when a Transfer-Encoding
/// is also given.
pub open spec fn kept_headers(h: Seq<HeaderView>) -> Seq<HeaderView> {
    if spec_get(h, "Content-Length"@) is Some && spec_get(h, "Transfer-Encoding"@) is Some {
        spec_remove(h, "Content-Length"@)
    } else {
        h
    }
}

/// Reads the start line and the header block of a message. The start line must have
/// three space-separated parts and each header line a `": "`. Fails, as
/// `check_valid_content_length_or_transfer_encoding` says, when the message does not
/// say how long its body is.
pub fn message_head<'a>(start_line: &'a str, header_string: &str) -> (r: Result<MessageHead<'a>, MessageError>)
    requires
        spec_start_line_parts(start_line@) is Some,
        parse_from_ok(header_string@),
    ensures
        ({
            let p = spec_start_line_parts(start_line@).unwrap();
            let h = spec_parse_from(header_string@);
            let is_response = starts_with(p.0, "HTTP"@);
            let can_have_body = spec_method_can_have_body(p.0);
            &&& r is Err <==> length_required(is_response, can_have_body) && lacks_length(h)
            &&& r matches Err(e) ==> e matches MessageError::NoContentLengthOrTransferEncoding(t)
                && t@ == no_length_text()
            &&& r matches Ok(m) ==> {
                &&& m.part1@ == p.0 && m.part2@ == p.1 && m.part3@ == p.2
                &&& m.is_response == is_response
                &&& m.method_can_have_body == can_have_body
                &&& m.is_version_1_0 == (p.2 == "HTTP/1.0"@)
                &&& string_opt_view(m.transfer_encoding) == spec_get(h, "Transfer-Encoding"@)
                &&& m.headers@ == kept_headers(h)
            }
        }),
{
    let parts = start_line_parts(start_line);
    let (part1, part2, part3) = match parts {
        Some(t) => t,
        None => {
            proof {
                assert(false);
            }
            unreached()
        },
    };
    let is_response = is_status_line(part1);
    let can_have_body = method_can_have_body(part1);
    let mut headers = Headers::parse_from(header_string);
    if let Err(e) = check_valid_content_length_or_transfer_encoding(&headers, is_response, can_have_body) {
        return Err(e);
    }
    let transfer_encoding = headers.get("Transfer-Encoding");
    if headers.has("Content-Length") && transfer_encoding.is_some() {
        headers = headers.remove("Content-Length");
    }
    let is_version_1_0 = str_eq(part3, "HTTP/1.0");
    Ok(
        MessageHead {
            part1,
            part2,
            part3,
            is_response,
            method_can_have_body: can_have_body,
            is_version_1_0,
            headers,
            transfer_encoding,
        },
    )
}

// ---------------------------------------------------------------- bodies framed by a length

/// How a body framed by its Content-Length is to be read.
#[derive(PartialEq, Eq, Structural, Debug, Clone, Copy)]
pub enum BodyPlan {
    /// There is no body.
    Empty,
    /// The bytes already buffered are the whole body, as text.
    Buffered,
    /// The bytes already buffered, then this many more from the connection.
    BufferedThenStream(u64),
    /// This many bytes from the connection.
    Stream(u64),
}

/// The text of the error for a Content-Length that cannot be read.
pub open spec fn bad_length_text(value: Seq<char>) -> Seq<char> {
    "Content Length header couldn't be parsed, got "@ + value
}

/// How to read a body whose length the Content-Length gives, with `buffered` bytes of
/// it already read, and the headers the message keeps. A request whose method carries
/// no body has none, and its Content-Length becomes `0`.
pub fn content_length_body(
    headers: Headers,
    content_length: Option<Result<usize, String>>,
    buffered: usize,
    is_request: bool,
    method_can_have_body: bool,
) -> (r: Result<(BodyPlan, Headers), MessageError>)
    ensures
        match content_length {
            Some(_) if is_request && !method_can_have_body => r matches Ok((plan, h)) && plan
                == BodyPlan::Empty && h@ == spec_replace(headers@, "Content-Length"@, "0"@),
            Some(Ok(n)) => r matches Ok((plan, h)) && h@ == headers@ && plan == (if buffered == n {
                BodyPlan::Buffered
            } else if n > buffered {
                BodyPlan::BufferedThenStream((n - buffered) as u64)
            } else {
                BodyPlan::Stream(n as u64)
            }),
            Some(Err(v)) => r matches Err(e) && e matches MessageError::InvalidContentLength(t)
                && t@ == bad_length_text(v@),
            None => r matches Ok((plan, h)) && plan == BodyPlan::Empty && h@ == headers@,
        },
{
    match content_length {
        Some(_) if is_request && !method_can_have_body => {
            let h = headers.replace(("Content-Length", "0"));
            Ok((BodyPlan::Empty, h))
        },
        Some(Ok(n)) => {
            if buffered == n {
                Ok((BodyPlan::Buffered, headers))
            } else if n > buffered {
                Ok((BodyPlan::BufferedThenStream((n - buffered) as u64), headers))
            } else {
                Ok((BodyPlan::Stream(n as u64), headers))
            }
        },
        Some(Err(v)) => {
            let mut t = "Content Length header couldn't be parsed, got ".to_owned();
            t.append(v.as_str());
            Err(MessageError::InvalidContentLength(t))
        },
        None => Ok((BodyPlan::Empty, headers)),
    }
}

// ---------------------------------------------------------------- chunked bodies

/// The names that may be taken from trailers: those not in the disallowed list.
pub open spec fn allowed_trailer_names(names: Seq<Seq<char>>) -> Seq<Seq<char>>
    decreases names.len(),
{
    if names.len() == 0 {
        names
    } else if is_disallowed_trailer_spec(names.last()) {
        allowed_trailer_names(names.drop_last())
    } else {
        allowed_trailer_names(names.drop_last()).push(names.last())
    }
}

/// The trailers the Trailer header announces, without the disallowed ones.
pub open spec fn expected_trailer_names(h: Seq<HeaderView>) -> Seq<Seq<char>> {
    match spec_get(h, "Trailer"@) {
        Some(v) => allowed_trailer_names(split_seq(v, comma_space())),
        None => Seq::empty(),
    }
}

/// The TE header says that trailers are accepted.
pub open spec fn accepts_trailers(h: Seq<HeaderView>) -> bool {
    match spec_get(h, "TE"@) {
        Some(t) => contains_seq(t, "trailers"@),
        None => false,
    }
}

/// The headers and trailers of a message whose chunked body of `n` bytes was read:
/// where trailers are not accepted, the announced, allowed trailers go into the headers
/// (by `add_all`) and no trailers are kept; a request over HTTP/1.0 gets a
/// Content-Length of `n` in place of its Transfer-Encoding.
pub open spec fn spec_chunked_headers(
    h: Seq<HeaderView>,
    trailers: Seq<HeaderView>,
    n: nat,
    is_request: bool,
    is_version_1_0: bool,
) -> (Seq<HeaderView>, Seq<HeaderView>) {
    let (h1, t1) = if !accepts_trailers(h) {
        (spec_add_all(h, spec_filter(trailers, expected_trailer_names(h))), Seq::empty())
    } else {
        (h, trailers)
    };
    if is_request && is_version_1_0 {
        (spec_remove(spec_add(h1, "Content-Length"@, decimal(n)), "Transfer-Encoding"@), t1)
    } else {
        (h1, t1)
    }
}

fn allowed_trailers<'a>(names: &Vec<&'a str>) -> (r: Vec<&'a str>)
    ensures
        str_views(r@) == allowed_trailer_names(str_views(names@)),
{
    let mut out: Vec<&'a str> = Vec::new();
    let mut i: usize = 0;
    while i < names.len()
        invariant
            i <= names@.len(),
            str_views(out@) == allowed_trailer_names(str_views(names@).take(i as int)),
        decreases names@.len() - i,
    {
        let name = names[i];
        proof {
            assert(str_views(names@).take(i + 1).drop_last() =~= str_views(names@).take(i as int));
            assert(str_views(names@).take(i + 1).last() == name@);
        }
        if !is_disallowed_trailer(name) {
            out.push(name);
            proof {
                assert(str_views(out@) =~= allowed_trailer_names(str_views(names@).take(i as int)).push(name@));
            }
        }
        i = i + 1;
    }
    proof {
        assert(str_views(names@).take(i as int) =~= str_views(names@));
    }
    out
}

/// The headers and trailers a message ends with once its chunked body of `body_bytes`
/// bytes was read (see `spec_chunked_headers`).
pub fn chunked_headers(
    headers: Headers,
    trailers: Headers,
    body_bytes: usize,
    is_request: bool,
    is_version_1_0: bool,
) -> (r: (Headers, Headers))
    ensures
        (r.0@, r.1@) == spec_chunked_headers(
            headers@,
            trailers@,
            body_bytes as nat,
            is_request,
            is_version_1_0,
        ),
{
    let expected = headers.get("Trailer");
    let te = headers.get("TE");
    let happy_to_receive_trailers = match &te {
        Some(t) => contains_str(t.as_str(), "trailers"),
        None => false,
    };
    let mut h = headers;
    let mut t = trailers;
    if !happy_to_receive_trailers {
        let names: Vec<&str> = match &expected {
            Some(v) => {
                let pieces = split_str(v.as_str(), comma_space_str());
                allowed_trailers(&pieces)
            },
            None => Vec::new(),
        };
        proof {
            if expected is None {
                assert(str_views(names@) =~= Seq::<Seq<char>>::empty());
            }
        }
        let filtered = t.filter(names);
        h = h.add_all(filtered);
        t = Headers::empty();
    }
    if is_request && is_version_1_0 {
        let length = usize_to_string(body_bytes);
        h = h.add(("Content-Length", length.as_str())).remove("Transfer-Encoding");
    }
    (h, t)
}

/// Where reading a chunked body stands between reads from the connection.
pub struct ChunkedProgress {
    pub finished: bool,
    pub mode: ChunkMode,
    pub bytes_read: usize,
    pub read_of_current_chunk: usize,
    pub chunk_size: usize,
    pub start_of_trailers: usize,
    pub last_read_bytes: usize,
}

impl ChunkedProgress {
    /// The progress after decoding the bytes buffered with the head, `buffer_len` of them.
    pub fn start(buffer_len: usize, first: (bool, ChunkMode, usize, usize, usize, usize)) -> (r: ChunkedProgress)
        ensures
            r == (ChunkedProgress {
                finished: first.0,
                mode: first.1,
                bytes_read: first.2,
                read_of_current_chunk: first.3,
                chunk_size: first.4,
                start_of_trailers: first.5,
                last_read_bytes: buffer_len,
            }),
    {
        ChunkedProgress {
            finished: first.0,
            mode: first.1,
            bytes_read: first.2,
            read_of_current_chunk: first.3,
            chunk_size: first.4,
            start_of_trailers: first.5,
            last_read_bytes: buffer_len,
        }
    }

    /// The progress after `read` more bytes were read and decoded with `result`; the
    /// count of body bytes must fit in `usize`.
    pub fn next(&self, read: usize, result: (bool, ChunkMode, usize, usize, usize, usize)) -> (r: ChunkedProgress)
        requires
            self.bytes_read + result.2 <= usize::MAX,
        ensures
            r == (ChunkedProgress {
                finished: result.0,
                mode: result.1,
                bytes_read: (self.bytes_read + result.2) as usize,
                read_of_current_chunk: result.3,
                chunk_size: result.4,
                start_of_trailers: result.5,
                last_read_bytes: read,
            }),
    {
        ChunkedProgress {
            finished: result.0,
            mode: result.1,
            bytes_read: self.bytes_read + result.2,
            read_of_current_chunk: result.3,
            chunk_size: result.4,
            start_of_trailers: result.5,
            last_read_bytes: read,
        }
    }

    /// Trailers follow the body in what was last read.
    pub fn more_bytes_after_body(&self) -> (r: bool)
        ensures
            r == (self.start_of_trailers < self.last_read_bytes),
    {
        self.start_of_trailers < self.last_read_bytes
    }
}

// ---------------------------------------------------------------- writing messages

/// The head of a request: `"{method} {uri} HTTP/{major}.{minor}\r\n{headers}\r\n\r\n"`.
pub open spec fn request_head(method: Method, uri: UriView, version: HttpVersion, h: Seq<HeaderView>) -> Seq<char> {
    method_name(method) + seq![' '] + spec_uri_string(uri) + " HTTP/"@ + decimal(version.major as nat)
        + seq!['.'] + decimal(version.minor as nat) + crlf() + spec_wire_string(h) + crlf() + crlf()
}

/// The head of a response: `"HTTP/1.1 {code} {text}\r\n{headers}\r\n\r\n"`.
pub open spec fn response_head(status: Status, h: Seq<HeaderView>) -> Seq<char> {
    "HTTP/1.1 "@ + decimal(status_code(status) as nat) + seq![' '] + status_text(status) + crlf()
        + spec_wire_string(h) + crlf() + crlf()
}

/// The headers a message is sent with (see `spec_ensure_length`).
pub open spec fn sent_headers(h: Seq<HeaderView>, body: BodyView, version: HttpVersion) -> Seq<HeaderView> {
    match spec_ensure_length(h, body, spec_get(h, "Transfer-Encoding"@) is Some, version) {
        Some(h2) => h2,
        None => h,
    }
}

/// The head and the body on the wire: in the chunked coding when `chunked`, else as
/// they are.
pub open spec fn head_and_body(head: Seq<char>, body: BodyView, chunked: bool, trailers: Seq<HeaderView>) -> Seq<u8> {
    match body {
        BodyView::Text(s) => if chunked {
            encode_utf8(head + chunked_tail(s, str_byte_len(s), trailers))
        } else {
            encode_utf8(head + s)
        },
        BodyView::Bytes(b) => if chunked {
            chunked_stream(encode_utf8(head), b, trailers)
        } else {
            encode_utf8(head) + b
        },
    }
}

/// What is written for a request: its head, then its body, in the chunked coding when
/// it has a Transfer-Encoding header and is HTTP/1.1.
pub open spec fn request_wire(q: RequestView) -> Seq<u8> {
    let h = sent_headers(q.headers, q.body, q.version);
    let chunked = spec_get(q.headers, "Transfer-Encoding"@) is Some && q.version == (HttpVersion {
        major: 1,
        minor: 1,
    });
    head_and_body(request_head(q.method, q.uri, q.version, h), q.body, chunked, q.trailers)
}

/// What is written for a response: its head, then its body, in the chunked coding when
/// the headers it is sent with have a Transfer-Encoding and it is HTTP/1.1; a string
/// body sent as it is is followed by its trailers, if any.
pub open spec fn response_wire(s: ResponseView) -> Seq<u8> {
    let h = sent_headers(s.headers, s.body, s.version);
    let chunked = spec_get(h, "Transfer-Encoding"@) is Some && s.version == (HttpVersion {
        major: 1,
        minor: 1,
    });
    let head = response_head(s.status, h);
    match s.body {
        BodyView::Text(t) => if !chunked && s.trailers.len() > 0 {
            encode_utf8(head + t) + encode_utf8(crlf() + spec_wire_string(s.trailers) + crlf() + crlf())
        } else {
            head_and_body(head, s.body, chunked, s.trailers)
        },
        BodyView::Bytes(_) => head_and_body(head, s.body, chunked, s.trailers),
    }
}

/// The bytes of `s`.
fn bytes_of(s: &str) -> (r: Vec<u8>)
    ensures
        r@ == encode_utf8(s@),
{
    s.as_bytes_vec()
}

/// The head of a request (see `request_head`).
fn request_line_and_headers(method: &Method, uri: &Uri, version: &HttpVersion, headers: &Headers) -> (r: String)
    ensures
        r@ == request_head(*method, uri@, *version, headers@),
{
    proof {
        reveal_strlit(" ");
        reveal_strlit(" HTTP/");
        reveal_strlit(".");
    }
    let mut out = method.value();
    out.append(" ");
    let u = uri.to_string();
    out.append(u.as_str());
    out.append(" HTTP/");
    let major = usize_to_string(version.major as usize);
    out.append(major.as_str());
    out.append(".");
    let minor = usize_to_string(version.minor as usize);
    out.append(minor.as_str());
    out.append(crlf_str());
    let wire = headers.to_wire_string();
    out.append(wire.as_str());
    out.append(crlf_str());
    out.append(crlf_str());
    proof {
        assert(out@ =~= request_head(*method, uri@, *version, headers@));
    }
    out
}

/// The head and the body as `head_and_body` gives them.
fn write_head_and_body(head: String, body: Body, chunked: bool, trailers: &Headers) -> (r: Vec<u8>)
    ensures
        r@ == head_and_body(head@, body@, chunked, trailers@),
{
    match body {
        Body::BodyString(s) => {
            if chunked {
                let text = write_chunked_string(head, s, trailers);
                bytes_of(text.as_str())
            } else {
                let mut text = head;
                text.append(s);
                bytes_of(text.as_str())
            }
        },
        Body::BodyStream(b) => {
            if chunked {
                let reads = stream_reads(b);
                proof {
                    crate::chunked::lemma_stream_as_reads(encode_utf8(head@), b@, trailers@);
                }
                write_chunked_stream(&head, &reads, trailers)
            } else {
                let mut out = bytes_of(head.as_str());
                push_bytes(&mut out, b);
                out
            }
        },
    }
}

/// What is written to the wire for a message (see `request_wire` and `response_wire`).
pub fn write_body(message: HttpMessage) -> (r: Vec<u8>)
    ensures
        match message {
            HttpMessage::Request(q) => r@ == request_wire(q@),
            HttpMessage::Response(s) => r@ == response_wire(s@),
        },
{
    match message {
        HttpMessage::Request(req) => {
            let Request { headers, body, uri, method, version, trailers } = req;
            let has_transfer_encoding = headers.has("Transfer-Encoding");
            let sent = match ensure_content_length_or_transfer_encoding(
                &headers,
                &body,
                has_transfer_encoding,
                &version,
            ) {
                Some(h) => h,
                None => headers,
            };
            let head = request_line_and_headers(&method, &uri, &version, &sent);
            let chunked = has_transfer_encoding && version.major == 1 && version.minor == 1;
            write_head_and_body(head, body, chunked, &trailers)
        },
        HttpMessage::Response(res) => {
            let Response { headers, body, status, version, trailers } = res;
            let has_transfer_encoding = headers.has("Transfer-Encoding");
            let sent = match ensure_content_length_or_transfer_encoding(
                &headers,
                &body,
                has_transfer_encoding,
                &version,
            ) {
                Some(h) => h,
                None => headers,
            };
            let head = Response::status_line_and_headers_wire_string(&sent, &status);
            let chunked = sent.has("Transfer-Encoding") && version.major == 1 && version.minor == 1;
            match body {
                Body::BodyString(t) => {
                    if !chunked && !trailers.is_empty() {
                        let mut text = head;
                        text.append(t);
                        let mut out = bytes_of(text.as_str());
                        let mut tail = crlf_str().to_owned();
                        let wire = trailers.to_wire_string();
                        tail.append(wire.as_str());
                        tail.append(crlf_str());
                        tail.append(crlf_str());
                        let more = bytes_of(tail.as_str());
                        push_bytes(&mut out, more.as_slice());
                        out
                    } else {
                        write_head_and_body(head, Body::BodyString(t), chunked, &trailers)
                    }
                },
                Body::BodyStream(b) => write_head_and_body(head, Body::BodyStream(b), chunked, &trailers),
            }
        },
    }
}

// ---------------------------------------------------------------- answering errors

/// The status a server answers an error in a request with: 411 when the request did not
/// say how long its body is, 400 otherwise.
pub open spec fn error_status(e: MessageError) -> Status {
    match e {
        MessageError::NoContentLengthOrTransferEncoding(_) => Status::LengthRequired,
        _ => Status::BadRequest,
    }
}

/// The text an error carries.
pub open spec fn error_text(e: MessageError) -> Seq<char> {
    match e {
        MessageError::InvalidContentLength(m) => m@,
        MessageError::NoContentLengthOrTransferEncoding(m) => m@,
        MessageError::StartLineTooBig(m) => m@,
        MessageError::HeadersTooBig(m) => m@,
        MessageError::TrailersTooBig(m) => m@,
        MessageError::InvalidBoundaryDigit(m) => m@,
    }
}

/// The response a server gives to a request it could not read: the error's status
/// (see `error_status`) with the error's text as the body.
pub fn error_response<'a>(e: &'a MessageError) -> (r: Response<'a>)
    ensures
        r@ == response_of(error_status(*e), Seq::empty(), BodyView::Text(error_text(*e))),
{
    match e {
        MessageError::NoContentLengthOrTransferEncoding(m) => Response::length_required(
            Headers::empty(),
            Body::BodyString(m.as_str()),
        ),
        MessageError::InvalidContentLength(m) => Response::bad_request(Headers::empty(), Body::BodyString(m.as_str())),
        MessageError::StartLineTooBig(m) => Response::bad_request(Headers::empty(), Body::BodyString(m.as_str())),
        MessageError::HeadersTooBig(m) => Response::bad_request(Headers::empty(), Body::BodyString(m.as_str())),
        MessageError::TrailersTooBig(m) => Response::bad_request(Headers::empty(), Body::BodyString(m.as_str())),
        MessageError::InvalidBoundaryDigit(m) => Response::bad_request(Headers::empty(), Body::BodyString(m.as_str())),
    }
}

} // verus!
