//! HTTP messages: requests, responses, bodies, methods and status codes.

use vstd::prelude::*;
use vstd::string::StringSliceAdditionalSpecFns;
use vstd::utf8::{decode_utf8, encode_utf8_decode_utf8, valid_utf8};

use crate::headers::{spec_add, spec_add_all, spec_wire_string, HeaderView, Headers};
use crate::text::{colon_space, colon_space_str, concat3, crlf, crlf_str, decimal, is_digit, str_eq, usize_to_string};
use crate::uri::{Uri, UriView};
use crate::headers::pair_views;

pub use crate::exchange::{
    check_valid_content_length_or_transfer_encoding, ensure_content_length_or_transfer_encoding,
    http_version_from, message, with_content_length, write_body,
};
pub use crate::header_list::{
    add_header, content_length_header, header, headers_to_string, js_headers_from_string,
    js_headers_to_string, parse_headers, Header,
};
pub use crate::chunked::{write_chunked_stream, write_chunked_string};
pub use crate::wire::{body_chunks_, headers_, start_line_, trailers_};

verus! {

// ---------------------------------------------------------------- messages

pub enum HttpMessage<'a> {
    Request(Request<'a>),
    Response(Response<'a>),
}

pub enum Body<'a> {
    BodyString(&'a str),
    BodyStream(&'a [u8]),
}

/// A body as text or as bytes.
pub enum BodyView {
    Text(Seq<char>),
    Bytes(Seq<u8>),
}

impl<'a> View for Body<'a> {
    type V = BodyView;

    open spec fn view(&self) -> BodyView {
        match self {
            Body::BodyString(s) => BodyView::Text(s@),
            Body::BodyStream(b) => BodyView::Bytes(b@),
        }
    }
}

#[derive(PartialEq, Eq, Structural, Debug, Clone, Copy)]
pub struct HttpVersion {
    pub major: u8,
    pub minor: u8,
}

pub struct Request<'a> {
    pub headers: Headers,
    pub body: Body<'a>,
    pub uri: Uri<'a>,
    pub method: Method,
    pub version: HttpVersion,
    pub trailers: Headers,
}

pub struct Response<'a> {
    pub headers: Headers,
    pub body: Body<'a>,
    pub status: Status,
    pub version: HttpVersion,
    pub trailers: Headers,
}

pub struct RequestView {
    pub headers: Seq<HeaderView>,
    pub body: BodyView,
    pub uri: UriView,
    pub method: Method,
    pub version: HttpVersion,
    pub trailers: Seq<HeaderView>,
}

pub struct ResponseView {
    pub headers: Seq<HeaderView>,
    pub body: BodyView,
    pub status: Status,
    pub version: HttpVersion,
    pub trailers: Seq<HeaderView>,
}

impl<'a> View for Request<'a> {
    type V = RequestView;

    open spec fn view(&self) -> RequestView {
        RequestView {
            headers: self.headers@,
            body: self.body@,
            uri: self.uri@,
            method: self.method,
            version: self.version,
            trailers: self.trailers@,
        }
    }
}

impl<'a> View for Response<'a> {
    type V = ResponseView;

    open spec fn view(&self) -> ResponseView {
        ResponseView {
            headers: self.headers@,
            body: self.body@,
            status: self.status,
            version: self.version,
            trailers: self.trailers@,
        }
    }
}

impl<'a> HttpMessage<'a> {
    pub fn is_req(&self) -> (r: bool)
        ensures
            r == (self is Request),
    {
        match self {
            HttpMessage::Request(_) => true,
            HttpMessage::Response(_) => false,
        }
    }

    pub fn is_res(&self) -> (r: bool)
        ensures
            r == (self is Response),
    {
        match self {
            HttpMessage::Request(_) => false,
            HttpMessage::Response(_) => true,
        }
    }

    /// The request; the message must be one.
    pub fn to_req(self) -> (r: Request<'a>)
        requires
            self is Request,
        ensures
            self == HttpMessage::Request(r),
    {
        match self {
            HttpMessage::Request(req) => req,
            HttpMessage::Response(_) => {
                proof {
                    assert(false);
                }
                unreached()
            },
        }
    }

    /// The response; the message must be one.
    pub fn to_res(self) -> (r: Response<'a>)
        requires
            self is Response,
        ensures
            self == HttpMessage::Response(r),
    {
        match self {
            HttpMessage::Response(res) => res,
            HttpMessage::Request(_) => {
                proof {
                    assert(false);
                }
                unreached()
            },
        }
    }

    /// The response; the message must be one.
    pub fn as_res(self) -> (r: Response<'a>)
        requires
            self is Response,
        ensures
            self == HttpMessage::Response(r),
    {
        self.to_res()
    }

    /// The request; the message must be one.
    pub fn as_req(self) -> (r: Request<'a>)
        requires
            self is Request,
        ensures
            self == HttpMessage::Request(r),
    {
        self.to_req()
    }
}

// ---------------------------------------------------------------- errors

#[derive(Clone, Debug)]
pub enum MessageError {
    InvalidContentLength(String),
    NoContentLengthOrTransferEncoding(String),
    StartLineTooBig(String),
    HeadersTooBig(String),
    TrailersTooBig(String),
    InvalidBoundaryDigit(String),
}

pub open spec fn message_error_text(e: MessageError) -> Seq<char> {
    match e {
        MessageError::InvalidContentLength(_) => "Invalid content length"@,
        MessageError::NoContentLengthOrTransferEncoding(_) => "No content length or transfer encoding"@,
        MessageError::StartLineTooBig(_) => "Start line too big"@,
        MessageError::HeadersTooBig(_) => "Headers too big"@,
        MessageError::TrailersTooBig(_) => "Trailers too big"@,
        MessageError::InvalidBoundaryDigit(_) => "Invalid boundary digit in chunked encoding"@,
    }
}

impl MessageError {
    /// A short description of the kind of error.
    pub fn to_string(&self) -> (r: String)
        ensures
            r@ == message_error_text(*self),
    {
        match self {
            MessageError::InvalidContentLength(_) => "Invalid content length".to_owned(),
            MessageError::NoContentLengthOrTransferEncoding(_) => "No content length or transfer encoding".to_owned(),
            MessageError::StartLineTooBig(_) => "Start line too big".to_owned(),
            MessageError::HeadersTooBig(_) => "Headers too big".to_owned(),
            MessageError::TrailersTooBig(_) => "Trailers too big".to_owned(),
            MessageError::InvalidBoundaryDigit(_) => "Invalid boundary digit in chunked encoding".to_owned(),
        }
    }
}

/// What reading one part of a message gave: whether the part is complete and how far
/// into the buffer reading went, or an error.
pub enum ReadResult {
    Read((bool, usize)),
    Error(MessageError),
}

impl ReadResult {
    pub fn of(pair: (bool, usize)) -> (r: ReadResult)
        ensures
            r == ReadResult::Read(pair),
    {
        ReadResult::Read(pair)
    }

    pub fn error(message_error: MessageError) -> (r: ReadResult)
        ensures
            r == ReadResult::Error(message_error),
    {
        ReadResult::Error(message_error)
    }

    /// The error; the result must be one.
    pub fn err(self) -> (r: MessageError)
        requires
            self is Error,
        ensures
            self == ReadResult::Error(r),
    {
        match self {
            ReadResult::Error(e) => e,
            ReadResult::Read(_) => {
                proof {
                    assert(false);
                }
                unreached()
            },
        }
    }

    pub fn is_err(&self) -> (r: bool)
        ensures
            r == (self is Error),
    {
        match self {
            ReadResult::Read(_) => false,
            ReadResult::Error(_) => true,
        }
    }

    /// The pair; the result must not be an error.
    pub fn unwrap(&self) -> (r: (bool, usize))
        requires
            self is Read,
        ensures
            *self == ReadResult::Read(r),
    {
        match self {
            ReadResult::Read(pair) => *pair,
            ReadResult::Error(_) => {
                proof {
                    assert(false);
                }
                unreached()
            },
        }
    }
}

// ---------------------------------------------------------------- bodies

/// What `std::str::from_utf8` gives: a string exactly when the bytes are valid UTF-8,
/// whose bytes are then the input.
#[verifier::external_body]
pub(crate) fn from_utf8(v: &[u8]) -> (r: Option<&str>)
    ensures
        r is Some <==> valid_utf8(v@),
        r matches Some(s) ==> s.spec_bytes() == v@,
{
    std::str::from_utf8(v).ok()
}

/// `s` without the NUL characters at its end.
pub open spec fn trim_trailing_nuls(s: Seq<char>) -> Seq<char>
    decreases s.len(),
{
    if s.len() > 0 && s.last() == '\0' {
        trim_trailing_nuls(s.drop_last())
    } else {
        s
    }
}

/// The text of a body: the string itself, or the bytes read as UTF-8 without trailing NULs.
pub open spec fn spec_body_string(b: BodyView) -> Seq<char> {
    match b {
        BodyView::Text(s) => s,
        BodyView::Bytes(bytes) => trim_trailing_nuls(decode_utf8(bytes)),
    }
}

/// The body can be read as text.
pub open spec fn body_readable(b: BodyView) -> bool {
    match b {
        BodyView::Text(_) => true,
        BodyView::Bytes(bytes) => valid_utf8(bytes),
    }
}

impl<'a> Body<'a> {
    pub fn empty() -> (r: Body<'a>)
        ensures
            r@ == BodyView::Text(Seq::empty()),
    {
        proof {
            reveal_strlit("");
            assert(""@ =~= Seq::<char>::empty());
        }
        Body::BodyString("")
    }

    pub fn is_body_string(&self) -> (r: bool)
        ensures
            r == (self is BodyString),
    {
        match self {
            Body::BodyString(_) => true,
            Body::BodyStream(_) => false,
        }
    }

    pub fn is_body_stream(&self) -> (r: bool)
        ensures
            r == (self is BodyStream),
    {
        match self {
            Body::BodyString(_) => false,
            Body::BodyStream(_) => true,
        }
    }

    /// The length in bytes of a string body; a stream has no known length.
    pub fn length(&self) -> (r: usize)
        requires
            self is BodyString,
        ensures
            self matches Body::BodyString(s) && r == s.len(),
    {
        match self {
            Body::BodyString(s) => s.len(),
            Body::BodyStream(_) => {
                proof {
                    assert(false);
                }
                unreached()
            },
        }
    }
}

/// The length in bytes of a string body, as a `u32` (taken modulo 2^32).
pub fn body_length(body: &Body) -> (r: u32)
    requires
        body is BodyString,
    ensures
        body matches Body::BodyString(s) && r == s.len() as u32,
{
    match body {
        Body::BodyString(s) => s.len() as u32,
        Body::BodyStream(_) => {
            proof {
                assert(false);
            }
            unreached()
        },
    }
}

/// `s` without its trailing NUL characters.
fn trim_end_nuls(s: &str) -> (r: &str)
    ensures
        r@ == trim_trailing_nuls(s@),
{
    let n = s.unicode_len();
    let mut k = n;
    proof {
        assert(s@.take(n as int) =~= s@);
    }
    while k > 0 && s.get_char(k - 1) == '\0'
        invariant
            k <= n,
            n == s@.len(),
            trim_trailing_nuls(s@) == trim_trailing_nuls(s@.take(k as int)),
        decreases k,
    {
        proof {
            assert(s@.take(k as int).drop_last() =~= s@.take(k - 1));
        }
        k = k - 1;
    }
    proof {
        assert(s@.take(k as int) =~= s@.subrange(0, k as int));
    }
    s.substring_char(0, k)
}

/// The text of a body; a stream must hold valid UTF-8.
pub fn body_string(body: Body) -> (r: String)
    requires
        body_readable(body@),
    ensures
        r@ == spec_body_string(body@),
{
    match body {
        Body::BodyString(s) => s.to_owned(),
        Body::BodyStream(bytes) => {
            let text = from_utf8(bytes);
            match text {
                Some(t) => {
                    proof {
                        encode_utf8_decode_utf8(t@);
                    }
                    trim_end_nuls(t).to_owned()
                },
                None => {
                    proof {
                        assert(false);
                    }
                    unreached()
                },
            }
        },
    }
}

// ---------------------------------------------------------------- versions

pub fn one_pt_one() -> (r: HttpVersion)
    ensures
        r == (HttpVersion { major: 1, minor: 1 }),
{
    HttpVersion { major: 1, minor: 1 }
}

pub fn two_pt_oh() -> (r: HttpVersion)
    ensures
        r == (HttpVersion { major: 2, minor: 0 }),
{
    HttpVersion { major: 2, minor: 0 }
}

pub fn one_pt_oh() -> (r: HttpVersion)
    ensures
        r == (HttpVersion { major: 1, minor: 0 }),
{
    HttpVersion { major: 1, minor: 0 }
}

// ---------------------------------------------------------------- methods

#[derive(PartialEq, Eq, Structural, Debug, Clone, Copy)]
pub enum Method {
    GET,
    CONNECT,
    HEAD,
    POST,
    OPTIONS,
    DELETE,
    PATCH,
    PUT,
    TRACE,
}

pub open spec fn method_name(m: Method) -> Seq<char> {
    match m {
        Method::GET => "GET"@,
        Method::POST => "POST"@,
        Method::PATCH => "PATCH"@,
        Method::OPTIONS => "OPTIONS"@,
        Method::CONNECT => "CONNECT"@,
        Method::HEAD => "HEAD"@,
        Method::DELETE => "DELETE"@,
        Method::PUT => "PUT"@,
        Method::TRACE => "TRACE"@,
    }
}

/// The names that `Method::from` reads (all methods but PUT).
pub open spec fn is_known_method(s: Seq<char>) -> bool {
    s == "GET"@ || s == "POST"@ || s == "PATCH"@ || s == "OPTIONS"@ || s == "DELETE"@ || s
        == "CONNECT"@ || s == "TRACE"@ || s == "HEAD"@
}

/// The method a known name gives.
pub open spec fn spec_method_from(s: Seq<char>) -> Method {
    if s == "GET"@ {
        Method::GET
    } else if s == "POST"@ {
        Method::POST
    } else if s == "PATCH"@ {
        Method::PATCH
    } else if s == "OPTIONS"@ {
        Method::OPTIONS
    } else if s == "DELETE"@ {
        Method::DELETE
    } else if s == "CONNECT"@ {
        Method::CONNECT
    } else if s == "TRACE"@ {
        Method::TRACE
    } else {
        Method::HEAD
    }
}

impl Method {
    /// The name of the method.
    pub fn value(&self) -> (r: String)
        ensures
            r@ == method_name(*self),
    {
        match self {
            Method::GET => "GET".to_owned(),
            Method::POST => "POST".to_owned(),
            Method::PATCH => "PATCH".to_owned(),
            Method::OPTIONS => "OPTIONS".to_owned(),
            Method::CONNECT => "CONNECT".to_owned(),
            Method::HEAD => "HEAD".to_owned(),
            Method::DELETE => "DELETE".to_owned(),
            Method::PUT => "PUT".to_owned(),
            Method::TRACE => "TRACE".to_owned(),
        }
    }

    /// The name of the method, as a string that lives as long as the program.
    pub fn name(&self) -> (r: &'static str)
        ensures
            r@ == method_name(*self),
    {
        match self {
            Method::GET => "GET",
            Method::POST => "POST",
            Method::PATCH => "PATCH",
            Method::OPTIONS => "OPTIONS",
            Method::CONNECT => "CONNECT",
            Method::HEAD => "HEAD",
            Method::DELETE => "DELETE",
            Method::PUT => "PUT",
            Method::TRACE => "TRACE",
        }
    }

    /// The method of a name; the name must be one of the known ones (PUT is not read).
    pub fn from(str: &str) -> (r: Method)
        requires
            is_known_method(str@),
        ensures
            r == spec_method_from(str@),
    {
        if str_eq(str, "GET") {
            Method::GET
        } else if str_eq(str, "POST") {
            Method::POST
        } else if str_eq(str, "PATCH") {
            Method::PATCH
        } else if str_eq(str, "OPTIONS") {
            Method::OPTIONS
        } else if str_eq(str, "DELETE") {
            Method::DELETE
        } else if str_eq(str, "CONNECT") {
            Method::CONNECT
        } else if str_eq(str, "TRACE") {
            Method::TRACE
        } else {
            Method::HEAD
        }
    }
}


/// Reading a method's name gives the method back, for every method but PUT (which
/// `Method::from` does not read).
pub proof fn law_method_name_round_trip(m: Method)
    requires
        m != Method::PUT,
    ensures
        is_known_method(method_name(m)),
        spec_method_from(method_name(m)) == m,
{
    reveal_strlit("GET");
    reveal_strlit("POST");
    reveal_strlit("PATCH");
    reveal_strlit("OPTIONS");
    reveal_strlit("DELETE");
    reveal_strlit("CONNECT");
    reveal_strlit("TRACE");
    reveal_strlit("HEAD");
    let names = seq!["GET"@, "POST"@, "PATCH"@, "OPTIONS"@, "DELETE"@, "CONNECT"@, "TRACE"@, "HEAD"@];
    assert forall|i: int, j: int| 0 <= i < j < 8 implies names[i] != names[j] by {
        if names[i].len() == names[j].len() {
            assert(names[i][0] != names[j][0] || names[i][1] != names[j][1]);
        }
    }
    assert(names[0] == "GET"@);
    assert(names[1] == "POST"@);
    assert(names[2] == "PATCH"@);
    assert(names[3] == "OPTIONS"@);
    assert(names[4] == "DELETE"@);
    assert(names[5] == "CONNECT"@);
    assert(names[6] == "TRACE"@);
    assert(names[7] == "HEAD"@);
}

// ---------------------------------------------------------------- statuses

#[derive(PartialEq, Eq, Structural, Debug, Clone, Copy)]
pub enum Status {
    OK,
    MovedPermanently,
    BadRequest,
    Forbidden,
    LengthRequired,
    NotFound,
    InternalServerError,
    Unknown,
}

pub open spec fn status_text(s: Status) -> Seq<char> {
    match s {
        Status::OK => "OK"@,
        Status::MovedPermanently => "Moved Permanently"@,
        Status::Forbidden => "Forbidden"@,
        Status::NotFound => "Not Found"@,
        Status::BadRequest => "Bad Request"@,
        Status::InternalServerError => "Internal Server Error"@,
        _ => "Unknown"@,
    }
}

/// The code written on the wire for a status; statuses without their own code are 500.
pub open spec fn status_code(s: Status) -> u32 {
    match s {
        Status::OK => 200,
        Status::MovedPermanently => 301,
        Status::BadRequest => 400,
        Status::Forbidden => 403,
        Status::NotFound => 404,
        Status::InternalServerError => 500,
        _ => 500,
    }
}

/// The status a reason word gives (compared in lowercase): `"ok"` and `"not found"` are
/// known; others are `Unknown`.
pub open spec fn spec_status_from_reason(lower: Seq<char>) -> Status {
    if lower == "ok"@ {
        Status::OK
    } else if lower == "not found"@ {
        Status::NotFound
    } else {
        Status::Unknown
    }
}

/// The status a code in a status line gives (compared in lowercase).
pub open spec fn spec_status_from(lower: Seq<char>) -> Status {
    if lower == "200"@ {
        Status::OK
    } else if lower == "400"@ {
        Status::BadRequest
    } else if lower == "404"@ {
        Status::NotFound
    } else {
        Status::Unknown
    }
}

impl Status {
    pub fn to_string(&self) -> (r: String)
        ensures
            r@ == status_text(*self),
    {
        match self {
            Status::OK => "OK".to_owned(),
            Status::MovedPermanently => "Moved Permanently".to_owned(),
            Status::Forbidden => "Forbidden".to_owned(),
            Status::NotFound => "Not Found".to_owned(),
            Status::BadRequest => "Bad Request".to_owned(),
            Status::InternalServerError => "Internal Server Error".to_owned(),
            _ => "Unknown".to_owned(),
        }
    }

    pub fn value(&self) -> (r: u32)
        ensures
            r == status_code(*self),
    {
        match self {
            Status::OK => 200,
            Status::MovedPermanently => 301,
            Status::BadRequest => 400,
            Status::Forbidden => 403,
            Status::NotFound => 404,
            Status::InternalServerError => 500,
            _ => 500,
        }
    }

    /// The numeric code of the statuses that browsers are told about: 200, 404, and 500
    /// for every other status.
    pub fn to_u32(&self) -> (r: u32)
        ensures
            r == (match *self {
                Status::OK => 200u32,
                Status::NotFound => 404u32,
                _ => 500u32,
            }),
    {
        match self {
            Status::OK => 200,
            Status::NotFound => 404,
            Status::InternalServerError => 500,
            _ => 500,
        }
    }

    /// The status of a code: 200, 400 and 404 are known; others are `Unknown`.
    pub fn from(str: &str) -> (r: Status)
        ensures
            r == spec_status_from(crate::text::spec_to_lowercase(str@)),
            vstd::utf8::is_ascii_chars(str@) ==> r == spec_status_from(
                crate::text::ascii_lowercase(str@),
            ),
    {
        let lower = crate::text::to_lowercase(str);
        if str_eq(lower.as_str(), "200") {
            Status::OK
        } else if str_eq(lower.as_str(), "400") {
            Status::BadRequest
        } else if str_eq(lower.as_str(), "404") {
            Status::NotFound
        } else {
            Status::Unknown
        }
    }
}

impl Status {
    /// The status of a reason word, as in status lines that give the reason before the
    /// code: `OK` and `Not Found` (in any case) are known; others are `Unknown`.
    pub fn from_reason(str: &str) -> (r: Status)
        ensures
            r == spec_status_from_reason(crate::text::spec_to_lowercase(str@)),
            vstd::utf8::is_ascii_chars(str@) ==> r == spec_status_from_reason(
                crate::text::ascii_lowercase(str@),
            ),
    {
        let lower = crate::text::to_lowercase(str);
        if str_eq(lower.as_str(), "ok") {
            Status::OK
        } else if str_eq(lower.as_str(), "not found") {
            Status::NotFound
        } else {
            Status::Unknown
        }
    }
}

/// The reason phrases that RFC 9110 (section 15) registers for the codes this library
/// writes.
pub open spec fn registered_reason(code: u32) -> Option<Seq<char>> {
    if code == 200 {
        Some("OK"@)
    } else if code == 301 {
        Some("Moved Permanently"@)
    } else if code == 400 {
        Some("Bad Request"@)
    } else if code == 403 {
        Some("Forbidden"@)
    } else if code == 404 {
        Some("Not Found"@)
    } else if code == 411 {
        Some("Length Required"@)
    } else if code == 500 {
        Some("Internal Server Error"@)
    } else {
        None
    }
}

/// Every status written with a text of its own is written with the code registered for
/// that text, so the status line's code and reason agree.
pub proof fn law_status_code_matches_reason(s: Status)
    requires
        status_text(s) != "Unknown"@,
    ensures
        registered_reason(status_code(s)) == Some(status_text(s)),
{
}

/// The code a status is written with reads back as that status, for the statuses whose
/// code `Status::from` knows: 200, 400 and 404.
pub proof fn law_status_code_reads_back(s: Status)
    requires
        s == Status::OK || s == Status::BadRequest || s == Status::NotFound,
    ensures
        vstd::utf8::is_ascii_chars(decimal(status_code(s) as nat)),
        spec_status_from(crate::text::ascii_lowercase(decimal(status_code(s) as nat))) == s,
{
    reveal_strlit("200");
    reveal_strlit("400");
    reveal_strlit("404");
    let d = decimal(status_code(s) as nat);
    reveal_with_fuel(decimal, 3);
    if s == Status::OK {
        assert(d =~= "200"@);
    } else if s == Status::BadRequest {
        assert(d =~= "400"@);
        assert(d[0] != "200"@[0]);
    } else {
        assert(d =~= "404"@);
        assert(d[0] != "200"@[0]);
        assert(d[2] != "400"@[2]);
    }
    assert(crate::text::ascii_lowercase(d) =~= d);
    assert(spec_status_from(d) == s);
    assert forall|i: int| 0 <= i < d.len() implies '\0' <= #[trigger] d[i] <= '\u{7f}' by {
        assert('0' <= d[i] <= '9');
    }
}

/// Any ASCII text but `200`, `400` and `404` reads as the `Unknown` status.
pub proof fn law_other_codes_are_unknown(x: Seq<char>)
    requires
        vstd::utf8::is_ascii_chars(x),
        x != "200"@ && x != "400"@ && x != "404"@,
    ensures
        spec_status_from(crate::text::ascii_lowercase(x)) == Status::Unknown,
{
    reveal_strlit("200");
    reveal_strlit("400");
    reveal_strlit("404");
    let l = crate::text::ascii_lowercase(x);
    assert forall|i: int| 0 <= i < x.len() && '0' <= l[i] <= '9' implies x[i] == l[i] by {
        assert(l[i] == crate::text::ascii_lower(x[i]));
        if 'A' <= x[i] && x[i] <= 'Z' {
            assert(x[i] as u32 >= 65);
            let v: u32 = ((x[i] as u32) + 32) as u32;
            assert(v >= 97 && v <= 122);
            assert(l[i] == v as char);
            assert((v as char) as u32 == v);
        }
    }
    if l == "200"@ || l == "400"@ || l == "404"@ {
        assert(x =~= l) by {
            assert forall|i: int| 0 <= i < x.len() implies x[i] == l[i] by {
                assert(l.len() == 3);
                assert(is_digit(l[0]) && is_digit(l[1]) && is_digit(l[2]));
                assert(i == 0 || i == 1 || i == 2);
                assert(is_digit(l[i]));
            }
        }
    }
}

// ---------------------------------------------------------------- requests

impl<'a> Request<'a> {
    pub fn with_body(self, body: Body<'a>) -> (r: Request<'a>)
        ensures
            r@ == (RequestView { body: body@, ..self@ }),
    {
        Request { body, ..self }
    }

    pub fn with_header(self, pair: (&str, &str)) -> (r: Request<'a>)
        ensures
            r@ == (RequestView { headers: spec_add(self@.headers, pair.0@, pair.1@), ..self@ }),
    {
        let headers = self.headers.add(pair);
        Request { headers, ..self }
    }

    pub fn with_trailers(self, trailers: Headers) -> (r: Request<'a>)
        ensures
            r@ == (RequestView { trailers: trailers@, ..self@ }),
    {
        Request { trailers, ..self }
    }

    pub fn with_uri(self, uri: Uri<'a>) -> (r: Request<'a>)
        ensures
            r@ == (RequestView { uri: uri@, ..self@ }),
    {
        Request { uri, ..self }
    }

    /// A request with no body, over HTTP/1.1.
    pub fn request(method: Method, uri: Uri<'a>, headers: Headers) -> (r: Request<'a>)
        ensures
            r@ == (RequestView {
                method,
                headers: headers@,
                body: BodyView::Text(Seq::empty()),
                uri: uri@,
                version: HttpVersion { major: 1, minor: 1 },
                trailers: Seq::empty(),
            }),
    {
        Request {
            method,
            headers,
            body: Body::empty(),
            uri,
            version: HttpVersion { major: 1, minor: 1 },
            trailers: Headers::empty(),
        }
    }

    /// A GET request with no body, over HTTP/1.1.
    pub fn get(uri: Uri<'a>, headers: Headers) -> (r: Request<'a>)
        ensures
            r@ == (RequestView {
                method: Method::GET,
                headers: headers@,
                body: BodyView::Text(Seq::empty()),
                uri: uri@,
                version: HttpVersion { major: 1, minor: 1 },
                trailers: Seq::empty(),
            }),
    {
        Request::request(Method::GET, uri, headers)
    }

    /// A POST request with the body, over HTTP/1.1.
    pub fn post(uri: Uri<'a>, headers: Headers, body: Body<'a>) -> (r: Request<'a>)
        ensures
            r@ == (RequestView {
                method: Method::POST,
                headers: headers@,
                body: body@,
                uri: uri@,
                version: HttpVersion { major: 1, minor: 1 },
                trailers: Seq::empty(),
            }),
    {
        Request {
            method: Method::POST,
            headers,
            body,
            uri,
            version: HttpVersion { major: 1, minor: 1 },
            trailers: Headers::empty(),
        }
    }
}

// ---------------------------------------------------------------- responses

/// A response with the status, over HTTP/1.1 and without trailers.
pub open spec fn response_of(status: Status, headers: Seq<HeaderView>, body: BodyView) -> ResponseView {
    ResponseView {
        headers,
        body,
        status,
        version: HttpVersion { major: 1, minor: 1 },
        trailers: Seq::empty(),
    }
}

impl<'a> Response<'a> {
    fn with_status(status: Status, headers: Headers, body: Body<'a>) -> (r: Response<'a>)
        ensures
            r@ == response_of(status, headers@, body@),
    {
        Response {
            headers,
            body,
            status,
            version: HttpVersion { major: 1, minor: 1 },
            trailers: Headers::empty(),
        }
    }

    pub fn ok(headers: Headers, body: Body<'a>) -> (r: Response<'a>)
        ensures
            r@ == response_of(Status::OK, headers@, body@),
    {
        Self::with_status(Status::OK, headers, body)
    }

    pub fn bad_request(headers: Headers, body: Body<'a>) -> (r: Response<'a>)
        ensures
            r@ == response_of(Status::BadRequest, headers@, body@),
    {
        Self::with_status(Status::BadRequest, headers, body)
    }

    pub fn internal_server_error(headers: Headers, body: Body<'a>) -> (r: Response<'a>)
        ensures
            r@ == response_of(Status::InternalServerError, headers@, body@),
    {
        Self::with_status(Status::InternalServerError, headers, body)
    }

    pub fn length_required(headers: Headers, body: Body<'a>) -> (r: Response<'a>)
        ensures
            r@ == response_of(Status::LengthRequired, headers@, body@),
    {
        Self::with_status(Status::LengthRequired, headers, body)
    }

    pub fn not_found(headers: Headers, body: Body<'a>) -> (r: Response<'a>)
        ensures
            r@ == response_of(Status::NotFound, headers@, body@),
    {
        Self::with_status(Status::NotFound, headers, body)
    }

    pub fn moved_permanently(headers: Headers, body: Body<'a>) -> (r: Response<'a>)
        ensures
            r@ == response_of(Status::MovedPermanently, headers@, body@),
    {
        Self::with_status(Status::MovedPermanently, headers, body)
    }

    pub fn forbidden(headers: Headers, body: Body<'a>) -> (r: Response<'a>)
        ensures
            r@ == response_of(Status::Forbidden, headers@, body@),
    {
        Self::with_status(Status::Forbidden, headers, body)
    }

    pub fn with_trailers(self, trailers: Headers) -> (r: Response<'a>)
        ensures
            r@ == (ResponseView { trailers: trailers@, ..self@ }),
    {
        Response { trailers, ..self }
    }

    /// The response whose headers are `self.headers.add_all(headers)`.
    pub fn with_headers(self, headers: Headers) -> (r: Response<'a>)
        ensures
            r@ == (ResponseView { headers: spec_add_all(self@.headers, headers@), ..self@ }),
    {
        let headers = self.headers.add_all(headers);
        Response { headers, ..self }
    }

    /// `"HTTP/1.1 {code} {text}\r\n{headers}\r\n\r\n"`
    pub fn status_line_and_headers_wire_string(headers: &Headers, status: &Status) -> (r: String)
        ensures
            r@ == "HTTP/1.1 "@ + decimal(status_code(*status) as nat) + seq![' '] + status_text(
                *status,
            ) + crlf() + spec_wire_string(headers@) + crlf() + crlf(),
    {
        let mut response = "HTTP/1.1 ".to_owned();
        let code = usize_to_string(status.value() as usize);
        response.append(code.as_str());
        proof {
            reveal_strlit(" ");
        }
        response.append(" ");
        let text = status.to_string();
        response.append(text.as_str());
        response.append(crlf_str());
        let wire = headers.to_wire_string();
        response.append(wire.as_str());
        response.append(crlf_str());
        response.append(crlf_str());
        response
    }

    /// `"HTTP/1.1 {text} {code}\r\n"`, a `"name: value\r\n"` line per header, then `"\r\n"`.
    pub fn resource_and_headers(&self) -> (r: String)
        ensures
            r@ == "HTTP/1.1 "@ + status_text(self.status) + seq![' '] + decimal(
                status_code(self.status) as nat,
            ) + crlf() + header_block(self.headers@) + crlf(),
    {
        let mut response = "HTTP/1.1 ".to_owned();
        let text = self.status.to_string();
        response.append(text.as_str());
        proof {
            reveal_strlit(" ");
        }
        response.append(" ");
        let code = usize_to_string(self.status.value() as usize);
        response.append(code.as_str());
        response.append(crlf_str());
        let ghost head = response@;
        let mut i: usize = 0;
        while i < self.headers.vec.len()
            invariant
                i <= self.headers@.len(),
                response@ == head + header_block(self.headers@.take(i as int)),
            decreases self.headers@.len() - i,
        {
            let line = concat3(
                self.headers.vec[i].0.as_str(),
                colon_space_str(),
                self.headers.vec[i].1.as_str(),
            );
            response.append(line.as_str());
            response.append(crlf_str());
            proof {
                assert(self.headers@.take(i + 1).drop_last() =~= self.headers@.take(i as int));
                assert(response@ =~= head + header_block(self.headers@.take(i + 1)));
            }
            i = i + 1;
        }
        response.append(crlf_str());
        proof {
            assert(self.headers@.take(i as int) =~= self.headers@);
        }
        response
    }
}


// ---------------------------------------------------------------- messages from header lists

/// A 200 response whose headers are the list.
pub fn ok<'a>(headers: Vec<(String, String)>, body: Body<'a>) -> (r: Response<'a>)
    ensures
        r@ == response_of(Status::OK, pair_views(headers@), body@),
{
    Response::ok(Headers { vec: headers }, body)
}

/// A 400 response whose headers are the list.
pub fn bad_request<'a>(headers: Vec<(String, String)>, body: Body<'a>) -> (r: Response<'a>)
    ensures
        r@ == response_of(Status::BadRequest, pair_views(headers@), body@),
{
    Response::bad_request(Headers { vec: headers }, body)
}

/// A 500 response whose headers are the list.
pub fn internal_server_error<'a>(headers: Vec<(String, String)>, body: Body<'a>) -> (r: Response<'a>)
    ensures
        r@ == response_of(Status::InternalServerError, pair_views(headers@), body@),
{
    Response::internal_server_error(Headers { vec: headers }, body)
}

/// A 411 response whose headers are the list.
pub fn length_required<'a>(headers: Vec<(String, String)>, body: Body<'a>) -> (r: Response<'a>)
    ensures
        r@ == response_of(Status::LengthRequired, pair_views(headers@), body@),
{
    Response::length_required(Headers { vec: headers }, body)
}

/// A 404 response whose headers are the list.
pub fn not_found<'a>(headers: Vec<(String, String)>, body: Body<'a>) -> (r: Response<'a>)
    ensures
        r@ == response_of(Status::NotFound, pair_views(headers@), body@),
{
    Response::not_found(Headers { vec: headers }, body)
}

/// A 301 response whose headers are the list.
pub fn moved_permanently<'a>(headers: Vec<(String, String)>, body: Body<'a>) -> (r: Response<'a>)
    ensures
        r@ == response_of(Status::MovedPermanently, pair_views(headers@), body@),
{
    Response::moved_permanently(Headers { vec: headers }, body)
}

/// A GET request for the URI, with no body and the headers of the list.
pub fn get<'a>(uri: &'a str, headers: Vec<(String, String)>) -> (r: Request<'a>)
    ensures
        r@ == (RequestView {
            method: Method::GET,
            headers: pair_views(headers@),
            body: BodyView::Text(Seq::empty()),
            uri: crate::uri::spec_parse_uri(uri@),
            version: HttpVersion { major: 1, minor: 1 },
            trailers: Seq::empty(),
        }),
{
    Request::get(Uri::parse(uri), Headers { vec: headers })
}

/// A POST request for the URI with the body and the headers of the list.
pub fn post<'a>(uri: &'a str, headers: Vec<(String, String)>, body: Body<'a>) -> (r: Request<'a>)
    ensures
        r@ == (RequestView {
            method: Method::POST,
            headers: pair_views(headers@),
            body: body@,
            uri: crate::uri::spec_parse_uri(uri@),
            version: HttpVersion { major: 1, minor: 1 },
            trailers: Seq::empty(),
        }),
{
    Request::post(Uri::parse(uri), Headers { vec: headers }, body)
}

/// Each header as a `"name: value\r\n"` line.
pub open spec fn header_block(h: Seq<HeaderView>) -> Seq<char>
    decreases h.len(),
{
    if h.len() == 0 {
        Seq::empty()
    } else {
        header_block(h.drop_last()) + h.last().0 + colon_space() + h.last().1 + crlf()
    }
}

} // verus!
