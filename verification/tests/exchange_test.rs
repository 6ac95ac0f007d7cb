use http4r_core::exchange::{
    chunked_headers, content_length_body, error_response, is_status_line, message_head,
    method_can_have_body, start_line_parts, BodyPlan, ChunkedProgress,
};
use http4r_core::headers::Headers;
use http4r_core::http_message::{
    body_string, check_valid_content_length_or_transfer_encoding,
    ensure_content_length_or_transfer_encoding, http_version_from, message, one_pt_oh, one_pt_one,
    with_content_length, write_body, Body, HttpMessage, MessageError, Method, Request, Response, Status,
};
use http4r_core::uri::Uri;
use http4r_core::wire::ChunkMode;

#[test]
fn requests_that_may_carry_a_body_must_say_how_long_it_is() {
    let r = check_valid_content_length_or_transfer_encoding(&Headers::empty(), false, true);
    match r {
        Err(MessageError::NoContentLengthOrTransferEncoding(m)) => {
            assert_eq!(m, "Content-Length or Transfer-Encoding must be provided")
        }
        _ => panic!("expected an error"),
    }
    assert!(check_valid_content_length_or_transfer_encoding(&Headers::empty(), false, false).is_ok());
    assert!(check_valid_content_length_or_transfer_encoding(&Headers::empty(), true, false).is_err());
    let with_length = Headers::from(vec!(("content-length", "5")));
    assert!(check_valid_content_length_or_transfer_encoding(&with_length, true, false).is_ok());
}

#[test]
fn length_header_added_for_sending() {
    let h = ensure_content_length_or_transfer_encoding(&Headers::empty(), &Body::BodyString("héllo"), false, &one_pt_one());
    assert_eq!(h.unwrap().vec, vec!(("Content-Length".to_string(), "6".to_string())));
    let s = ensure_content_length_or_transfer_encoding(&Headers::empty(), &Body::BodyStream(b"abc"), false, &one_pt_one());
    assert_eq!(s.unwrap().vec, vec!(("Transfer-Encoding".to_string(), "chunked".to_string())));
    assert!(ensure_content_length_or_transfer_encoding(&Headers::empty(), &Body::BodyStream(b"abc"), false, &one_pt_oh()).is_none());
    assert!(ensure_content_length_or_transfer_encoding(&Headers::empty(), &Body::BodyString("x"), true, &one_pt_one()).is_none());
}

#[test]
fn with_content_length_adds_the_body_length() {
    let req = Request::post(Uri::parse("/"), Headers::empty(), Body::BodyString("hello"));
    let req = with_content_length(HttpMessage::Request(req)).to_req();
    assert_eq!(req.headers.vec, vec!(("Content-Length".to_string(), "5".to_string())));
    let res = Response::ok(Headers::from(vec!(("Transfer-Encoding", "chunked"))), Body::BodyString("hello"));
    let res = with_content_length(HttpMessage::Response(res)).to_res();
    assert_eq!(res.headers.vec, vec!(("Transfer-Encoding".to_string(), "chunked".to_string())));
}

#[test]
fn version_is_read_from_characters_zero_and_three() {
    assert_eq!(http_version_from("HTTP/1.1"), (b'H', b'P'));
    assert_eq!(http_version_from("1..1"), (b'1', b'1'));
}

#[test]
fn start_line_parts_and_kinds() {
    assert_eq!(start_line_parts("GET /a HTTP/1.1"), Some(("GET", "/a", "HTTP/1.1")));
    assert_eq!(start_line_parts("GET /a"), None);
    assert!(is_status_line("HTTP/1.1"));
    assert!(!is_status_line("GET"));
    assert!(method_can_have_body("PUT"));
    assert!(!method_can_have_body("GET"));
}

#[test]
fn message_head_drops_content_length_beside_transfer_encoding() {
    let head = message_head("POST /bob HTTP/1.0", "Content-Length: 5\r\nTransfer-Encoding: chunked").ok().unwrap();
    assert_eq!(head.part2, "/bob");
    assert!(!head.is_response);
    assert!(head.method_can_have_body);
    assert!(head.is_version_1_0);
    assert_eq!(head.transfer_encoding, Some("chunked".to_string()));
    assert_eq!(head.headers.vec, vec!(("Transfer-Encoding".to_string(), "chunked".to_string())));
}

#[test]
fn message_head_without_a_length() {
    match message_head("HTTP/1.1 200 OK", "") {
        Err(MessageError::NoContentLengthOrTransferEncoding(_)) => {}
        _ => panic!("expected an error"),
    }
}

#[test]
fn message_of_a_request_and_of_a_response() {
    let req = message("GET".to_string(), "/a?b=c", "HTTP/1.1".to_string(), false, Body::empty(), Headers::empty(), Headers::empty());
    match req {
        Ok(HttpMessage::Request(r)) => {
            assert_eq!(r.method, Method::GET);
            assert_eq!(r.uri.path, "/a");
            assert_eq!(r.uri.query, Some("b=c"));
        }
        _ => panic!("expected a request"),
    }
    let res = message("HTTP/1.1".to_string(), "404", "Not Found".to_string(), true, Body::empty(), Headers::empty(), Headers::empty());
    match res {
        Ok(HttpMessage::Response(r)) => assert_eq!(r.status, Status::NotFound),
        _ => panic!("expected a response"),
    }
}

#[test]
fn content_length_plans() {
    let (plan, h) = content_length_body(Headers::empty(), Some(Ok(5)), 5, true, true).ok().unwrap();
    assert_eq!(plan, BodyPlan::Buffered);
    assert!(h.is_empty());
    let (plan, _) = content_length_body(Headers::empty(), Some(Ok(10)), 4, true, true).ok().unwrap();
    assert_eq!(plan, BodyPlan::BufferedThenStream(6));
    let (plan, _) = content_length_body(Headers::empty(), Some(Ok(2)), 4, true, true).ok().unwrap();
    assert_eq!(plan, BodyPlan::Stream(2));
    let (plan, h) = content_length_body(Headers::from(vec!(("Content-Length", "5"))), Some(Ok(5)), 5, true, false).ok().unwrap();
    assert_eq!(plan, BodyPlan::Empty);
    assert_eq!(h.vec, vec!(("Content-Length".to_string(), "0".to_string())));
    let (plan, _) = content_length_body(Headers::empty(), None, 4, false, false).ok().unwrap();
    assert_eq!(plan, BodyPlan::Empty);
    match content_length_body(Headers::empty(), Some(Err("5, 10".to_string())), 0, false, false) {
        Err(MessageError::InvalidContentLength(m)) => assert_eq!(m, "Content Length header couldn't be parsed, got 5, 10"),
        _ => panic!("expected an error"),
    }
}

#[test]
fn trailers_become_headers_unless_accepted() {
    let headers = Headers::from(vec!(("Trailer", "Expires, Content-Length")));
    let trailers = Headers::from(vec!(("Expires", "never"), ("Content-Length", "5")));
    let (h, t) = chunked_headers(headers, trailers, 5, false, false);
    assert!(t.is_empty());
    assert_eq!(h.vec, vec!(("Expires".to_string(), "never".to_string()), ("Trailer".to_string(), "Expires, Content-Length".to_string())));

    let accepting = Headers::from(vec!(("TE", "trailers")));
    let (h, t) = chunked_headers(accepting, Headers::from(vec!(("Expires", "never"))), 5, false, false);
    assert_eq!(h.vec, vec!(("TE".to_string(), "trailers".to_string())));
    assert_eq!(t.vec, vec!(("Expires".to_string(), "never".to_string())));
}

#[test]
fn http_1_0_requests_get_a_content_length_for_a_chunked_body() {
    let headers = Headers::from(vec!(("TE", "trailers"), ("Transfer-Encoding", "chunked")));
    let (h, _) = chunked_headers(headers, Headers::empty(), 11, true, true);
    assert_eq!(h.vec, vec!(("TE".to_string(), "trailers".to_string()), ("Content-Length".to_string(), "11".to_string())));
}

#[test]
fn chunked_progress() {
    let p = ChunkedProgress::start(10, (false, ChunkMode::Read, 3, 3, 5, 12));
    assert!(!p.more_bytes_after_body());
    let q = p.next(20, (true, ChunkMode::Metadata, 2, 0, 0, 9));
    assert_eq!(q.bytes_read, 5);
    assert!(q.finished);
    assert!(q.more_bytes_after_body());
}

#[test]
fn written_request() {
    let req = Request::post(Uri::parse("/bob"), Headers::empty(), Body::BodyString("hello"));
    let bytes = write_body(HttpMessage::Request(req));
    assert_eq!(bytes, b"POST /bob HTTP/1.1\r\nContent-Length: 5\r\n\r\nhello".to_vec());
}

#[test]
fn written_chunked_request() {
    let req = Request::post(Uri::parse("/bob"), Headers::from(vec!(("Transfer-Encoding", "chunked"))), Body::BodyString("hello"));
    let bytes = write_body(HttpMessage::Request(req));
    assert_eq!(bytes, b"POST /bob HTTP/1.1\r\nTransfer-Encoding: chunked\r\n\r\n5\r\nhello\r\n0\r\n".to_vec());
}

#[test]
fn written_response_with_trailers() {
    let res = Response::ok(Headers::empty(), Body::BodyString("hi")).with_trailers(Headers::from(vec!(("Expires", "never"))));
    let bytes = write_body(HttpMessage::Response(res));
    assert_eq!(bytes, b"HTTP/1.1 200 OK\r\nContent-Length: 2\r\n\r\nhi\r\nExpires: never\r\n\r\n".to_vec());
}

#[test]
fn written_stream_response_is_chunked() {
    let res = Response::ok(Headers::empty(), Body::BodyStream(b"abc"));
    let bytes = write_body(HttpMessage::Response(res));
    assert_eq!(bytes, b"HTTP/1.1 200 OK\r\nTransfer-Encoding: chunked\r\n\r\n3\r\nabc\r\n0\r\n".to_vec());
}

#[test]
fn errors_are_answered() {
    let e = MessageError::NoContentLengthOrTransferEncoding("say how long".to_string());
    let r = error_response(&e);
    assert_eq!(r.status, Status::LengthRequired);
    assert_eq!(body_string(r.body), "say how long");
    let e = MessageError::InvalidBoundaryDigit("Could not parse boundary character X in chunked encoding".to_string());
    let r = error_response(&e);
    assert_eq!(r.status, Status::BadRequest);
    assert_eq!(body_string(r.body), "Could not parse boundary character X in chunked encoding");
}

#[test]
fn trailers_go_before_all_the_headers() {
    let headers = Headers::from(vec!(
        ("Transfer-Encoding", "chunked"),
        ("Trailer", "Expires, Transfer-Encoding, Content-Length, Cache-Control, Max-Forwards, TE, Authorization, Set-Cookie, Content-Encoding, Content-Type, Content-Range"),
    ));
    let trailers = Headers::from(vec!(
        ("Expires", "Wed, 21 Oct 2015 07:28:00 GMT"),
        ("Transfer-Encoding", "chunked"),
        ("Content-Length", "10"),
        ("Cache-Control", "private"),
        ("Max-Forwards", "50"),
        ("TE", "trailers"),
        ("Trailer", "Content-Length"),
        ("Authorization", "foo@bar"),
        ("Set-Cookie", "tom=foo; matt=bar"),
        ("Content-Encoding", "gzip"),
        ("Content-Type", "text/html"),
        ("Content-Range", "bytes 200-1000/67589"),
    ));
    let (h, t) = chunked_headers(headers, trailers, 5, true, false);
    assert!(t.is_empty());
    assert_eq!(h.vec, vec!(
        ("Expires".to_string(), "Wed, 21 Oct 2015 07:28:00 GMT".to_string()),
        ("Transfer-Encoding".to_string(), "chunked".to_string()),
        ("Trailer".to_string(), "Expires, Transfer-Encoding, Content-Length, Cache-Control, Max-Forwards, TE, Authorization, Set-Cookie, Content-Encoding, Content-Type, Content-Range".to_string()),
    ));

    let existing = Headers::from(vec!(("a", "1"), ("b", "2")));
    let merged = existing.add_all(Headers::from(vec!(("c", "3"), ("A", "0"))));
    assert_eq!(merged.vec, vec!(
        ("c".to_string(), "3".to_string()),
        ("A".to_string(), "0, 1".to_string()),
        ("b".to_string(), "2".to_string()),
    ));
}
