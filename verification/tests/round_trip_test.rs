use http4r_core::exchange::message_head;
use http4r_core::headers::Headers;
use http4r_core::http_message::{write_body, Body, HttpMessage, ReadResult, Request, Response, Status};
use http4r_core::search::{matching_lines, parse};
use http4r_core::uri::Uri;
use http4r_core::wire::{body_chunks_, headers_, start_line_, ChunkMode};

#[test]
fn a_written_request_reads_back() {
    let req = Request::post(
        Uri::parse("/bob?x=1"),
        Headers::from(vec!(("Accept", "text/html"), ("X-Name", "café"))),
        Body::BodyString("hello"),
    );
    let bytes = write_body(HttpMessage::Request(req));

    let mut start = Vec::new();
    let up_to = match start_line_(&bytes, &mut start, 16384) {
        ReadResult::Read((true, up_to)) => up_to,
        _ => panic!("the start line ends"),
    };
    let mut head = Vec::new();
    let at = match headers_(&bytes[up_to..], &mut head, 16384) {
        ReadResult::Read((true, at)) => at,
        _ => panic!("the header block ends"),
    };
    let start_text = std::str::from_utf8(&start).unwrap();
    let header_text = std::str::from_utf8(&head).unwrap();
    assert_eq!(start_text, "POST /bob?x=1 HTTP/1.1");
    let m = message_head(start_text, header_text).ok().unwrap();
    assert_eq!(m.part1, "POST");
    assert_eq!(m.part2, "/bob?x=1");
    assert_eq!(m.part3, "HTTP/1.1");
    assert_eq!(m.headers.vec, vec!(
        ("Accept".to_string(), "text/html".to_string()),
        ("X-Name".to_string(), "café".to_string()),
        ("Content-Length".to_string(), "5".to_string()),
    ));
    assert_eq!(m.headers.content_length_header(), Some(Ok(5)));
    assert_eq!(&bytes[up_to + at..], b"hello");
}

#[test]
fn a_written_chunked_request_reads_back() {
    let body: Vec<u8> = (0..40000u32).map(|i| (i % 7) as u8 + b'a').collect();
    let req = Request::post(Uri::parse("/up"), Headers::from(vec!(("Transfer-Encoding", "chunked"))), Body::BodyStream(&body));
    let bytes = write_body(HttpMessage::Request(req));
    let mut start = Vec::new();
    let up_to = match start_line_(&bytes, &mut start, 16384) {
        ReadResult::Read((true, up_to)) => up_to,
        _ => panic!("the start line ends"),
    };
    let mut head = Vec::new();
    let at = match headers_(&bytes[up_to..], &mut head, 16384) {
        ReadResult::Read((true, at)) => at,
        _ => panic!("the header block ends"),
    };
    assert_eq!(head, b"Transfer-Encoding: chunked".to_vec());
    let mut out = Vec::new();
    let r = body_chunks_(&bytes[up_to + at..], &mut out, ChunkMode::Metadata, 0, 0).ok().unwrap();
    assert!(r.0);
    assert_eq!(r.2, 40000);
    assert_eq!(out, body);
}

#[test]
fn search_arguments_and_lines() {
    let args = vec!("prog".to_string(), "duct".to_string(), "poem.txt".to_string());
    assert_eq!(parse(&args), Ok(("duct", "poem.txt")));
    assert_eq!(parse(&vec!("prog".to_string())), Err("Expect two arguments, search string and file path."));
    let text = "Rust:\r\nsafe, fast, productive.\nPick three.\nDuct tape.\n";
    assert_eq!(matching_lines(text, "duct"), "safe, fast, productive.");
    assert_eq!(matching_lines(text, "e"), "safe, fast, productive.\nPick three.\nDuct tape.");
    assert_eq!(matching_lines("", "x"), "");
}

#[test]
fn a_written_response_reads_back() {
    let res = Response::not_found(Headers::from(vec!(("Cache-Control", "no-store"))), Body::BodyString("gone"));
    let bytes = write_body(HttpMessage::Response(res));
    let mut start = Vec::new();
    let up_to = match start_line_(&bytes, &mut start, 16384) {
        ReadResult::Read((true, up_to)) => up_to,
        _ => panic!("the status line ends"),
    };
    let mut head = Vec::new();
    let at = match headers_(&bytes[up_to..], &mut head, 16384) {
        ReadResult::Read((true, at)) => at,
        _ => panic!("the header block ends"),
    };
    let m = message_head(std::str::from_utf8(&start).unwrap(), std::str::from_utf8(&head).unwrap()).ok().unwrap();
    assert!(m.is_response);
    assert_eq!(m.part1, "HTTP/1.1");
    assert_eq!(m.part2, "404");
    assert_eq!(Status::from(m.part2), Status::NotFound);
    assert_eq!(m.headers.vec, vec!(
        ("Cache-Control".to_string(), "no-store".to_string()),
        ("Content-Length".to_string(), "4".to_string()),
    ));
    assert_eq!(&bytes[up_to + at..], b"gone");
}
