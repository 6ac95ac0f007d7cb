use http4r_core::buffered::{buffered_body, split_head, BufferedBody};
use http4r_core::codex::{Codex, CompressionAlgorithm};
use http4r_core::environment::Environment;
use http4r_core::header_list::{content_length_header, headers_to_string, parse_headers};
use http4r_core::headers::{add_header, Headers};
use http4r_core::http_message::{add_header as add_to_list, body_string, header, Body, HttpMessage, Method, Request, Response, Status};
use http4r_core::query::Query;
use http4r_core::static_files::{file_kind, file_response, inside_directory, outside_directory_text, requested_file, served_directory, FileOutcome};
use http4r_core::uri::Uri;

#[test]
fn environment_prefers_the_pairs_given_last() {
    let env = Environment::empty().with(vec!(("ENV", "test"), ("A", "1")));
    let env = env.with(vec!(("ENV", "production")));
    assert_eq!(env.get("ENV"), Some("production".to_string()));
    assert_eq!(env.get("A"), Some("1".to_string()));
    assert_eq!(env.get("B"), None);
    assert_eq!(env.copy().pairs, env.pairs);
}

#[test]
fn list_headers_merge_by_exact_name_only() {
    let list = add_to_list(&vec!(("foo".to_string(), "bar".to_string())), ("Foo".to_string(), "baz".to_string()));
    assert_eq!(list, vec!(("foo".to_string(), "bar".to_string()), ("Foo".to_string(), "baz".to_string())));
    assert_eq!(header(&list, "FOO"), Some(("foo".to_string(), "bar".to_string())));
}

#[test]
fn list_headers_read_and_written() {
    let list = parse_headers("Content-Length: 5\r\nAccept: text/html");
    assert_eq!(content_length_header(&list), Some(5));
    assert_eq!(headers_to_string(&list), "Content-Length: 5\r\nAccept: text/html");
}

#[test]
fn header_appended_to_a_message() {
    let req = Request::get(Uri::parse("/"), Headers::from(vec!(("a", "b"))));
    let req = add_header(("a".to_string(), "c".to_string()), HttpMessage::Request(req)).to_req();
    assert_eq!(req.headers.vec, vec!(("a".to_string(), "b".to_string()), ("a".to_string(), "c".to_string())));
    let res = Response::ok(Headers::empty(), Body::empty());
    let res = add_header(("x".to_string(), "y".to_string()), HttpMessage::Response(res)).to_res();
    assert_eq!(res.headers.vec, vec!(("x".to_string(), "y".to_string())));
}

#[test]
fn headers_read_back_their_wire_form() {
    let h = Headers::from(vec!(("Content-Type", "text/html"), ("Content-Length", "10"), ("X-Émoji", "café")));
    let back = Headers::parse_from(h.to_wire_string().as_str());
    assert_eq!(back.vec, h.vec);
    assert_eq!(Headers::parse_from("").vec, vec!());
    assert!(Headers::try_parse_from("no colon here").is_none());
}

#[test]
fn content_length_of_repeated_values() {
    assert_eq!(Headers::from(vec!(("Content-Length", "5"), ("content-length", "5"))).content_length_header(), Some(Ok(5)));
    assert_eq!(Headers::from(vec!(("Content-Length", "5"), ("content-length", "10"))).content_length_header(), Some(Err("5, 10".to_string())));
    assert_eq!(Headers::from(vec!(("Content-Length", "-5"))).content_length_header(), Some(Err("-5".to_string())));
    assert_eq!(Headers::empty().content_length_header(), None);
}

#[test]
fn query_read_from_a_string() {
    let q = Query::try_from_query_string("a=b&c=d").unwrap();
    assert_eq!(q.get("c"), Some("d".to_string()));
    assert!(Query::try_from_query_string("a=b&c").is_none());
    let all = Query::from(vec!(("a", "1"), ("b", "2"), ("a", "3"))).get_all("a");
    assert_eq!(all, vec!(("a".to_string(), "1".to_string()), ("a".to_string(), "3".to_string())));
}

#[test]
fn uri_reads_back_its_text() {
    for s in ["http://authority/some/path?query=string#fragment", "some/path", "uuid:720f11db", "//host", "?q", "#f", ""] {
        assert_eq!(Uri::parse(s).to_string(), s.to_string());
    }
}

#[test]
fn methods_and_statuses() {
    for m in [Method::GET, Method::POST, Method::PATCH, Method::OPTIONS, Method::DELETE, Method::CONNECT, Method::TRACE, Method::HEAD] {
        assert_eq!(Method::from(m.value().as_str()), m);
    }
    assert_eq!(Status::from("404"), Status::NotFound);
    assert_eq!(Status::from("418"), Status::Unknown);
    assert_eq!(Status::NotFound.value(), 404);
    assert_eq!(Status::LengthRequired.value(), 500);
    assert_eq!(Status::Forbidden.to_string(), "Forbidden");
    assert_eq!(Status::BadRequest.to_u32(), 500);
}

#[test]
fn stream_bodies_are_read_without_trailing_nuls() {
    assert_eq!(body_string(Body::BodyStream(b"hi\0\0")), "hi");
    assert_eq!(body_string(Body::BodyString("hi\0")), "hi\0");
}

#[test]
fn resource_and_headers_line() {
    let res = Response::ok(Headers::from(vec!(("a", "b"))), Body::empty());
    assert_eq!(res.resource_and_headers(), "HTTP/1.1 OK 200\r\na: b\r\n\r\n");
    assert_eq!(Response::status_line_and_headers_wire_string(&Headers::from(vec!(("a", "b"))), &Status::NotFound), "HTTP/1.1 404 Not Found\r\na: b\r\n\r\n");
}

#[test]
fn static_file_decisions() {
    assert_eq!(requested_file("/"), "/index.html");
    assert_eq!(requested_file("/a.css"), "/a.css");
    assert_eq!(served_directory("/home", "test", "/resources/html"), "/home/resources/html");
    assert_eq!(served_directory("/home", "production", "/resources/html"), "/home/http4r-example-app/resources/html");
    assert!(inside_directory("/home/resources/html/a.html", "/home/resources/html"));
    assert!(!inside_directory("/home/secret", "/home/resources/html"));
    assert_eq!(file_kind("/a.js"), ("text/javascript", "private, max-age=30"));
    assert_eq!(file_kind("/favicon.ico"), ("text/plain", "no-store"));
    assert_eq!(outside_directory_text("/etc"), "Attempted to access a file outside of root: /etc");
    let ok = file_response("/index.html", FileOutcome::Read, b"<p>hi</p>");
    assert_eq!(ok.status, Status::OK);
    assert_eq!(ok.headers.vec, vec!(("Content-Type".to_string(), "text/html".to_string()), ("Cache-Control".to_string(), "private, max-age=10".to_string())));
    let icon = file_response("/favicon.ico", FileOutcome::Read, &[0xff, 0xfe]);
    assert_eq!(icon.status, Status::OK);
    assert!(matches!(icon.body, Body::BodyStream(b) if b == &[0xff, 0xfe]));
    assert_eq!(body_string(file_response("/", FileOutcome::NotAFile, b"").body), "Not a file but a directory or symlink.");
}

#[test]
fn buffered_heads() {
    let buffer = b"GET / HTTP/1.1\r\nContent-Length: 4\r\n\r\nbody";
    let parts = split_head(buffer).unwrap();
    assert_eq!(parts.first_line_end, 16);
    assert_eq!(parts.headers_end, 33);
    assert_eq!(parts.body_start, 37);
    assert!(split_head(b"GET / HTTP/1.1\r\n\r\n").is_none());
    assert_eq!(buffered_body(Some(4), 37, 41, 41, false), BufferedBody::InBuffer(37, 41));
    assert_eq!(buffered_body(Some(10), 37, 41, 41, true), BufferedBody::BufferThenStream(37, 41, 6));
    assert_eq!(buffered_body(Some(10), 37, 41, 41, false), BufferedBody::Stream(10));
    assert_eq!(buffered_body(None, 37, 41, 41, false), BufferedBody::Empty);
}

#[test]
fn compressed_bodies_read_back() {
    let body = b"hello world my baby boo hello world my baby boo".to_vec();
    for c in [CompressionAlgorithm::GZIP, CompressionAlgorithm::DEFLATE, CompressionAlgorithm::BROTLI] {
        let mut packed = Vec::new();
        assert!(Codex::try_encode(&body, &mut packed, c));
        assert_ne!(packed, body);
        let mut unpacked = vec!(1u8);
        assert!(Codex::try_decode(&packed, &mut unpacked, &c));
        let mut expected = vec!(1u8);
        expected.extend_from_slice(&body);
        assert_eq!(unpacked, expected);
    }
    let mut out = Vec::new();
    assert!(!Codex::try_decode(b"not gzip", &mut out, &CompressionAlgorithm::GZIP));
    assert!(out.is_empty());
}

#[test]
fn static_file_handler_loads_icons() {
    // an icon's bytes as a file read gives them: an ICO header, then bytes that are not UTF-8
    let mut icon: Vec<u8> = vec!(0, 0, 1, 0, 1, 0, 16, 16);
    while icon.len() < 3758 {
        icon.push(0xff);
        icon.push(0x00);
    }
    assert_eq!(icon.len(), 3758);
    let response = file_response("/favicon.ico", FileOutcome::Read, &icon);
    assert_eq!(response.status, Status::OK);
    match response.body {
        Body::BodyString(_) => panic!("body string for image"),
        Body::BodyStream(read) => {
            let vec: Vec<u8> = read.to_vec();
            assert_eq!(vec.len(), 3758);
        }
    }
}

#[test]
fn gzip_and_deflate_encode_and_decode_with_flate2() {
    let long_string = "hello world my baby boo".repeat(200);
    let bytestring = long_string.as_bytes();

    let mut gzip_encode_writer = Vec::new();
    let mut gzip_decode_writer = Vec::new();
    Codex::encode(bytestring, &mut gzip_encode_writer, CompressionAlgorithm::GZIP);
    assert_eq!(gzip_encode_writer.len(), 99);
    Codex::decode(&gzip_encode_writer, &mut gzip_decode_writer, &CompressionAlgorithm::GZIP);
    assert_eq!(gzip_decode_writer.as_slice(), bytestring);

    let mut deflate_encode_writer = Vec::new();
    let mut deflate_decode_writer = Vec::new();
    Codex::encode(bytestring, &mut deflate_encode_writer, CompressionAlgorithm::DEFLATE);
    assert_eq!(deflate_encode_writer.len(), 81);
    Codex::decode(&deflate_encode_writer, &mut deflate_decode_writer, &CompressionAlgorithm::DEFLATE);
    assert_eq!(deflate_decode_writer.as_slice(), bytestring);
}

#[test]
fn status_codes_read_back() {
    for s in [Status::OK, Status::BadRequest, Status::NotFound] {
        assert_eq!(Status::from(&s.value().to_string()), s);
    }
    assert_eq!(Status::from("500"), Status::Unknown);
    assert_eq!(Status::from_reason("OK"), Status::OK);
    assert_eq!(Status::from_reason("Moved"), Status::Unknown);
}
