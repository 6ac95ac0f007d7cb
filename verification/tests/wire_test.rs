use http4r_core::chunked::{stream_reads, write_chunked_stream, write_chunked_string};
use http4r_core::headers::Headers;
use http4r_core::http_message::{MessageError, ReadResult};
use http4r_core::wire::{body_chunks_, decode_chunks, headers_, read_pass, start_line_, trailers_, trailers_or_unreadable, ChunkMode, Part};

#[test]
fn start_line_stops_after_the_first_crlf() {
    let mut w = Vec::new();
    let r = start_line_(b"GET / HTTP/1.1\r\nHost: x\r\n", &mut w, 100);
    match r {
        ReadResult::Read((finished, up_to)) => {
            assert!(finished);
            assert_eq!(up_to, 16);
        }
        ReadResult::Error(_) => panic!("no error expected"),
    }
    assert_eq!(w, b"GET / HTTP/1.1".to_vec());
}

#[test]
fn start_line_that_does_not_end_in_the_buffer() {
    let mut w = Vec::new();
    match start_line_(b"GET / HT", &mut w, 100) {
        ReadResult::Read((finished, up_to)) => {
            assert!(!finished);
            assert_eq!(up_to, 7);
        }
        ReadResult::Error(_) => panic!("no error expected"),
    }
}

#[test]
fn start_line_too_big() {
    let mut w = Vec::new();
    match start_line_(b"GET / HTTP/1.1\r\n", &mut w, 5) {
        ReadResult::Error(MessageError::StartLineTooBig(m)) => assert_eq!(m, "Start line must be less than 16"),
        _ => panic!("expected an error"),
    }
}

#[test]
fn headers_stop_at_the_blank_line_which_is_not_written() {
    let mut w = Vec::new();
    match headers_(b"A: b\r\nC: d\r\n\r\nbody", &mut w, 100) {
        ReadResult::Read((finished, up_to)) => {
            assert!(finished);
            assert_eq!(up_to, 14);
        }
        ReadResult::Error(_) => panic!("no error expected"),
    }
    assert_eq!(w, b"A: b\r\nC: d".to_vec());
}

#[test]
fn headers_too_big() {
    let mut w = Vec::new();
    match headers_(b"A: b\r\nC: d\r\n\r\n", &mut w, 4) {
        ReadResult::Error(MessageError::HeadersTooBig(m)) => assert_eq!(m, "Headers must be less than 4"),
        _ => panic!("expected an error"),
    }
}

#[test]
fn read_pass_goes_on_in_the_same_buffer() {
    let buffer = b"GET / HTTP/1.1\r\nA: b\r\n\r\n";
    let mut w = Vec::new();
    let first = read_pass(Part::StartLine, buffer, buffer.len(), 0, &mut w, 100);
    let up_to = match first {
        ReadResult::Read((true, up_to)) => up_to,
        _ => panic!("the start line ends"),
    };
    assert_eq!(up_to, 16);
    let mut h = Vec::new();
    match read_pass(Part::HeaderBlock, buffer, buffer.len(), up_to, &mut h, 100) {
        ReadResult::Read((finished, at)) => {
            assert!(finished);
            assert_eq!(at, buffer.len());
        }
        _ => panic!("the header block ends"),
    }
    assert_eq!(h, b"A: b".to_vec());
}

#[test]
fn trailers_are_read_up_to_the_blank_line() {
    let mut w = Vec::new();
    let r = trailers_(b"Expires: never\r\nIntegrity: hash\r\n\r\n", &mut w, 100);
    match r {
        Ok((finished, t)) => {
            assert!(finished);
            assert_eq!(t.vec, vec!(("Expires".to_string(), "never".to_string()), ("Integrity".to_string(), "hash".to_string())));
        }
        Err(_) => panic!("no error expected"),
    }
}

#[test]
fn no_trailers_in_an_empty_buffer() {
    let mut w = Vec::new();
    match trailers_(b"", &mut w, 100) {
        Ok((finished, t)) => {
            assert!(finished);
            assert!(t.is_empty());
        }
        Err(_) => panic!("no error expected"),
    }
}

#[test]
fn trailers_too_long() {
    let mut w = Vec::new();
    match trailers_or_unreadable(b"Expires: a very long value\r\n\r\n", &mut w, 10) {
        Some(Err(MessageError::TrailersTooBig(m))) => assert_eq!(m, "Trailers must be less than 10"),
        _ => panic!("expected an error"),
    }
}

#[test]
fn chunked_body_is_decoded() {
    let mut w = Vec::new();
    let r = body_chunks_(b"5\r\nhello\r\n6\r\n world\r\n0\r\n\r\n", &mut w, ChunkMode::Metadata, 0, 0);
    match r {
        Ok((finished, mode, total, _, _, trailers_at)) => {
            assert!(finished);
            assert_eq!(mode, ChunkMode::Metadata);
            assert_eq!(total, 11);
            assert_eq!(trailers_at, 24);
        }
        Err(_) => panic!("no error expected"),
    }
    assert_eq!(w, b"hello world".to_vec());
}

#[test]
fn chunk_may_hold_line_breaks() {
    let mut w = Vec::new();
    let r = body_chunks_(b"7\r\nhello\r\n\r\n0\r\n\r\n", &mut w, ChunkMode::Metadata, 0, 0);
    assert!(r.is_ok());
    assert_eq!(w, b"hello\r\n".to_vec());
}

#[test]
fn bad_boundary_digit() {
    let mut w = Vec::new();
    match body_chunks_(b"5\r\nhello\r\nX", &mut w, ChunkMode::Metadata, 0, 0) {
        Err(MessageError::InvalidBoundaryDigit(m)) => assert_eq!(m, "Could not parse boundary character X in chunked encoding"),
        _ => panic!("expected an error"),
    }
}

#[test]
fn chunk_size_that_overflows() {
    let mut w = Vec::new();
    let r = decode_chunks(b"99999999999999999999999\r\n", &mut w, ChunkMode::Metadata, 0, 0);
    assert!(r.is_none());
}

#[test]
fn decoding_goes_on_across_buffers() {
    let mut w = Vec::new();
    let first = body_chunks_(b"5\r\nhel", &mut w, ChunkMode::Metadata, 0, 0).ok().unwrap();
    assert_eq!(first.0, false);
    assert_eq!(first.1, ChunkMode::Read);
    assert_eq!(first.3, 3);
    let second = body_chunks_(b"lo\r\n0\r\n\r\n", &mut w, first.1, first.3, first.4).ok().unwrap();
    assert!(second.0);
    assert_eq!(w, b"hello".to_vec());
}

#[test]
fn written_chunked_string() {
    let text = write_chunked_string("HEAD\r\n".to_string(), "hello", &Headers::empty());
    assert_eq!(text, "HEAD\r\n5\r\nhello\r\n0\r\n");
    let with_trailers = write_chunked_string(String::new(), "hi", &Headers::from(vec!(("Expires", "never"))));
    assert_eq!(with_trailers, "2\r\nhi\r\n0\r\nExpires: never\r\n\r\n");
}

#[test]
fn written_chunked_stream_reads_back() {
    let body: Vec<u8> = (0..20000u32).map(|i| (i % 251) as u8).collect();
    let reads = stream_reads(&body);
    assert_eq!(reads.len(), 2);
    assert_eq!(reads[0].len(), 16384);
    assert_eq!(reads[1].len(), 20000 - 16384);
    let bytes = write_chunked_stream(&"HEAD\r\n".to_string(), &reads, &Headers::empty());
    assert!(bytes.starts_with(b"HEAD\r\n16384\r\n"));
    let mut w = Vec::new();
    let r = body_chunks_(&bytes[6..], &mut w, ChunkMode::Metadata, 0, 0).ok().unwrap();
    assert!(r.0);
    assert_eq!(r.2, 20000);
    assert_eq!(w, body);
}

#[test]
fn empty_stream_writes_only_the_end() {
    let bytes = write_chunked_stream(&"HEAD\r\n".to_string(), &stream_reads(b""), &Headers::empty());
    assert_eq!(bytes, b"0\r\n".to_vec());
}

#[test]
fn each_read_is_a_chunk_of_its_own() {
    let reads = vec!(b"hel".to_vec(), b"lo world".to_vec());
    let bytes = write_chunked_stream(&"HEAD\r\n".to_string(), &reads, &Headers::from(vec!(("Expires", "never"))));
    assert_eq!(bytes, b"HEAD\r\n3\r\nhel\r\n8\r\nlo world\r\n0\r\nExpires: never\r\n\r\n".to_vec());
    let mut w = Vec::new();
    let r = body_chunks_(&bytes[6..], &mut w, ChunkMode::Metadata, 0, 0).ok().unwrap();
    assert!(r.0);
    assert_eq!(w, b"hello world".to_vec());
}
