use http4r_core::buffered::BufferedBody;
use http4r_core::buffered_message::{
    message_from_buffer, request_from_buffer, response_from_buffer, RequestError, ResponseError, StartLine,
};
use http4r_core::headers::Headers;
use http4r_core::http_message::{Body, MessageError, Method, Response, Status};

fn request_start(start: &StartLine) -> Option<(Method, String)> {
    match start {
        StartLine::Request(m, u) => Some((*m, u.clone())),
        StartLine::Response(_) => None,
    }
}

fn response_start(start: &StartLine) -> Option<Status> {
    match start {
        StartLine::Request(_, _) => None,
        StartLine::Response(s) => Some(*s),
    }
}

#[test]
fn request_with_its_body_in_the_buffer() {
    let buffer = b"POST /foo/bar HTTP/1.1\r\nContent-Length: 4\r\nAccept: text/html\r\n\r\nbody";
    let message = request_from_buffer(buffer).unwrap();
    assert_eq!(request_start(&message.start), Some((Method::POST, "/foo/bar".to_string())));
    assert_eq!(
        message.headers,
        vec!(
            ("Content-Length".to_string(), "4".to_string()),
            ("Accept".to_string(), "text/html".to_string())
        )
    );
    assert_eq!(message.body, BufferedBody::InBuffer(64, 68));
    assert_eq!(&buffer[64..68], b"body");
}

#[test]
fn request_body_longer_than_the_buffer_is_streamed() {
    let buffer = b"POST /foo/bar HTTP/1.1\r\nContent-Length: 4\r\nAccept: text/html\r\n\r\nbo";
    let message = request_from_buffer(buffer).unwrap();
    assert_eq!(message.body, BufferedBody::Stream(4));
    let response = b"HTTP/1.1 OK 200\r\nContent-Length: 5\r\n\r\nhi";
    let message = response_from_buffer(response, 40).unwrap();
    assert_eq!(message.body, BufferedBody::BufferThenStream(38, 40, 3));
    let message = response_from_buffer(response, 38).unwrap();
    assert_eq!(message.body, BufferedBody::Stream(5));
}

#[test]
fn messages_without_a_length_are_refused() {
    // a head is only seen to end when a byte follows it, as in a zeroed read buffer
    let buffer = b"GET /foo/bar HTTP/1.1\r\nConnection: close\r\nAccept: text/html\r\n\r\n\0\0";
    match request_from_buffer(buffer) {
        Err(RequestError::NoContentLengthOrTransferEncoding(m)) => {
            assert_eq!(m, "Content-Length or Transfer-Encoding must be provided")
        }
        other => panic!("unexpected {:?}", other),
    }
    let response = b"HTTP/1.1 OK 200\r\nConnection: close\r\n\r\n\0";
    assert!(matches!(
        response_from_buffer(response, 0),
        Err(ResponseError::NoContentLengthOrTransferEncoding(_))
    ));
    assert!(matches!(
        message_from_buffer(response, 0),
        Err(MessageError::NoContentLengthOrTransferEncoding(_))
    ));
}

#[test]
fn message_start_line_decides_its_kind() {
    let response = b"HTTP/1.1 OK 200\r\nContent-Length: 2\r\n\r\nhi";
    let message = message_from_buffer(response, 40).unwrap();
    assert_eq!(response_start(&message.start), Some(Status::OK));
    assert_eq!(message.body, BufferedBody::InBuffer(38, 40));
    let response = b"HTTP/1.1 200 OK\r\nContent-Length: 2\r\n\r\nhi";
    let message = response_from_buffer(response, 40).unwrap();
    assert_eq!(response_start(&message.start), Some(Status::Unknown));
    let request = b"DELETE /x HTTP/1.1\r\nTransfer-Encoding: chunked\r\n\r\n\0";
    let message = message_from_buffer(request, 0).unwrap();
    assert_eq!(request_start(&message.start), Some((Method::DELETE, "/x".to_string())));
    assert_eq!(message.body, BufferedBody::Empty);
}

#[test]
fn written_response_head_reads_back_from_a_buffer() {
    let response = Response::ok(Headers::from(vec!(("Content-Length", "2"), ("Accept", "text/html"))), Body::empty());
    let mut bytes = response.resource_and_headers().into_bytes();
    let head_len = bytes.len();
    bytes.extend_from_slice(b"hi");
    let message = response_from_buffer(&bytes, bytes.len()).unwrap();
    assert_eq!(response_start(&message.start), Some(Status::OK));
    assert_eq!(
        message.headers,
        vec!(
            ("Content-Length".to_string(), "2".to_string()),
            ("Accept".to_string(), "text/html".to_string())
        )
    );
    assert_eq!(message.body, BufferedBody::InBuffer(head_len, head_len + 2));
}
