//! The HTTP head codec against concrete heads.

use websocket::headers::Headers;
use websocket::http::{
    record_header_indices, HeaderIndices, HttpClientCodec, HttpServerCodec, HttpVersion,
    MessageHead, RequestLine,
};

#[test]
fn test_client_http_codec() {
    let response = "HTTP/1.1 404 Not Found\r\n\r\npssst extra data here";
    let mut src = response.as_bytes().to_vec();
    let head = HttpClientCodec.decode(&mut src).unwrap().unwrap();
    assert_eq!(head.subject, 404);
    assert_eq!(head.version, HttpVersion::Http11);
    assert_eq!(src, b"pssst extra data here".to_vec());

    let request = MessageHead {
        version: HttpVersion::Http11,
        subject: RequestLine(b"GET".to_vec(), b"/".to_vec()),
        headers: Headers::new(),
    };
    let mut out = Vec::new();
    HttpClientCodec.encode(&request, &mut out);
    assert_eq!(out, b"GET / HTTP/1.1\r\n\r\n".to_vec());
}

#[test]
fn test_server_http_codec() {
    let request = "GET / HTTP/1.0\r\nHost: www.rust-lang.org\r\n\r\n".as_bytes();
    let mut src = request.to_vec();
    let head = HttpServerCodec.decode(&mut src).unwrap().unwrap();
    assert_eq!(head.subject.0, b"GET".to_vec());
    assert_eq!(head.subject.1, b"/".to_vec());
    assert_eq!(head.version, HttpVersion::Http10);
    assert_eq!(
        head.headers.get(b"host").cloned(),
        Some(b"www.rust-lang.org".to_vec())
    );
    assert!(src.is_empty());

    let response = MessageHead {
        version: HttpVersion::Http11,
        subject: 404u16,
        headers: Headers::new(),
    };
    let mut out = Vec::new();
    HttpServerCodec.encode(&response, &mut out);
    assert_eq!(out, b"HTTP/1.1 404 Not Found\r\n\r\n".to_vec());
}

#[test]
fn decode_waits_for_the_whole_head() {
    let mut src = b"GET / HTTP/1.1\r\nHost: x\r\n".to_vec();
    assert!(HttpServerCodec.decode(&mut src).unwrap().is_none());
    assert_eq!(src.len(), 25);
    src.extend_from_slice(b"\r\n");
    let head = HttpServerCodec.decode(&mut src).unwrap().unwrap();
    assert_eq!(head.headers.get(b"Host").cloned(), Some(b"x".to_vec()));
}

#[test]
fn malformed_head_is_an_error() {
    let mut src = b"NOT-A-REQUEST\r\n\r\n".to_vec();
    assert!(HttpServerCodec.decode(&mut src).is_err());
}

#[test]
fn header_indices_extract_their_spans() {
    let bytes = b"Host: x\r\n";
    let indices = vec![HeaderIndices { name: (0, 4), value: (6, 7) }];
    let h = record_header_indices(bytes, &indices);
    assert_eq!(h.get(b"Host").cloned(), Some(b"x".to_vec()));
}

#[test]
fn header_values_are_ows_trimmed() {
    let mut src = b"GET / HTTP/1.1\r\nHost:   padded.example  \r\n\r\n".to_vec();
    let head = HttpServerCodec.decode(&mut src).unwrap().unwrap();
    assert_eq!(
        head.headers.get(b"host").cloned(),
        Some(b"padded.example".to_vec())
    );
}
