use std::io::Read;

use http_server::connection::{assemble_body, begin_request, RequestStart};
use http_server::headers::{parse_usize_bytes, HttpHeader, RequestInfo};
use http_server::response::{status_text, HttpResponse};
use http_server::router::{route_file_op, route_request, FileOp, FileOutcome};

fn info_plain() -> RequestInfo {
    RequestInfo {
        content_length: None,
        user_agent: None,
        accepts_gzip: false,
        close_connection: false,
    }
}

fn header(name: &str, value: &[u8]) -> HttpHeader {
    HttpHeader { name: name.as_bytes().to_vec(), value: value.to_vec() }
}

/// Splits serialized response bytes into (status, header lines, body).
fn parse_response(bytes: &[u8]) -> (u16, Vec<(String, String)>, Vec<u8>) {
    let mut split = None;
    for i in 0..bytes.len().saturating_sub(3) {
        if &bytes[i..i + 4] == b"\r\n\r\n" {
            split = Some(i);
            break;
        }
    }
    let split = split.expect("response has no blank line");
    let head = std::str::from_utf8(&bytes[..split]).expect("head is not UTF-8");
    let body = bytes[split + 4..].to_vec();
    let mut lines = head.split("\r\n");
    let status_line = lines.next().expect("no status line");
    assert!(status_line.starts_with("HTTP/1.1 "), "bad status line: {status_line}");
    let code: u16 = status_line["HTTP/1.1 ".len()..]
        .split(' ')
        .next()
        .unwrap()
        .parse()
        .expect("bad status code");
    let mut headers = Vec::new();
    for line in lines {
        let (name, value) = line.split_once(": ").expect("bad header line");
        headers.push((name.to_string(), value.to_string()));
    }
    (code, headers, body)
}

fn header_values<'a>(headers: &'a [(String, String)], name: &str) -> Vec<&'a str> {
    headers.iter().filter(|(n, _)| n == name).map(|(_, v)| v.as_str()).collect()
}

fn gunzip(data: &[u8]) -> Vec<u8> {
    let mut decoder = flate2::read::GzDecoder::new(data);
    let mut out = Vec::new();
    decoder.read_to_end(&mut out).expect("not a gzip stream");
    out
}

#[test]
fn gzip_round_trip_many_lengths() {
    for len in [1usize, 2, 5, 63, 1024, 4096] {
        let text = "a".repeat(len);
        let bytes = HttpResponse::new(200)
            .with_text_body("text/plain", &text)
            .with_gzip_compression()
            .to_bytes();
        let (code, headers, body) = parse_response(&bytes);
        assert_eq!(code, 200);
        assert_eq!(header_values(&headers, "Content-Encoding"), vec!["gzip"]);
        assert_eq!(gunzip(&body), text.as_bytes(), "round trip failed at len {len}");
        let cl: usize = header_values(&headers, "Content-Length")[0].parse().unwrap();
        assert_eq!(cl, body.len(), "Content-Length must be the compressed length");
    }
}

#[test]
fn gzip_content_length_reflects_compressed_body() {
    let text = "b".repeat(4096);
    let bytes =
        HttpResponse::new(200).with_text_body("text/plain", &text).with_gzip_compression().to_bytes();
    let (_, headers, body) = parse_response(&bytes);
    let cl: usize = header_values(&headers, "Content-Length")[0].parse().unwrap();
    assert_eq!(cl, body.len());
    assert_ne!(cl, 4096, "a 4096-byte run must not compress to its own length");
}

#[test]
fn gzip_of_empty_body_is_a_no_op() {
    let bytes = HttpResponse::new(200).with_gzip_compression().to_bytes();
    assert_eq!(bytes, b"HTTP/1.1 200 OK\r\nContent-Length: 0\r\n\r\n");
}

#[test]
fn get_root_yields_200_empty_no_content_type() {
    let r = route_request("GET", "/", &info_plain(), &FileOutcome::NotNeeded);
    assert_eq!(r, b"HTTP/1.1 200 OK\r\nContent-Length: 0\r\n\r\n");
    let gzipy = RequestInfo { accepts_gzip: true, ..info_plain() };
    let r = route_request("GET", "/", &gzipy, &FileOutcome::NotNeeded);
    let (code, headers, body) = parse_response(&r);
    assert_eq!(code, 200);
    assert!(body.is_empty());
    assert!(header_values(&headers, "Content-Type").is_empty());
}

#[test]
fn echo_plain() {
    let r = route_request("GET", "/echo/hello", &info_plain(), &FileOutcome::NotNeeded);
    assert_eq!(
        r,
        b"HTTP/1.1 200 OK\r\nContent-Length: 5\r\nContent-Type: text/plain\r\n\r\nhello"
    );
}

#[test]
fn echo_gzip() {
    let info = RequestInfo { accepts_gzip: true, ..info_plain() };
    let r = route_request("GET", "/echo/hello", &info, &FileOutcome::NotNeeded);
    let (code, headers, body) = parse_response(&r);
    assert_eq!(code, 200);
    assert_eq!(header_values(&headers, "Content-Encoding"), vec!["gzip"]);
    assert_eq!(gunzip(&body), b"hello");
    let cl: usize = header_values(&headers, "Content-Length")[0].parse().unwrap();
    assert_eq!(cl, body.len());
}

#[test]
fn user_agent_reflected() {
    let headers = vec![header("Host", b"x"), header("User-Agent", b"test-agent/1.0")];
    let info = RequestInfo::from_headers(&headers);
    assert_eq!(info.user_agent.as_deref(), Some("test-agent/1.0"));
    let r = route_request("GET", "/user-agent", &info, &FileOutcome::NotNeeded);
    let (code, _, body) = parse_response(&r);
    assert_eq!(code, 200);
    assert_eq!(body, b"test-agent/1.0");
}

#[test]
fn user_agent_missing_is_404() {
    let r = route_request("GET", "/user-agent", &info_plain(), &FileOutcome::NotNeeded);
    let (code, _, body) = parse_response(&r);
    assert_eq!(code, 404);
    assert!(body.is_empty());
}

#[test]
fn files_write_then_read() {
    let op = route_file_op("POST", "/files/note.txt", "/srv/files");
    match op {
        Some(FileOp::Write(path)) => assert_eq!(path, "/srv/files/note.txt"),
        _ => panic!("POST /files must be a write"),
    }
    let r = route_request("POST", "/files/note.txt", &info_plain(), &FileOutcome::WriteOk);
    assert_eq!(r, b"HTTP/1.1 201 Created\r\nContent-Length: 0\r\n\r\n");

    let op = route_file_op("GET", "/files/note.txt", "/srv/files");
    match op {
        Some(FileOp::Read(path)) => assert_eq!(path, "/srv/files/note.txt"),
        _ => panic!("GET /files must be a read"),
    }
    let r = route_request(
        "GET",
        "/files/note.txt",
        &info_plain(),
        &FileOutcome::ReadOk("abc".to_string()),
    );
    let (code, headers, body) = parse_response(&r);
    assert_eq!(code, 200);
    assert_eq!(body, b"abc");
    assert_eq!(header_values(&headers, "Content-Type"), vec!["application/octet-stream"]);
}

#[test]
fn files_write_failure_is_500_with_text() {
    let r = route_request("POST", "/files/note.txt", &info_plain(), &FileOutcome::WriteFailed);
    let (code, _, body) = parse_response(&r);
    assert_eq!(code, 500);
    assert_eq!(body, b"Failed to write file");
}

#[test]
fn files_missing_is_404_empty() {
    let r = route_request("GET", "/files/missing.txt", &info_plain(), &FileOutcome::ReadFailed);
    assert_eq!(r, b"HTTP/1.1 404 Not Found\r\nContent-Length: 0\r\n\r\n");
    assert!(route_file_op("GET", "/files/missing.txt", "/empty").is_some());
}

#[test]
fn no_file_op_outside_files_routes() {
    assert!(route_file_op("GET", "/", "/srv").is_none());
    assert!(route_file_op("GET", "/echo/files/x", "/srv").is_none());
    assert!(route_file_op("PUT", "/files/x", "/srv").is_none());
}

#[test]
fn connection_close_appended_on_every_route() {
    let info = RequestInfo { close_connection: true, ..info_plain() };
    let r = route_request("GET", "/echo/hi", &info, &FileOutcome::NotNeeded);
    let (_, headers, _) = parse_response(&r);
    assert_eq!(headers.last().unwrap(), &("Connection".to_string(), "close".to_string()));
    let r = route_request("DELETE", "/nowhere", &info, &FileOutcome::NotNeeded);
    assert_eq!(
        r,
        b"HTTP/1.1 404 Not Found\r\nContent-Length: 0\r\nConnection: close\r\n\r\n"
    );
}

#[test]
fn unmatched_is_404_with_no_extra_headers() {
    let r = route_request("DELETE", "/", &info_plain(), &FileOutcome::NotNeeded);
    assert_eq!(r, b"HTTP/1.1 404 Not Found\r\nContent-Length: 0\r\n\r\n");
    let r = route_request("GET", "/echo", &info_plain(), &FileOutcome::NotNeeded);
    let (code, headers, body) = parse_response(&r);
    assert_eq!(code, 404);
    assert!(body.is_empty());
    assert_eq!(header_values(&headers, "Content-Length"), vec!["0"]);
    assert_eq!(headers.len(), 1);
}

#[test]
fn status_text_table() {
    assert_eq!(status_text(200), "OK");
    assert_eq!(status_text(201), "Created");
    assert_eq!(status_text(400), "Bad Request");
    assert_eq!(status_text(404), "Not Found");
    assert_eq!(status_text(500), "Internal Server Error");
    assert_eq!(status_text(418), "Unknown");
}

#[test]
fn begin_request_complete_with_partial_body() {
    let raw = b"POST /files/a HTTP/1.1\r\nHost: x\r\nContent-Length: 5\r\n\r\nab";
    match begin_request(raw) {
        RequestStart::Proceed { method, path, info, initial_body, remaining } => {
            assert_eq!(method, "POST");
            assert_eq!(path, "/files/a");
            assert_eq!(info.content_length, Some(5));
            assert_eq!(initial_body, b"ab");
            assert_eq!(remaining, 3);
        },
        RequestStart::Terminate => panic!("complete head must proceed"),
    }
}

#[test]
fn begin_request_reads_facts() {
    let raw = b"GET /echo/abc HTTP/1.1\r\nAccept-Encoding: deflate, gzip\r\nConnection: CLOSE\r\n\r\n";
    match begin_request(raw) {
        RequestStart::Proceed { method, path, info, initial_body, remaining } => {
            assert_eq!(method, "GET");
            assert_eq!(path, "/echo/abc");
            assert!(info.accepts_gzip);
            assert!(info.close_connection);
            assert!(initial_body.is_empty());
            assert_eq!(remaining, 0);
        },
        RequestStart::Terminate => panic!("complete head must proceed"),
    }
}

#[test]
fn begin_request_partial_terminates() {
    match begin_request(b"GET /echo/abc HTT") {
        RequestStart::Terminate => {},
        RequestStart::Proceed { .. } => panic!("partial head must terminate"),
    }
}

#[test]
fn begin_request_malformed_terminates() {
    match begin_request(b"\x00garbage\r\n\r\n") {
        RequestStart::Terminate => {},
        RequestStart::Proceed { .. } => panic!("malformed head must terminate"),
    }
}

#[test]
fn facts_duplicate_headers_last_wins() {
    let headers = vec![header("Content-Length", b"7"), header("content-length", b"9")];
    let info = RequestInfo::from_headers(&headers);
    assert_eq!(info.content_length, Some(9));
}

#[test]
fn facts_invalid_utf8_value_is_skipped() {
    let headers = vec![
        header("User-Agent", b"good"),
        header("User-Agent", &[0x80, 0x80]),
    ];
    let info = RequestInfo::from_headers(&headers);
    assert_eq!(info.user_agent.as_deref(), Some("good"));
}

#[test]
fn facts_content_length_parsing() {
    for (value, expect) in [
        (&b"5"[..], Some(5usize)),
        (&b"+5"[..], Some(5)),
        (&b"0"[..], Some(0)),
        (&b""[..], None),
        (&b"+"[..], None),
        (&b"5x"[..], None),
        (&b" 5"[..], None),
        (&b"-5"[..], None),
        (&b"99999999999999999999999999"[..], None),
    ] {
        let headers = vec![header("Content-Length", value)];
        let info = RequestInfo::from_headers(&headers);
        assert_eq!(info.content_length, expect, "value {value:?}");
    }
    assert_eq!(parse_usize_bytes(b"18446744073709551615"), Some(usize::MAX));
    assert_eq!(parse_usize_bytes(b"18446744073709551616"), None);
}

#[test]
fn facts_accept_encoding_tokens() {
    for (value, expect) in [
        (&b"gzip"[..], true),
        (&b"deflate, gzip"[..], true),
        (&b" gzip "[..], true),
        (&b"deflate,\tgzip\t,br"[..], true),
        (&b"gzipx"[..], false),
        (&b"xgzip"[..], false),
        (&b"GZIP"[..], false),
        (&b"deflate"[..], false),
        (&b""[..], false),
        (&b"g,z,i,p"[..], false),
    ] {
        let headers = vec![header("Accept-Encoding", value)];
        let info = RequestInfo::from_headers(&headers);
        assert_eq!(info.accepts_gzip, expect, "value {value:?}");
    }
}

#[test]
fn facts_connection_close() {
    for (value, expect) in
        [(&b"close"[..], true), (&b"CLOSE"[..], true), (&b"Close"[..], true), (&b"keep-alive"[..], false), (&b" close"[..], false)]
    {
        let headers = vec![header("Connection", value)];
        let info = RequestInfo::from_headers(&headers);
        assert_eq!(info.close_connection, expect, "value {value:?}");
    }
}

#[test]
fn facts_names_are_case_insensitive() {
    let headers = vec![header("uSeR-aGeNt", b"ua"), header("ACCEPT-ENCODING", b"gzip")];
    let info = RequestInfo::from_headers(&headers);
    assert_eq!(info.user_agent.as_deref(), Some("ua"));
    assert!(info.accepts_gzip);
}

#[test]
fn assemble_body_concatenates() {
    let body = assemble_body(b"ab".to_vec(), b"cde");
    assert_eq!(body, b"abcde");
    let body = assemble_body(Vec::new(), b"");
    assert!(body.is_empty());
}

#[test]
fn add_header_appends_without_dedup() {
    let bytes = HttpResponse::new(200)
        .add_header("X-One", "1")
        .add_header("X-One", "2")
        .to_bytes();
    let (_, headers, _) = parse_response(&bytes);
    assert_eq!(header_values(&headers, "X-One"), vec!["1", "2"]);
}

#[test]
fn with_text_body_twice_last_wins() {
    let bytes = HttpResponse::new(200)
        .with_text_body("text/plain", "first")
        .with_text_body("text/html", "second!")
        .to_bytes();
    let (_, headers, body) = parse_response(&bytes);
    assert_eq!(body, b"second!");
    assert_eq!(header_values(&headers, "Content-Type"), vec!["text/plain", "text/html"]);
    assert_eq!(header_values(&headers, "Content-Length"), vec!["7"]);
}

#[test]
fn content_length_digits_multi() {
    let text = "x".repeat(12345);
    let bytes = HttpResponse::new(200).with_text_body("text/plain", &text).to_bytes();
    let (_, headers, body) = parse_response(&bytes);
    assert_eq!(header_values(&headers, "Content-Length"), vec!["12345"]);
    assert_eq!(body.len(), 12345);
}

#[test]
fn echo_with_empty_rest() {
    let r = route_request("GET", "/echo/", &info_plain(), &FileOutcome::NotNeeded);
    assert_eq!(
        r,
        b"HTTP/1.1 200 OK\r\nContent-Length: 0\r\nContent-Type: text/plain\r\n\r\n"
    );
}

#[test]
fn echo_keeps_multibyte_text() {
    let r = route_request("GET", "/echo/h\u{e9}llo", &info_plain(), &FileOutcome::NotNeeded);
    let (code, headers, body) = parse_response(&r);
    assert_eq!(code, 200);
    assert_eq!(body, "h\u{e9}llo".as_bytes());
    assert_eq!(
        header_values(&headers, "Content-Length"),
        vec!["h\u{e9}llo".len().to_string().as_str()]
    );
}
