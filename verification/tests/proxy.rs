use zproxy::args::{compile_patterns, should_bypass_compression, BypassPattern};
use zproxy::error::Failure;
use zproxy::proxy::handlers::{
    classify, framing_for, handle_proxy_connection, is_websocket_upgrade, read_response_head,
    should_pass_through, write_chunked, Framing,
};
use zproxy::proxy::headers::{
    any_header_holds, find_header, parse_response_headers, request_target, split_header_line,
};
use zproxy::proxy::transfer::{
    decode_chunked_body, ends_headers, find_last_header, forward_request, grants_zstd, read_line,
    read_request_head, tunnel_closed, tunnel_connection, tunnel_step, ByteSource, TunnelAction,
    TunnelEvent, TunnelState,
};

fn patterns(sources: &[&str]) -> Vec<BypassPattern> {
    let sources: Vec<String> = sources.iter().map(|s| s.to_string()).collect();
    match compile_patterns(&sources) {
        Ok(p) => p,
        Err(e) => panic!("{}", e.message),
    }
}

fn find(haystack: &[u8], needle: &[u8]) -> Option<usize> {
    haystack.windows(needle.len()).position(|w| w == needle)
}

#[test]
fn response_head_is_split_into_status_and_fields() {
    let (status, fields) = parse_response_headers(
        "HTTP/1.1 200 OK\r\nContent-Type:  text/html \r\nX-Odd\r\nSet-Cookie: a=b: c\r\n\r\n",
    );
    assert_eq!(status, "HTTP/1.1 200 OK");
    assert_eq!(
        fields,
        vec![
            ("content-type".to_string(), "text/html".to_string()),
            ("set-cookie".to_string(), "a=b: c".to_string()),
        ]
    );
    let (status, fields) = parse_response_headers("");
    assert_eq!(status, "");
    assert!(fields.is_empty());
}

#[test]
fn header_lines_and_lookups() {
    assert_eq!(
        split_header_line(" Host : example.org:80 \r\n"),
        Some(("Host".to_string(), "example.org:80".to_string()))
    );
    assert_eq!(split_header_line("no colon here"), None);
    let headers = vec![
        ("Upgrade".to_string(), "WebSocket".to_string()),
        ("CONTENT-LENGTH".to_string(), "12".to_string()),
        ("content-length".to_string(), "13".to_string()),
    ];
    assert_eq!(find_header(&headers, "content-length"), Some(1));
    assert_eq!(find_header(&headers, "content-encoding"), None);
    assert!(any_header_holds(&headers, "upgrade", "websocket"));
    assert!(!any_header_holds(&headers, "upgrade", "h2c"));
    assert_eq!(request_target("GET /a/b?x=1 HTTP/1.1\r\n"), "/a/b?x=1");
    assert_eq!(request_target("GET"), "/");
}

#[test]
fn response_shape_and_framing() {
    let chunked = vec![
        ("transfer-encoding".to_string(), "gzip, Chunked".to_string()),
        ("content-length".to_string(), "10".to_string()),
    ];
    let shape = classify(&chunked);
    assert!(shape.chunked);
    assert!(!shape.already_compressed);
    assert_eq!(shape.content_length, Some(10));
    assert_eq!(framing_for(shape), Framing::Chunked);
    let fixed = vec![
        ("content-length".to_string(), "+42".to_string()),
        ("content-encoding".to_string(), "br".to_string()),
    ];
    let shape = classify(&fixed);
    assert!(shape.already_compressed);
    assert_eq!(framing_for(shape), Framing::Fixed(42));
    let open = vec![("content-length".to_string(), "4 2".to_string())];
    let shape = classify(&open);
    assert_eq!(shape.content_length, None);
    assert_eq!(framing_for(shape), Framing::UntilEof);
}

#[test]
fn lines_are_read_with_their_endings() {
    let mut reader = ByteSource::new(b"GET / HTTP/1.1\r\nHost: a\r\n\r\nbody");
    assert_eq!(read_line(&mut reader), Ok("GET / HTTP/1.1\r\n".to_string()));
    assert_eq!(read_line(&mut reader), Ok("Host: a\r\n".to_string()));
    assert_eq!(read_line(&mut reader), Ok("\r\n".to_string()));
    assert_eq!(read_line(&mut reader), Ok("body".to_string()));
    assert_eq!(read_line(&mut reader), Ok(String::new()));
    let mut bad = ByteSource::new(b"\xff\xfe\nnext\n");
    assert_eq!(read_line(&mut bad), Err(Failure::InvalidData));
    assert_eq!(read_line(&mut bad), Ok("next\n".to_string()));
    assert!(ends_headers("\r\n"));
    assert!(ends_headers(""));
    assert!(ends_headers(" \t\u{a0}\n"));
    assert!(!ends_headers("a\r\n"));
}

#[test]
fn request_head_is_read_up_to_the_blank_line() {
    let mut reader = ByteSource::new(b"GET /x HTTP/1.1\r\nA: 1\r\nB: 2\r\n\r\nrest");
    let (first, lines) = read_request_head(&mut reader).unwrap();
    assert_eq!(first, "GET /x HTTP/1.1\r\n");
    assert_eq!(lines, vec!["A: 1\r\n".to_string(), "B: 2\r\n".to_string()]);
    assert_eq!(reader.pos, 31);
    let mut short = ByteSource::new(b"GET /x HTTP/1.1\r\nA: 1");
    let (_, lines) = read_request_head(&mut short).unwrap();
    assert_eq!(lines, vec!["A: 1".to_string()]);
}

#[test]
fn forwarded_request_keeps_the_head_and_reads_the_grants() {
    let lines = vec![
        "Host: example.org\r\n".to_string(),
        "Accept-Encoding: gzip, ZSTD\r\n".to_string(),
        "Content-Length: 5\r\n".to_string(),
        "garbage\r\n".to_string(),
    ];
    let got = forward_request("POST /api/items?x=1 HTTP/1.1\r\n", &lines);
    assert_eq!(
        got.head,
        b"POST /api/items?x=1 HTTP/1.1\r\nHost: example.org\r\nAccept-Encoding: gzip, ZSTD\r\nContent-Length: 5\r\ngarbage\r\n\r\n"
            .to_vec()
    );
    assert_eq!(
        got.headers,
        vec![
            ("Host".to_string(), "example.org".to_string()),
            ("Accept-Encoding".to_string(), "gzip, ZSTD".to_string()),
            ("Content-Length".to_string(), "5".to_string()),
        ]
    );
    assert!(got.supports_zstd);
    assert_eq!(got.uri, "/api/items?x=1");
    assert_eq!(got.body_length, Some(5));
}

#[test]
fn last_accept_encoding_line_decides() {
    let lines = vec!["accept-encoding: zstd\r\n".to_string(), "Accept-Encoding: br\r\n".to_string()];
    let got = forward_request("GET / HTTP/1.1\r\n", &lines);
    assert!(!got.supports_zstd);
    assert_eq!(got.body_length, None);
    let none = forward_request("", &[]);
    assert_eq!(none.uri, "");
    assert_eq!(none.head, b"\r\n".to_vec());
}

#[test]
fn grant_is_read_off_the_whole_header_value() {
    let lines = vec!["Accept-Encoding: a:b, zstd\r\n".to_string()];
    assert!(forward_request("GET / HTTP/1.1\r\n", &lines).supports_zstd);
    let lines = vec![" accept-encoding : zstd:x\r\n".to_string()];
    assert!(!forward_request("GET / HTTP/1.1\r\n", &lines).supports_zstd);
    let headers = vec![
        ("Accept-Encoding".to_string(), "zstd".to_string()),
        ("X".to_string(), "y".to_string()),
        ("ACCEPT-ENCODING".to_string(), "gzip".to_string()),
    ];
    assert_eq!(find_last_header(&headers, "accept-encoding"), Some(2));
    assert_eq!(find_last_header(&headers, "x"), Some(1));
    assert_eq!(find_last_header(&headers, "host"), None);
    assert!(!grants_zstd(&headers));
    assert!(grants_zstd(&headers[..2]));
    assert!(!grants_zstd(&[]));
}

#[test]
fn branch_decisions() {
    let encoded = classify(&[("content-encoding".to_string(), "br".to_string())]);
    let plain = classify(&[("content-type".to_string(), "text/plain".to_string())]);
    assert!(should_pass_through(encoded, false));
    assert!(should_pass_through(plain, true));
    assert!(!should_pass_through(plain, false));
    assert!(is_websocket_upgrade(&[("upgrade".to_string(), "WebSocket".to_string())]));
    assert!(!is_websocket_upgrade(&[("connection".to_string(), "websocket".to_string())]));
    assert!(!is_websocket_upgrade(&[]));
}

#[test]
fn encoded_response_passes_through_unchanged() {
    let request = b"GET /x HTTP/1.1\r\nAccept-Encoding: zstd\r\n\r\n";
    let response = b"HTTP/1.1 200 OK\r\nContent-Encoding: br\r\nContent-Length: 4\r\n\r\n\x01\x02\x03\x04";
    let mut client = ByteSource::new(request);
    let mut backend = ByteSource::new(response);
    let got = handle_proxy_connection(&mut client, &mut backend, 3, &[]).unwrap();
    assert_eq!(got.to_backend, request.to_vec());
    assert_eq!(got.to_client, response.to_vec());
    assert!(!got.tunnelled);
    assert_eq!((got.original_size, got.final_size), (4, 4));
}

#[test]
fn encoded_chunked_response_passes_through_unchanged() {
    let request = b"GET /x HTTP/1.1\r\nAccept-Encoding: zstd\r\n\r\n";
    let response =
        b"HTTP/1.1 200 OK\r\nContent-Encoding: gzip\r\nTransfer-Encoding: chunked\r\n\r\n4\r\nWiki\r\n0\r\n\r\n";
    let mut client = ByteSource::new(request);
    let mut backend = ByteSource::new(response);
    let got = handle_proxy_connection(&mut client, &mut backend, 3, &[]).unwrap();
    assert_eq!(got.to_client, response.to_vec());
    assert_eq!((got.original_size, got.final_size), (14, 14));
}

#[test]
fn bypassed_response_passes_through_unchanged() {
    let request = b"GET /media/a.mp4 HTTP/1.1\r\nAccept-Encoding: zstd\r\n\r\n";
    let response = b"HTTP/1.1 200 OK\r\nContent-Type: video/mp4\r\n\r\nmovie bytes";
    let skip = patterns(&["^/media/"]);
    let mut client = ByteSource::new(request);
    let mut backend = ByteSource::new(response);
    let got = handle_proxy_connection(&mut client, &mut backend, 3, &skip).unwrap();
    assert_eq!(got.to_client, response.to_vec());
    assert!(find(&got.to_client, b"Content-Encoding").is_none());
    assert_eq!((got.original_size, got.final_size), (11, 11));
}

#[test]
fn plain_response_is_sent_on_as_zstd_in_chunks() {
    let request = b"GET /x HTTP/1.1\r\nAccept-Encoding: gzip, zstd\r\n\r\n";
    let body = vec![b'a'; 20000];
    let mut response = b"HTTP/1.1 200 OK\r\nContent-Type: text/plain\r\nContent-Length: 20000\r\n\r\n".to_vec();
    response.extend_from_slice(&body);
    let mut client = ByteSource::new(request);
    let mut backend = ByteSource::new(&response);
    let got = handle_proxy_connection(&mut client, &mut backend, 3, &[]).unwrap();
    let head_end = find(&got.to_client, b"\r\n\r\n").unwrap() + 4;
    let head = String::from_utf8(got.to_client[..head_end].to_vec()).unwrap();
    assert_eq!(
        head,
        "HTTP/1.1 200 OK\r\ncontent-type: text/plain\r\nContent-Encoding: zstd\r\nTransfer-Encoding: chunked\r\n\r\n"
    );
    let mut framed = ByteSource::new(&got.to_client[head_end..]);
    let mut packed: Vec<u8> = Vec::new();
    let counts = decode_chunked_body(&mut framed, &mut packed).unwrap();
    assert_eq!(counts.0, got.to_client.len() - head_end);
    assert_eq!(packed.len(), got.final_size);
    assert_eq!(got.original_size, 20000);
    assert_eq!(zstd::stream::decode_all(&packed[..]).unwrap(), body);
}

#[test]
fn chunked_response_is_decoded_before_it_is_packed() {
    let request = b"GET /x HTTP/1.1\r\nAccept-Encoding: zstd\r\n\r\n";
    let response =
        b"HTTP/1.1 200 OK\r\nTransfer-Encoding: chunked\r\n\r\n4\r\nWiki\r\n5\r\npedia\r\n0\r\n\r\n";
    let mut client = ByteSource::new(request);
    let mut backend = ByteSource::new(response);
    let got = handle_proxy_connection(&mut client, &mut backend, 3, &[]).unwrap();
    let head_end = find(&got.to_client, b"\r\n\r\n").unwrap() + 4;
    let mut framed = ByteSource::new(&got.to_client[head_end..]);
    let mut packed: Vec<u8> = Vec::new();
    decode_chunked_body(&mut framed, &mut packed).unwrap();
    assert_eq!(zstd::stream::decode_all(&packed[..]).unwrap(), b"Wikipedia".to_vec());
    assert_eq!(got.original_size, 24);
}

#[test]
fn plain_response_without_zstd_is_sent_under_its_length() {
    let request = b"GET /x HTTP/1.1\r\nAccept-Encoding: gzip\r\n\r\n";
    let response = b"HTTP/1.1 404 Not Found\r\nContent-Length: 20\r\nX-A: \xffb\r\n\r\nshort";
    let mut client = ByteSource::new(request);
    let mut backend = ByteSource::new(response);
    let got = handle_proxy_connection(&mut client, &mut backend, 3, &[]).unwrap();
    assert_eq!(
        got.to_client,
        "HTTP/1.1 404 Not Found\r\nContent-Length: 5\r\nx-a: \u{fffd}b\r\n\r\nshort".as_bytes().to_vec()
    );
    assert_eq!((got.original_size, got.final_size), (20, 5));
}

#[test]
fn request_body_follows_the_head() {
    let request = b"POST /x HTTP/1.1\r\nContent-Length: 3\r\n\r\nabcdef";
    let response = b"HTTP/1.1 204 No Content\r\nContent-Encoding: identity\r\n\r\n";
    let mut client = ByteSource::new(request);
    let mut backend = ByteSource::new(response);
    let got = handle_proxy_connection(&mut client, &mut backend, 3, &[]).unwrap();
    assert_eq!(got.to_backend, b"POST /x HTTP/1.1\r\nContent-Length: 3\r\n\r\nabc".to_vec());
}

#[test]
fn websocket_upgrade_becomes_a_tunnel() {
    let request = b"GET /ws HTTP/1.1\r\nUpgrade: WebSocket\r\nConnection: Upgrade\r\n\r\n\x81\x05hello";
    let response = b"HTTP/1.1 101 Switching Protocols\r\n\r\n\x81\x02hi";
    let mut client = ByteSource::new(request);
    let mut backend = ByteSource::new(response);
    let got = handle_proxy_connection(&mut client, &mut backend, 3, &[]).unwrap();
    assert!(got.tunnelled);
    assert_eq!(got.to_backend, request.to_vec());
    assert_eq!(got.to_client, response.to_vec());
    assert_eq!((got.original_size, got.final_size), (0, 0));
}

#[test]
fn broken_exchanges_fail() {
    let mut client = ByteSource::new(b"GET /\xff HTTP/1.1\r\n\r\n");
    let mut backend = ByteSource::new(b"");
    assert!(matches!(
        handle_proxy_connection(&mut client, &mut backend, 3, &[]),
        Err(Failure::InvalidData)
    ));
    let mut client = ByteSource::new(b"GET / HTTP/1.1\r\n\r\n");
    let mut backend =
        ByteSource::new(b"HTTP/1.1 200 OK\r\nTransfer-Encoding: chunked\r\n\r\n5\r\nab");
    assert!(matches!(
        handle_proxy_connection(&mut client, &mut backend, 3, &[]),
        Err(Failure::UnexpectedEof)
    ));
    let mut client = ByteSource::new(b"GET / HTTP/1.1\r\n\r\n");
    let mut backend =
        ByteSource::new(b"HTTP/1.1 200 OK\r\nTransfer-Encoding: chunked\r\n\r\nxyz\r\nab");
    assert!(matches!(
        handle_proxy_connection(&mut client, &mut backend, 3, &[]),
        Err(Failure::InvalidData)
    ));
}

#[test]
fn response_head_stops_after_the_first_blank_line() {
    let mut reader = ByteSource::new(b"HTTP/1.1 200 OK\r\nA: b\r\n\r\nbody\r\n\r\n");
    assert_eq!(read_response_head(&mut reader), b"HTTP/1.1 200 OK\r\nA: b\r\n\r\n".to_vec());
    assert_eq!(reader.pos, 25);
    let mut open = ByteSource::new(b"HTTP/1.1 200 OK\r\n");
    assert_eq!(read_response_head(&mut open), b"HTTP/1.1 200 OK\r\n".to_vec());
}

#[test]
fn chunks_are_at_most_8192_bytes() {
    let mut out: Vec<u8> = b"x".to_vec();
    write_chunked(&mut out, b"");
    assert_eq!(out, b"x0\r\n\r\n".to_vec());
    let data = vec![7u8; 8192 + 26];
    let mut out: Vec<u8> = Vec::new();
    write_chunked(&mut out, &data);
    let mut expected = b"2000\r\n".to_vec();
    expected.extend_from_slice(&data[..8192]);
    expected.extend_from_slice(b"\r\n1A\r\n");
    expected.extend_from_slice(&data[8192..]);
    expected.extend_from_slice(b"\r\n0\r\n\r\n");
    assert_eq!(out, expected);
    let mut framed = ByteSource::new(&out);
    let mut back: Vec<u8> = Vec::new();
    assert_eq!(decode_chunked_body(&mut framed, &mut back), Ok((out.len(), data.len())));
    assert_eq!(back, data);
}

#[test]
fn bypass_patterns_match_the_raw_uri() {
    let skip = patterns(&[r"\.mp4$", "^/stream/"]);
    assert!(should_bypass_compression("/a/b.mp4", &skip));
    assert!(should_bypass_compression("/stream/1", &skip));
    assert!(!should_bypass_compression("/a/b.mp4?x=1", &skip));
    assert!(!should_bypass_compression("/index.html", &skip));
    assert!(!should_bypass_compression("/index.html", &[]));
    assert_eq!(skip[0].source(), r"\.mp4$");
}

#[test]
fn tunnel_rules() {
    let idle = TunnelState { held: 0, sent: 0 };
    let full = TunnelState { held: 17, sent: 0 };
    let part = TunnelState { held: 17, sent: 5 };
    assert_eq!(tunnel_step(idle, TunnelEvent::Read(0)), (idle, TunnelAction::Stop));
    assert_eq!(
        tunnel_step(idle, TunnelEvent::Read(17)),
        (full, TunnelAction::Write { from: 0, to: 17 })
    );
    assert_eq!(tunnel_step(idle, TunnelEvent::ReadWouldBlock), (idle, TunnelAction::PauseThenRead));
    assert_eq!(tunnel_step(idle, TunnelEvent::ReadFailed), (idle, TunnelAction::Stop));
    assert_eq!(tunnel_step(full, TunnelEvent::Wrote(17)), (idle, TunnelAction::Read));
    assert_eq!(
        tunnel_step(full, TunnelEvent::Wrote(5)),
        (part, TunnelAction::Write { from: 5, to: 17 })
    );
    assert_eq!(tunnel_step(part, TunnelEvent::Wrote(12)), (idle, TunnelAction::Read));
    assert_eq!(tunnel_step(part, TunnelEvent::Wrote(usize::MAX)), (idle, TunnelAction::Read));
    assert_eq!(tunnel_step(part, TunnelEvent::Wrote(0)), (part, TunnelAction::Stop));
    assert_eq!(
        tunnel_step(part, TunnelEvent::WriteWouldBlock),
        (part, TunnelAction::PauseThenWrite { from: 5, to: 17 })
    );
    assert_eq!(tunnel_step(idle, TunnelEvent::WriteWouldBlock), (idle, TunnelAction::Read));
    assert_eq!(tunnel_step(part, TunnelEvent::WriteFailed), (part, TunnelAction::Stop));
    assert!(tunnel_closed(true, true));
    assert!(!tunnel_closed(true, false));
    assert!(!tunnel_closed(false, true));
}

#[test]
fn tunnel_moves_everything_both_ways() {
    let up = vec![1u8; 20000];
    let down = vec![2u8; 3];
    let mut client = ByteSource::new(&up);
    client.pos = 5;
    let mut server = ByteSource::new(&down);
    let got = tunnel_connection(&mut client, &mut server);
    assert_eq!(got.to_server, up[5..].to_vec());
    assert_eq!(got.to_client, down);
    assert_eq!(client.pos, 20000);
}
