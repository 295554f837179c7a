use zproxy::args::{compile_patterns, Args};
use zproxy::error::Failure;
use zproxy::file_serving::disk::{
    Content, DiskView, FileContent, NodeKind, PathFacts, Resolved, ServeError,
};
use zproxy::numbers::{digit_of, format_number, parse_number};
use zproxy::proxy::transfer::ByteSource;
use zproxy::server::{handle_connection, start_server, status_of, Handled, Mode, StartError, Status};
use zproxy::text::{chars_of, is_space_char, line_bounds, same_text, trim_bounds};

fn args() -> Args {
    Args {
        bind: "127.0.0.1".to_string(),
        port: 9866,
        forward: None,
        serve: None,
        zstd_level: 3,
        gzip_level: 6,
        bypass: vec![],
        spa: false,
    }
}

#[test]
fn listen_address_joins_bind_and_port() {
    assert_eq!(args().listen_addr(), "127.0.0.1:9866");
    let mut other = args();
    other.bind = "::1".to_string();
    other.port = 0;
    assert_eq!(other.listen_addr(), "::1:0");
    other.port = 65535;
    assert_eq!(other.listen_addr(), "::1:65535");
}

#[test]
fn server_needs_exactly_one_mode() {
    assert!(matches!(start_server(&args()), Err(StartError::InvalidMode)));
    let mut both = args();
    both.forward = Some("localhost:8080".to_string());
    both.serve = Some("/srv/www".to_string());
    assert!(matches!(start_server(&both), Err(StartError::InvalidMode)));
}

#[test]
fn server_plan_follows_the_settings() {
    let mut proxy = args();
    proxy.forward = Some("localhost:8080".to_string());
    proxy.bypass = vec!["^/a".to_string(), "b$".to_string()];
    let plan = match start_server(&proxy) {
        Ok(plan) => plan,
        Err(_) => panic!("server did not start"),
    };
    assert_eq!(plan.listen, "127.0.0.1:9866");
    assert!(matches!(&plan.mode, Mode::Proxy(addr) if addr == "localhost:8080"));
    assert_eq!(plan.patterns.len(), 2);
    assert_eq!(plan.patterns[1].source(), "b$");
    assert!(plan.spa.is_none());
    let mut files = args();
    files.serve = Some("/srv/www".to_string());
    files.spa = true;
    let plan = match start_server(&files) {
        Ok(plan) => plan,
        Err(_) => panic!("server did not start"),
    };
    assert!(matches!(&plan.mode, Mode::Files(dir) if dir == "/srv/www"));
    assert!(plan.spa.is_some());
    assert_eq!((plan.zstd_level, plan.gzip_level), (3, 6));
}

#[test]
fn invalid_pattern_stops_the_start() {
    let mut bad = args();
    bad.forward = Some("localhost:8080".to_string());
    bad.bypass = vec!["ok".to_string(), "foo(bar".to_string(), "(".to_string()];
    match start_server(&bad) {
        Err(StartError::InvalidPattern(e)) => {
            assert_eq!(e.index, 1);
            assert!(e.message.starts_with("Invalid bypass pattern: "));
            assert!(e.message.len() > "Invalid bypass pattern: ".len());
        },
        _ => panic!("expected an invalid pattern"),
    }
    assert!(compile_patterns(&vec!["a+".to_string()]).is_ok());
}

#[test]
fn file_connection_is_served_and_reported() {
    let mut files = args();
    files.serve = Some("/srv/www".to_string());
    let plan = match start_server(&files) {
        Ok(plan) => plan,
        Err(_) => panic!("server did not start"),
    };
    let disk = DiskView {
        facts: vec![
            PathFacts {
                path: "/srv/www".to_string(),
                resolved: Resolved::Canonical("/srv/www".to_string()),
                kind: NodeKind::Directory,
            },
            PathFacts {
                path: "/srv/www/a.txt".to_string(),
                resolved: Resolved::Canonical("/srv/www/a.txt".to_string()),
                kind: NodeKind::File,
            },
            PathFacts {
                path: "/srv/www/b.txt".to_string(),
                resolved: Resolved::NotFound,
                kind: NodeKind::Missing,
            },
        ],
        contents: vec![FileContent {
            path: "/srv/www/a.txt".to_string(),
            content: Content::Bytes(b"hello".to_vec()),
        }],
    };
    let mut backend = ByteSource::new(b"");
    let mut client = ByteSource::new(b"GET /a.txt HTTP/1.1\r\nHost: x\r\n\r\n");
    let handled = handle_connection(&mut client, &mut backend, &disk, &plan);
    assert_eq!(status_of(&handled), Status::Success);
    match handled {
        Handled::Served(Ok(reply)) => assert!(reply.bytes.ends_with(b"\r\n\r\nhello")),
        _ => panic!("expected a served file"),
    }
    let mut client = ByteSource::new(b"GET /b.txt HTTP/1.1\r\n\r\n");
    let handled = handle_connection(&mut client, &mut backend, &disk, &plan);
    assert_eq!(status_of(&handled), Status::NotFound);
    let mut client = ByteSource::new(b"GET /c.txt HTTP/1.1\r\n\r\n");
    let handled = handle_connection(&mut client, &mut backend, &disk, &plan);
    assert_eq!(status_of(&handled), Status::InternalError);
    assert!(matches!(handled, Handled::Served(Err(ServeError::MissingFacts(p))) if p == "/srv/www/c.txt"));
    let mut client = ByteSource::new(b"GET /\xff HTTP/1.1\r\n\r\n");
    let handled = handle_connection(&mut client, &mut backend, &disk, &plan);
    assert!(matches!(handled, Handled::Served(Err(ServeError::Failed(Failure::InvalidData)))));
}

#[test]
fn proxy_connection_is_relayed_and_reported() {
    let mut proxy = args();
    proxy.forward = Some("localhost:8080".to_string());
    let plan = match start_server(&proxy) {
        Ok(plan) => plan,
        Err(_) => panic!("server did not start"),
    };
    let disk = DiskView::new();
    let response = b"HTTP/1.1 200 OK\r\nContent-Encoding: br\r\n\r\nxyz";
    let mut client = ByteSource::new(b"GET / HTTP/1.1\r\n\r\n");
    let mut backend = ByteSource::new(response);
    let handled = handle_connection(&mut client, &mut backend, &disk, &plan);
    assert_eq!(status_of(&handled), Status::Success);
    match handled {
        Handled::Proxied(Ok(outcome)) => assert_eq!(outcome.to_client, response.to_vec()),
        _ => panic!("expected a relayed response"),
    }
    let mut client = ByteSource::new(b"\xff\n");
    let mut backend = ByteSource::new(response);
    let handled = handle_connection(&mut client, &mut backend, &disk, &plan);
    assert_eq!(status_of(&handled), Status::InternalError);
}

#[test]
fn status_texts() {
    assert_eq!(Status::Success.to_string(), "200 OK");
    assert_eq!(Status::NotFound.to_string(), "404 Not Found");
    assert_eq!(Status::InternalError.to_string(), "500 Internal Server Error");
    assert_eq!(
        status_of(&Handled::Served(Err(ServeError::Failed(Failure::NotFound)))),
        Status::NotFound
    );
    assert_eq!(status_of(&Handled::Proxied(Err(Failure::Other))), Status::InternalError);
}

#[test]
fn numbers_are_written_and_read() {
    assert_eq!(format_number(0, 10), "0");
    assert_eq!(format_number(9866, 10), "9866");
    assert_eq!(format_number(u64::MAX, 10), "18446744073709551615");
    assert_eq!(format_number(8192, 16), "2000");
    assert_eq!(format_number(255, 16), "FF");
    assert_eq!(format_number(26, 16), "1A");
    let parse = |s: &str, radix: u32, max: u64| {
        let v: Vec<char> = s.chars().collect();
        parse_number(&v, 0, v.len(), radix, max)
    };
    assert_eq!(parse("0", 10, u64::MAX), Some(0));
    assert_eq!(parse("+0012", 10, u64::MAX), Some(12));
    assert_eq!(parse("18446744073709551615", 10, u64::MAX), Some(u64::MAX));
    assert_eq!(parse("18446744073709551616", 10, u64::MAX), None);
    assert_eq!(parse("256", 10, 255), None);
    assert_eq!(parse("255", 10, 255), Some(255));
    assert_eq!(parse("", 10, u64::MAX), None);
    assert_eq!(parse("+", 10, u64::MAX), None);
    assert_eq!(parse("-1", 10, u64::MAX), None);
    assert_eq!(parse("1_0", 10, u64::MAX), None);
    assert_eq!(parse("a", 10, u64::MAX), None);
    assert_eq!(parse("aF", 16, u64::MAX), Some(175));
    assert_eq!(parse("g", 16, u64::MAX), None);
    assert_eq!(digit_of('7', 10), Some(7));
    assert_eq!(digit_of('c', 16), Some(12));
    assert_eq!(digit_of('c', 10), None);
}

#[test]
fn text_helpers() {
    assert_eq!(chars_of("a\u{e9}z"), vec!['a', '\u{e9}', 'z']);
    assert!(is_space_char(' '));
    assert!(is_space_char('\u{3000}'));
    assert!(is_space_char('\u{85}'));
    assert!(!is_space_char('\u{200b}'));
    assert!(!is_space_char('x'));
    let v: Vec<char> = "  a b \t".chars().collect();
    assert_eq!(trim_bounds(&v, 0, v.len()), (2, 5));
    let blank: Vec<char> = " \n ".chars().collect();
    let (a, b) = trim_bounds(&blank, 0, blank.len());
    assert_eq!(a, b);
    let text: Vec<char> = "one\r\ntwo\n\nlast\r".chars().collect();
    assert_eq!(line_bounds(&text), vec![(0, 3), (5, 8), (9, 9), (10, 15)]);
    assert_eq!(line_bounds(&Vec::new()), vec![]);
    assert!(same_text("abc", "abc"));
    assert!(!same_text("abc", "abd"));
    assert!(!same_text("abc", "ab"));
}
