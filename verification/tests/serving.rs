use zproxy::args::{compile_patterns, BypassPattern};
use zproxy::compression::{AcceptedCompression, CompressionType};
use zproxy::error::Failure;
use zproxy::file_serving::disk::{
    Content, DiskView, FileContent, NodeKind, PathFacts, Resolved, ServeError,
};
use zproxy::file_serving::handlers::{handle_file_request, render_reply, serve_file};
use zproxy::file_serving::spa::SpaConfig;
use zproxy::file_serving::path_utils::FsPath;
use zproxy::file_serving::FileResponse;

const NONE: AcceptedCompression = AcceptedCompression { supports_zstd: false, supports_gzip: false };
const BOTH: AcceptedCompression = AcceptedCompression { supports_zstd: true, supports_gzip: true };
const GZIP: AcceptedCompression = AcceptedCompression { supports_zstd: false, supports_gzip: true };

fn existing(path: &str, kind: NodeKind) -> PathFacts {
    PathFacts { path: path.to_string(), resolved: Resolved::Canonical(path.to_string()), kind }
}

fn missing(path: &str) -> PathFacts {
    PathFacts { path: path.to_string(), resolved: Resolved::NotFound, kind: NodeKind::Missing }
}

fn bytes(path: &str, data: &[u8]) -> FileContent {
    FileContent { path: path.to_string(), content: Content::Bytes(data.to_vec()) }
}

fn patterns(sources: &[&str]) -> Vec<BypassPattern> {
    let sources: Vec<String> = sources.iter().map(|s| s.to_string()).collect();
    match compile_patterns(&sources) {
        Ok(p) => p,
        Err(e) => panic!("{}", e.message),
    }
}

fn site() -> DiskView {
    DiskView {
        facts: vec![
            existing("/srv/www", NodeKind::Directory),
            existing("/srv/www/index.html", NodeKind::File),
            missing("/srv/www/index.html.zst"),
            missing("/srv/www/index.html.gz"),
            existing("/srv/www/app.js", NodeKind::File),
            missing("/srv/www/app.js.zst"),
            missing("/srv/www/app.js.gz"),
            existing("/srv/www/docs", NodeKind::Directory),
            existing("/srv/www/docs/index.html", NodeKind::File),
            missing("/srv/www/app/dashboard"),
            missing("/srv/www/missing.js"),
            missing("/srv/www/missing.js.zst"),
            missing("/srv/www/missing.js.gz"),
            existing("/srv/www/pipe", NodeKind::Other),
        ],
        contents: vec![
            bytes("/srv/www/index.html", b"<html>home</html>"),
            bytes("/srv/www/app.js", b"console.log('hello hello hello hello hello');"),
            bytes("/srv/www/docs/index.html", b"<html>docs</html>"),
        ],
    }
}

fn header(resp: &FileResponse, name: &str) -> Option<String> {
    resp.headers.iter().find(|(k, _)| k == name).map(|(_, v)| v.clone())
}

#[test]
fn plain_request_returns_the_bytes_on_disk() {
    let got = serve_file(&site(), "/srv/www", "/app.js", NONE, 3, 6, &[], None).unwrap().unwrap();
    assert_eq!(got.content, b"console.log('hello hello hello hello hello');".to_vec());
    assert_eq!(got.compression, CompressionType::Identity);
    assert_eq!(got.mime_type, mime_guess::from_ext("js").first_or_octet_stream().to_string());
    assert_ne!(got.mime_type, "js");
    assert_eq!(header(&got, "Cache-Control"), Some("public, max-age=31536000".to_string()));
    assert_eq!(got.headers.len(), 1);
}

#[test]
fn same_request_twice_gives_the_same_response() {
    let disk = site();
    let a = serve_file(&disk, "/srv/www", "/app.js", BOTH, 3, 6, &[], None).unwrap().unwrap();
    let b = serve_file(&disk, "/srv/www", "/app.js", BOTH, 3, 6, &[], None).unwrap().unwrap();
    assert_eq!(a.content, b.content);
    assert_eq!(a.compression, b.compression);
    assert_eq!(a.mime_type, b.mime_type);
    assert_eq!(a.headers, b.headers);
}

#[test]
fn zstd_is_applied_before_gzip() {
    let plain = b"console.log('hello hello hello hello hello');".to_vec();
    let got = serve_file(&site(), "/srv/www", "/app.js", BOTH, 3, 6, &[], None).unwrap().unwrap();
    assert_eq!(got.compression, CompressionType::Zstd);
    assert_ne!(got.content, plain);
    assert_eq!(zstd::stream::decode_all(&got.content[..]).unwrap(), plain);
}

#[test]
fn gzip_is_applied_where_only_gzip_is_accepted() {
    let plain = b"console.log('hello hello hello hello hello');".to_vec();
    let got = serve_file(&site(), "/srv/www", "/app.js", GZIP, 3, 6, &[], None).unwrap().unwrap();
    assert_eq!(got.compression, CompressionType::Gzip);
    assert_ne!(got.content, plain);
    assert_eq!(&got.content[..2], &[0x1f, 0x8b]);
    let mut decoder = flate2::write::GzDecoder::new(Vec::new());
    std::io::Write::write_all(&mut decoder, &got.content).unwrap();
    assert_eq!(decoder.finish().unwrap(), plain);
}

#[test]
fn gzip_level_above_nine_is_refused() {
    match serve_file(&site(), "/srv/www", "/app.js", GZIP, 3, 10, &[], None) {
        Err(ServeError::Failed(Failure::InvalidInput)) => {},
        other => panic!("unexpected {:?}", other.map(|r| r.map(|x| x.content))),
    }
}

#[test]
fn precompressed_sibling_is_sent_as_stored() {
    let mut disk = site();
    disk.facts.insert(0, existing("/srv/www/app.js.gz", NodeKind::File));
    disk.facts.insert(0, existing("/srv/www/app.js.zst", NodeKind::File));
    disk.contents.push(bytes("/srv/www/app.js.zst", b"stored-zst"));
    disk.contents.push(bytes("/srv/www/app.js.gz", b"stored-gz"));
    let got = serve_file(&disk, "/srv/www", "/app.js", BOTH, 3, 6, &[], None).unwrap().unwrap();
    assert_eq!(got.compression, CompressionType::Zstd);
    assert_eq!(got.content, b"stored-zst".to_vec());
    assert_eq!(got.mime_type, mime_guess::from_ext("js").first_or_octet_stream().to_string());
    let got = serve_file(&disk, "/srv/www", "/app.js", GZIP, 3, 6, &[], None).unwrap().unwrap();
    assert_eq!(got.compression, CompressionType::Gzip);
    assert_eq!(got.content, b"stored-gz".to_vec());
}

#[test]
fn bypassed_request_is_never_encoded() {
    let mut disk = site();
    disk.facts.insert(0, existing("/srv/www/app.js.zst", NodeKind::File));
    disk.contents.push(bytes("/srv/www/app.js.zst", b"stored-zst"));
    let skip = patterns(&[r"\.js$"]);
    let got = serve_file(&disk, "/srv/www", "/app.js", BOTH, 3, 6, &skip, None).unwrap().unwrap();
    assert_eq!(got.compression, CompressionType::Identity);
    assert_eq!(got.content, b"console.log('hello hello hello hello hello');".to_vec());
    let reply = render_reply(Some(got));
    let text = String::from_utf8_lossy(&reply.bytes).to_string();
    assert!(!text.contains("Content-Encoding"));
}

#[test]
fn directory_is_answered_with_its_index() {
    let got = serve_file(&site(), "/srv/www", "/docs", NONE, 3, 6, &[], None).unwrap().unwrap();
    assert_eq!(got.content, b"<html>docs</html>".to_vec());
    assert_eq!(
        header(&got, "Cache-Control"),
        Some("no-cache, no-store, must-revalidate".to_string())
    );
    assert_eq!(header(&got, "Pragma"), Some("no-cache".to_string()));
    assert_eq!(header(&got, "Expires"), Some("0".to_string()));
    let got = serve_file(&site(), "/srv/www", "/", NONE, 3, 6, &[], None).unwrap().unwrap();
    assert_eq!(got.content, b"<html>home</html>".to_vec());
}

#[test]
fn unknown_route_falls_back_to_the_index_in_spa_mode() {
    let spa = SpaConfig::new();
    let got = serve_file(&site(), "/srv/www", "/app/dashboard", NONE, 3, 6, &[], Some(&spa))
        .unwrap()
        .unwrap();
    assert_eq!(got.content, b"<html>home</html>".to_vec());
    assert_eq!(
        header(&got, "Cache-Control"),
        Some("no-cache, no-store, must-revalidate".to_string())
    );
}

#[test]
fn missing_static_file_is_not_found_in_spa_mode() {
    let spa = SpaConfig::new();
    let got = serve_file(&site(), "/srv/www", "/missing.js", BOTH, 3, 6, &[], Some(&spa)).unwrap();
    assert!(got.is_none());
}

#[test]
fn unknown_route_is_not_found_without_spa_mode() {
    let got = serve_file(&site(), "/srv/www", "/app/dashboard", NONE, 3, 6, &[], None).unwrap();
    assert!(got.is_none());
}

#[test]
fn special_file_is_not_found() {
    assert!(serve_file(&site(), "/srv/www", "/pipe", NONE, 3, 6, &[], None).unwrap().is_none());
}

#[test]
fn missing_content_is_named() {
    let mut disk = site();
    disk.contents.clear();
    match serve_file(&disk, "/srv/www", "/app.js", NONE, 3, 6, &[], None) {
        Err(ServeError::MissingContent(p)) => assert_eq!(p, "/srv/www/app.js"),
        other => panic!("unexpected {:?}", other.map(|r| r.map(|x| x.content))),
    }
    disk.contents.push(FileContent {
        path: "/srv/www/app.js".to_string(),
        content: Content::Failed(Failure::Other),
    });
    match serve_file(&disk, "/srv/www", "/app.js", NONE, 3, 6, &[], None) {
        Err(ServeError::Failed(Failure::Other)) => {},
        other => panic!("unexpected {:?}", other.map(|r| r.map(|x| x.content))),
    }
}

#[test]
fn spa_config_knows_static_extensions() {
    let spa = SpaConfig::new();
    assert_eq!(spa.index_path, "index.html");
    assert_eq!(spa.static_extensions.len(), 17);
    assert!(spa.is_static_file(&FsPath::parse("/a/app.JS")));
    assert!(spa.is_static_file(&FsPath::parse("/a/site.css")));
    assert!(!spa.is_static_file(&FsPath::parse("/a/dashboard")));
    assert!(!spa.is_static_file(&FsPath::parse("/a/page.html")));
    assert!(!spa.is_static_file(&FsPath::parse("/a/.js")));
    let same = SpaConfig::default();
    assert_eq!(same.static_extensions, spa.static_extensions);
}

#[test]
fn found_reply_is_written_out_in_order() {
    let headers = vec![("accept-encoding".to_string(), "br".to_string())];
    let reply = handle_file_request(
        &site(),
        "/srv/www",
        "GET /index.html HTTP/1.1\r\n",
        &headers,
        3,
        6,
        &[],
        None,
    )
    .unwrap();
    assert!(reply.found);
    assert_eq!(reply.body_len, 17);
    let expected = "HTTP/1.1 200 OK\r\n\
Content-Type: text/html\r\n\
Cache-Control: no-cache, no-store, must-revalidate\r\n\
Pragma: no-cache\r\n\
Expires: 0\r\n\
X-Content-Type-Options: nosniff\r\n\
X-Frame-Options: DENY\r\n\
X-XSS-Protection: 1; mode=block\r\n\
Content-Length: 17\r\n\
\r\n\
<html>home</html>";
    assert_eq!(String::from_utf8(reply.bytes).unwrap(), expected);
}

#[test]
fn encoded_reply_names_its_encoding() {
    let headers = vec![("Accept-Encoding".to_string(), "GZIP, deflate".to_string())];
    let reply =
        handle_file_request(&site(), "/srv/www", "GET /app.js HTTP/1.1", &headers, 3, 6, &[], None)
            .unwrap();
    let text = String::from_utf8_lossy(&reply.bytes).to_string();
    assert!(text.starts_with("HTTP/1.1 200 OK\r\nContent-Type: "));
    assert!(text.contains("\r\nContent-Encoding: gzip\r\n"));
    assert!(text.contains(&format!("\r\nContent-Length: {}\r\n\r\n", reply.body_len)));
}

#[test]
fn missing_file_gets_the_not_found_reply() {
    let reply =
        handle_file_request(&site(), "/srv/www", "GET /missing.js HTTP/1.1", &[], 3, 6, &[], None)
            .unwrap();
    assert!(!reply.found);
    assert_eq!(
        String::from_utf8(reply.bytes).unwrap(),
        "HTTP/1.1 404 Not Found\r\nContent-Type: text/plain\r\nContent-Length: 9\r\n\r\nNot Found"
    );
}

#[test]
fn request_line_without_target_asks_for_the_root() {
    let reply = handle_file_request(&site(), "/srv/www", "GET", &[], 3, 6, &[], None).unwrap();
    assert!(reply.found);
    assert!(reply.bytes.ends_with(b"<html>home</html>"));
}
