use zproxy::compression::{AcceptedCompression, CompressionType};
use zproxy::error::Failure;
use zproxy::file_serving::disk::{DiskView, NodeKind, PathFacts, Resolved, ServeError};
use zproxy::file_serving::path_utils::{find_precompressed, sanitize_path, FsPath};

fn fact(path: &str, resolved: Resolved, kind: NodeKind) -> PathFacts {
    PathFacts { path: path.to_string(), resolved, kind }
}

fn existing(path: &str, kind: NodeKind) -> PathFacts {
    fact(path, Resolved::Canonical(path.to_string()), kind)
}

fn missing(path: &str) -> PathFacts {
    fact(path, Resolved::NotFound, NodeKind::Missing)
}

fn names(path: &FsPath) -> Vec<&str> {
    path.parts.iter().map(|p| p.as_str()).collect()
}

#[test]
fn parse_keeps_plain_names_only() {
    assert_eq!(names(&FsPath::parse("/srv/www")), vec!["srv", "www"]);
    assert_eq!(names(&FsPath::parse("a//b/./c/../d/")), vec!["a", "b", "c", "d"]);
    assert_eq!(names(&FsPath::parse("/")), Vec::<&str>::new());
    assert_eq!(names(&FsPath::parse("")), Vec::<&str>::new());
    assert_eq!(names(&FsPath::parse("...")), vec!["..."]);
    assert_eq!(names(&FsPath::parse("../../etc/passwd")), vec!["etc", "passwd"]);
}

#[test]
fn render_puts_a_slash_before_each_name() {
    assert_eq!(FsPath::parse("/srv/www").render(), "/srv/www");
    assert_eq!(FsPath::root().render(), "/");
    assert_eq!(FsPath::parse("a/b").render(), "/a/b");
}

#[test]
fn starts_with_goes_by_whole_names() {
    let root = FsPath::parse("/srv/www");
    assert!(FsPath::parse("/srv/www/a").starts_with(&root));
    assert!(FsPath::parse("/srv/www").starts_with(&root));
    assert!(!FsPath::parse("/srv/wwwx/a").starts_with(&root));
    assert!(!FsPath::parse("/srv").starts_with(&root));
    assert!(FsPath::parse("/x").starts_with(&FsPath::root()));
}

#[test]
fn join_sibling_and_extension() {
    let root = FsPath::parse("/srv/www");
    let joined = root.join(&FsPath::parse("js/app.js"));
    assert_eq!(joined.render(), "/srv/www/js/app.js");
    assert_eq!(joined.sibling(".zst").render(), "/srv/www/js/app.js.zst");
    assert_eq!(FsPath::root().sibling(".gz").render(), "/.gz");
    assert_eq!(joined.extension(), Some("js".to_string()));
    assert_eq!(FsPath::parse("/a/archive.tar.GZ").extension(), Some("GZ".to_string()));
    assert_eq!(FsPath::parse("/a/.bashrc").extension(), None);
    assert_eq!(FsPath::parse("/a/.a.b").extension(), Some("b".to_string()));
    assert_eq!(FsPath::parse("/a/name").extension(), None);
    assert_eq!(FsPath::parse("/a/name.").extension(), Some(String::new()));
    assert_eq!(FsPath::root().extension(), None);
    assert_eq!(joined.duplicate().render(), joined.render());
}

#[test]
fn sanitize_resolves_an_existing_file() {
    let disk = DiskView {
        facts: vec![
            existing("/srv/www", NodeKind::Directory),
            existing("/srv/www/a b.txt", NodeKind::File),
        ],
        contents: vec![],
    };
    let got = sanitize_path(&disk, "/srv/www", "/a%20b.txt?x=1&y=%ff").unwrap().unwrap();
    assert_eq!(got.render(), "/srv/www/a b.txt");
}

#[test]
fn sanitize_drops_parent_segments() {
    let disk = DiskView {
        facts: vec![
            existing("/srv/www", NodeKind::Directory),
            missing("/srv/www/etc/passwd"),
            missing("/srv/www/secret"),
        ],
        contents: vec![],
    };
    let plain = sanitize_path(&disk, "/srv/www", "/../../etc/passwd").unwrap().unwrap();
    assert_eq!(plain.render(), "/srv/www/etc/passwd");
    let encoded = sanitize_path(&disk, "/srv/www", "/%2e%2e/secret").unwrap().unwrap();
    assert_eq!(encoded.render(), "/srv/www/secret");
    let slash = sanitize_path(&disk, "/srv/www", "/..%2F..%2Fetc/passwd").unwrap().unwrap();
    assert_eq!(slash.render(), "/srv/www/etc/passwd");
    assert!(plain.starts_with(&FsPath::parse("/srv/www")));
}

#[test]
fn sanitize_refuses_a_link_that_leaves_the_root() {
    let disk = DiskView {
        facts: vec![
            existing("/srv/www", NodeKind::Directory),
            fact("/srv/www/link", Resolved::Canonical("/etc/passwd".to_string()), NodeKind::File),
        ],
        contents: vec![],
    };
    assert!(sanitize_path(&disk, "/srv/www", "/link").unwrap().is_none());
}

#[test]
fn sanitize_uses_the_canonical_root() {
    let disk = DiskView {
        facts: vec![
            fact("./public", Resolved::Canonical("/home/u/public".to_string()), NodeKind::Directory),
            existing("/home/u/public/x", NodeKind::File),
        ],
        contents: vec![],
    };
    let got = sanitize_path(&disk, "./public", "/x").unwrap().unwrap();
    assert_eq!(got.render(), "/home/u/public/x");
}

#[test]
fn sanitize_gives_nothing_for_a_path_that_is_no_utf8() {
    let disk = DiskView { facts: vec![existing("/srv/www", NodeKind::Directory)], contents: vec![] };
    assert!(sanitize_path(&disk, "/srv/www", "/%ff%fe").unwrap().is_none());
}

#[test]
fn sanitize_reports_what_it_lacks_and_what_failed() {
    let empty = DiskView::new();
    match sanitize_path(&empty, "/srv/www", "/a") {
        Err(ServeError::MissingFacts(p)) => assert_eq!(p, "/srv/www"),
        other => panic!("unexpected {:?}", other),
    }
    let root_only =
        DiskView { facts: vec![existing("/srv/www", NodeKind::Directory)], contents: vec![] };
    match sanitize_path(&root_only, "/srv/www", "/a") {
        Err(ServeError::MissingFacts(p)) => assert_eq!(p, "/srv/www/a"),
        other => panic!("unexpected {:?}", other),
    }
    let no_root = DiskView { facts: vec![missing("/srv/www")], contents: vec![] };
    match sanitize_path(&no_root, "/srv/www", "/a") {
        Err(ServeError::Failed(Failure::NotFound)) => {},
        other => panic!("unexpected {:?}", other),
    }
    let denied = DiskView {
        facts: vec![
            existing("/srv/www", NodeKind::Directory),
            fact("/srv/www/a", Resolved::Failed(Failure::Other), NodeKind::Missing),
        ],
        contents: vec![],
    };
    match sanitize_path(&denied, "/srv/www", "/a") {
        Err(ServeError::Failed(Failure::Other)) => {},
        other => panic!("unexpected {:?}", other),
    }
}

#[test]
fn zstd_sibling_is_preferred_over_gzip() {
    let disk = DiskView {
        facts: vec![
            existing("/srv/www", NodeKind::Directory),
            existing("/srv/www/foo.js.zst", NodeKind::File),
            existing("/srv/www/foo.js.gz", NodeKind::File),
        ],
        contents: vec![],
    };
    let both = AcceptedCompression { supports_zstd: true, supports_gzip: true };
    let target = FsPath::parse("/srv/www/foo.js");
    let found = find_precompressed(&disk, "/srv/www", &target, both).unwrap().unwrap();
    assert_eq!(found.compression, CompressionType::Zstd);
    assert_eq!(found.path.render(), "/srv/www/foo.js.zst");
    let gzip_only = AcceptedCompression { supports_zstd: false, supports_gzip: true };
    let found = find_precompressed(&disk, "/srv/www", &target, gzip_only).unwrap().unwrap();
    assert_eq!(found.compression, CompressionType::Gzip);
    assert_eq!(found.path.render(), "/srv/www/foo.js.gz");
}

#[test]
fn sibling_must_be_a_regular_file_inside_the_root() {
    let disk = DiskView {
        facts: vec![
            existing("/srv/www", NodeKind::Directory),
            existing("/srv/www/a.css.zst", NodeKind::Directory),
            fact(
                "/srv/www/a.css.gz",
                Resolved::Canonical("/tmp/evil.gz".to_string()),
                NodeKind::File,
            ),
        ],
        contents: vec![],
    };
    let both = AcceptedCompression { supports_zstd: true, supports_gzip: true };
    let target = FsPath::parse("/srv/www/a.css");
    assert!(find_precompressed(&disk, "/srv/www", &target, both).unwrap().is_none());
}

#[test]
fn no_grant_means_no_look_at_the_disk() {
    let none = AcceptedCompression { supports_zstd: false, supports_gzip: false };
    let target = FsPath::parse("/srv/www/a.css");
    assert!(find_precompressed(&DiskView::new(), "/srv/www", &target, none).unwrap().is_none());
}
