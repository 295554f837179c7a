//! Answering a request for a file: which file to send, in which encoding,
//! under which headers.

use crate::args::{any_pattern_matches, should_bypass_compression, BypassPattern};
use crate::compression::{
    accepted, determine_compression, gzip_encode, gzip_encoded, zstd_encode, zstd_encoded,
    AcceptedCompression, CompressionType,
};
use crate::error::Failure;
use crate::file_serving::disk::{Content, DiskView, Halt, NodeKind, ServeError};
use crate::file_serving::path_utils::{
    canonical_root, find_precompressed, path_extension, path_parts, precompressed, rendered,
    root_of, sanitize_path, sanitized, FsPath,
};
use crate::file_serving::spa::SpaConfig;
use crate::file_serving::{FileResponse, ResponseModel};
use crate::numbers::{format_number, number_text};
use crate::proxy::headers::{
    find_header, header_lines, request_target, target_of_line, value_of, write_headers, Fields,
};
use crate::text::{lowercase, lowercased, same_text};
use vstd::prelude::*;
use vstd::string::*;
use vstd::utf8::encode_utf8;

verus! {

/// The media type that `mime_guess` has for a file extension, or
/// `application/octet-stream` where it has none.
pub uninterp spec fn mime_of_extension(ext: Seq<char>) -> Seq<char>;

/// Calls `mime_guess::from_ext` and `first_or_octet_stream`. Trusted: the
/// result is the one named `mime_of_extension`; for the empty extension it
/// is `application/octet-stream`.
#[verifier::external_body]
pub(crate) fn guess_mime(ext: &str) -> (r: String)
    ensures
        r@ == mime_of_extension(ext@),
        ext@.len() == 0 ==> r@ == "application/octet-stream"@,
{
    mime_guess::from_ext(ext).first_or_octet_stream().to_string()
}

/// The media type of the file that `target` names: by its extension.
pub open spec fn mime_for(target: Seq<Seq<char>>) -> Seq<char> {
    mime_of_extension(
        match path_extension(target) {
            Some(ext) => ext,
            None => Seq::empty(),
        },
    )
}

/// The index document's path, relative to a directory.
pub open spec fn index_parts(spa: Option<&SpaConfig>) -> Seq<Seq<char>> {
    match spa {
        Some(config) => path_parts(config.index_path@),
        None => path_parts("index.html"@),
    }
}

/// The file that stands for the sanitized path `path`: the index document
/// inside it where it is a directory; the root's index document where
/// fallback is configured, the path names no static file and nothing
/// exists there; else the path itself.
pub open spec fn target_of(
    disk: DiskView,
    root: Seq<Seq<char>>,
    path: Seq<Seq<char>>,
    spa: Option<&SpaConfig>,
) -> Result<Seq<Seq<char>>, Halt> {
    let key = rendered(path);
    if !disk.knows(key) {
        Err(Halt::MissingFacts(key))
    } else if disk.facts_of(key).kind == NodeKind::Directory {
        Ok(path + index_parts(spa))
    } else {
        match spa {
            Some(config) => if !config.is_static(path) && disk.facts_of(key).kind
                == NodeKind::Missing {
                Ok(root + path_parts(config.index_path@))
            } else {
                Ok(path)
            },
            None => Ok(path),
        }
    }
}

/// Is the last name of `target` `index.html`, letter case not counting?
pub open spec fn is_index(target: Seq<Seq<char>>) -> bool {
    target.len() > 0 && lowercased(target.last()) == "index.html"@
}

/// The cache headers for `target`: the index document must always be
/// revalidated, anything else may be kept for a year.
pub open spec fn cache_headers(target: Seq<Seq<char>>) -> Fields {
    if is_index(target) {
        seq![
            ("Cache-Control"@, "no-cache, no-store, must-revalidate"@),
            ("Pragma"@, "no-cache"@),
            ("Expires"@, "0"@),
        ]
    } else {
        seq![("Cache-Control"@, "public, max-age=31536000"@)]
    }
}

/// The encoding to apply to content that is not stored encoded: none for a
/// bypassed request, else zstd before gzip, as far as the client takes them.
pub open spec fn chosen_encoding(bypass: bool, accepted: AcceptedCompression) -> CompressionType {
    if bypass {
        CompressionType::Identity
    } else if accepted.supports_zstd {
        CompressionType::Zstd
    } else if accepted.supports_gzip {
        CompressionType::Gzip
    } else {
        CompressionType::Identity
    }
}

/// What is to be sent: which file, whether it is stored encoded, and the
/// encoding that the response will carry.
pub struct ServePlan {
    /// The file whose bytes are read.
    pub file: Seq<Seq<char>>,
    /// The file that was asked for; its name decides media type and caching.
    pub target: Seq<Seq<char>>,
    /// The encoding of the response.
    pub encoding: CompressionType,
    /// Whether `file` already holds the encoded bytes.
    pub stored: bool,
}

/// The plan for a request, as far as the record of the disk decides it.
/// `Ok(None)` is "not found".
pub open spec fn planned(
    disk: DiskView,
    base_dir: Seq<char>,
    raw: Seq<char>,
    accepted: AcceptedCompression,
    bypass: bool,
    spa: Option<&SpaConfig>,
) -> Result<Option<ServePlan>, Halt> {
    match sanitized(disk, base_dir, raw) {
        Err(h) => Err(h),
        Ok(None) => Ok(None),
        Ok(Some(path)) => match root_of(disk, base_dir) {
            Err(h) => Err(h),
            Ok(root) => match target_of(disk, root, path, spa) {
                Err(h) => Err(h),
                Ok(target) => {
                    let sibling = if bypass {
                        Ok(None)
                    } else {
                        precompressed(disk, base_dir, target, accepted)
                    };
                    match sibling {
                        Err(h) => Err(h),
                        Ok(Some((file, kind))) => Ok(
                            Some(ServePlan { file, target, encoding: kind, stored: true }),
                        ),
                        Ok(None) => {
                            let key = rendered(target);
                            if !disk.knows(key) {
                                Err(Halt::MissingFacts(key))
                            } else if disk.facts_of(key).kind != NodeKind::File {
                                Ok(None)
                            } else {
                                Ok(
                                    Some(
                                        ServePlan {
                                            file: target,
                                            target,
                                            encoding: chosen_encoding(bypass, accepted),
                                            stored: false,
                                        },
                                    ),
                                )
                            }
                        },
                    }
                },
            },
        },
    }
}

/// The recorded bytes of the file at `key`.
pub open spec fn content_at(disk: DiskView, key: Seq<char>) -> Result<Seq<u8>, Halt> {
    if !disk.holds(key) {
        Err(Halt::MissingContent(key))
    } else {
        match disk.content_of(key) {
            Content::Bytes(b) => Ok(b@),
            Content::Failed(e) => Err(Halt::Failed(e)),
        }
    }
}

/// `bytes` in the given encoding.
pub open spec fn encoded(
    bytes: Seq<u8>,
    encoding: CompressionType,
    zstd_level: i32,
    gzip_level: u32,
) -> Seq<u8> {
    match encoding {
        CompressionType::Zstd => zstd_encoded(bytes, zstd_level as int),
        CompressionType::Gzip => gzip_encoded(bytes, gzip_level as int),
        CompressionType::Identity => bytes,
    }
}

/// The response that carries out `plan` on the file's `bytes`.
pub open spec fn response_of(plan: ServePlan, bytes: Seq<u8>, zstd_level: i32, gzip_level: u32)
    -> ResponseModel {
    ResponseModel {
        content: if plan.stored {
            bytes
        } else {
            encoded(bytes, plan.encoding, zstd_level, gzip_level)
        },
        mime_type: mime_for(plan.target),
        compression: plan.encoding,
        headers: cache_headers(plan.target),
    }
}

/// Is `r` what serving under `plan` gives?
///
/// Where the plan or the file's content cannot be had, `r` is that failure.
/// Where the content is to be put into gzip at a level above 9, `r` is
/// `InvalidInput`. Else `r` is the response that carries out the plan.
pub open spec fn served(
    r: Result<Option<FileResponse>, ServeError>,
    plan: Result<Option<ServePlan>, Halt>,
    disk: DiskView,
    zstd_level: i32,
    gzip_level: u32,
) -> bool {
    match plan {
        Err(h) => r matches Err(e) && e@ == h,
        Ok(None) => r matches Ok(None),
        Ok(Some(plan)) => match content_at(disk, rendered(plan.file)) {
            Err(h) => r matches Err(e) && e@ == h,
            Ok(bytes) => {
                let encodes = !plan.stored && plan.encoding != CompressionType::Identity;
                let bad_level = encodes && plan.encoding == CompressionType::Gzip && gzip_level
                    > 9;
                match r {
                    Ok(Some(resp)) => !bad_level && resp@ == response_of(
                        plan,
                        bytes,
                        zstd_level,
                        gzip_level,
                    ),
                    Ok(None) => false,
                    Err(e) => bad_level && e@ == Halt::Failed(Failure::InvalidInput),
                }
            },
        },
    }
}

/// Reads a file's bytes out of the record.
pub fn read_content(disk: &DiskView, path: &FsPath) -> (r: Result<Vec<u8>, ServeError>)
    ensures
        match (r, content_at(*disk, rendered(path@))) {
            (Ok(b), Ok(c)) => b@ == c,
            (Err(e), Err(h)) => e@ == h,
            _ => false,
        },
{
    let key = path.render();
    match disk.content(key.as_str()) {
        None => Err(ServeError::MissingContent(key)),
        Some(Content::Failed(e)) => Err(ServeError::Failed(*e)),
        Some(Content::Bytes(b)) => Ok(b.clone()),
    }
}

/// Picks the file that stands for a sanitized path.
pub fn resolve_target(disk: &DiskView, root: &FsPath, path: FsPath, spa: Option<&SpaConfig>) -> (r:
    Result<FsPath, ServeError>)
    ensures
        match (r, target_of(*disk, root@, path@, spa)) {
            (Ok(p), Ok(q)) => p@ == q,
            (Err(e), Err(h)) => e@ == h,
            _ => false,
        },
{
    let key = path.render();
    let kind = match disk.facts(key.as_str()) {
        None => {
            return Err(ServeError::MissingFacts(key));
        },
        Some(facts) => facts.kind,
    };
    if kind == NodeKind::Directory {
        let index = match spa {
            Some(config) => FsPath::parse(config.index_path.as_str()),
            None => FsPath::parse("index.html"),
        };
        return Ok(path.join(&index));
    }
    match spa {
        Some(config) => {
            if !config.is_static_file(&path) && kind == NodeKind::Missing {
                let index = FsPath::parse(config.index_path.as_str());
                Ok(root.join(&index))
            } else {
                Ok(path)
            }
        },
        None => Ok(path),
    }
}

/// Builds the cache headers for a target.
pub fn cache_headers_for(target: &FsPath) -> (r: Vec<(String, String)>)
    ensures
        r.deep_view() == cache_headers(target@),
{
    let n = target.parts.len();
    let index = if n == 0 {
        false
    } else {
        let name = lowercase(target.parts[n - 1].as_str());
        assert(target@.last() == target.parts@[n - 1]@);
        same_text(name.as_str(), "index.html")
    };
    let mut out: Vec<(String, String)> = Vec::new();
    if index {
        out.push(("Cache-Control".to_owned(), "no-cache, no-store, must-revalidate".to_owned()));
        out.push(("Pragma".to_owned(), "no-cache".to_owned()));
        out.push(("Expires".to_owned(), "0".to_owned()));
    } else {
        out.push(("Cache-Control".to_owned(), "public, max-age=31536000".to_owned()));
    }
    assert(out.deep_view() =~= cache_headers(target@));
    out
}

/// Puts `content` into `encoding`. This succeeds for every encoding and
/// level but gzip at a level above 9, which is `InvalidInput`.
pub fn encode_content(content: Vec<u8>, encoding: CompressionType, zstd_level: i32, gzip_level: u32)
    -> (r: Result<Vec<u8>, Failure>)
    ensures
        r is Ok <==> !(encoding == CompressionType::Gzip && gzip_level > 9),
        r matches Ok(out) ==> out@ == encoded(content@, encoding, zstd_level, gzip_level),
        r matches Err(e) ==> e == Failure::InvalidInput,
{
    match encoding {
        CompressionType::Identity => Ok(content),
        CompressionType::Zstd => match zstd_encode(content.as_slice(), zstd_level) {
            Some(out) => Ok(out),
            None => Err(Failure::Other),
        },
        CompressionType::Gzip => {
            if gzip_level > 9 {
                return Err(Failure::InvalidInput);
            }
            match gzip_encode(content.as_slice(), gzip_level) {
                Some(out) => Ok(out),
                None => Err(Failure::Other),
            }
        },
    }
}

/// The media type for a target.
pub fn mime_type_of(target: &FsPath) -> (r: String)
    ensures
        r@ == mime_for(target@),
{
    match target.extension() {
        Some(ext) => guess_mime(ext.as_str()),
        None => {
            let r = guess_mime("");
            proof {
                reveal_strlit("");
                assert(""@ =~= Seq::<char>::empty());
            }
            r
        },
    }
}

/// Answers a request for a file out of the record of the disk.
///
/// `Ok(None)` means "not found": the path does not decode, lies outside the
/// served directory, or names nothing that is a regular file. A request
/// that matches a bypass pattern is never compressed and is not given a
/// precompressed sibling. A precompressed sibling, where one is found, is
/// sent as it is stored. The media type and the cache headers go by the
/// name of the file that was asked for.
pub fn serve_file(
    disk: &DiskView,
    base_dir: &str,
    request_path: &str,
    accepted_compression: AcceptedCompression,
    zstd_level: i32,
    gzip_level: u32,
    bypass_patterns: &[BypassPattern],
    spa_config: Option<&SpaConfig>,
) -> (r: Result<Option<FileResponse>, ServeError>)
    ensures
        served(
            r,
            planned(
                *disk,
                base_dir@,
                request_path@,
                accepted_compression,
                any_pattern_matches(bypass_patterns@, request_path@),
                spa_config,
            ),
            *disk,
            zstd_level,
            gzip_level,
        ),
{
    let bypass = should_bypass_compression(request_path, bypass_patterns);
    let path = match sanitize_path(disk, base_dir, request_path) {
        Err(e) => {
            return Err(e);
        },
        Ok(None) => {
            return Ok(None);
        },
        Ok(Some(path)) => path,
    };
    let root = match canonical_root(disk, base_dir) {
        Err(e) => {
            return Err(e);
        },
        Ok(root) => root,
    };
    let target = match resolve_target(disk, &root, path, spa_config) {
        Err(e) => {
            return Err(e);
        },
        Ok(target) => target,
    };
    let headers = cache_headers_for(&target);
    if !bypass {
        match find_precompressed(disk, base_dir, &target, accepted_compression) {
            Err(e) => {
                return Err(e);
            },
            Ok(Some(found)) => {
                let content = match read_content(disk, &found.path) {
                    Err(e) => {
                        return Err(e);
                    },
                    Ok(content) => content,
                };
                let mime_type = mime_type_of(&target);
                return Ok(
                    Some(
                        FileResponse { content, mime_type, compression: found.compression, headers },
                    ),
                );
            },
            Ok(None) => {},
        }
    }
    let key = target.render();
    match disk.facts(key.as_str()) {
        None => {
            return Err(ServeError::MissingFacts(key));
        },
        Some(facts) => {
            if facts.kind != NodeKind::File {
                return Ok(None);
            }
        },
    }
    let content = match read_content(disk, &target) {
        Err(e) => {
            return Err(e);
        },
        Ok(content) => content,
    };
    let mime_type = mime_type_of(&target);
    let compression = if bypass {
        CompressionType::Identity
    } else if accepted_compression.supports_zstd {
        CompressionType::Zstd
    } else if accepted_compression.supports_gzip {
        CompressionType::Gzip
    } else {
        CompressionType::Identity
    };
    match encode_content(content, compression, zstd_level, gzip_level) {
        Err(e) => Err(ServeError::Failed(e)),
        Ok(content) => Ok(Some(FileResponse { content, mime_type, compression, headers })),
    }
}

/// The `Content-Encoding` line for an encoding; none where the body is
/// sent as it is.
pub open spec fn encoding_line(compression: CompressionType) -> Seq<char> {
    match compression {
        CompressionType::Zstd => "Content-Encoding: zstd\r\n"@,
        CompressionType::Gzip => "Content-Encoding: gzip\r\n"@,
        CompressionType::Identity => Seq::empty(),
    }
}

/// The security headers that every file response carries.
pub open spec fn security_lines() -> Seq<char> {
    "X-Content-Type-Options: nosniff\r\n"@ + "X-Frame-Options: DENY\r\n"@
        + "X-XSS-Protection: 1; mode=block\r\n"@
}

/// The head of the response that delivers `resp`.
pub open spec fn found_head(resp: ResponseModel) -> Seq<char> {
    "HTTP/1.1 200 OK\r\n"@ + "Content-Type: "@ + resp.mime_type + "\r\n"@ + encoding_line(
        resp.compression,
    ) + header_lines(resp.headers) + security_lines() + "Content-Length: "@ + number_text(
        resp.content.len(),
        10,
    ) + "\r\n"@ + "\r\n"@
}

/// The whole "not found" response.
pub open spec fn not_found_text() -> Seq<char> {
    "HTTP/1.1 404 Not Found\r\n"@ + "Content-Type: text/plain\r\n"@ + "Content-Length: 9\r\n"@
        + "\r\n"@ + "Not Found"@
}

/// The bytes that answer a request whose file response is `resp`.
pub open spec fn reply_bytes(resp: Option<ResponseModel>) -> Seq<u8> {
    match resp {
        Some(resp) => encode_utf8(found_head(resp)) + resp.content,
        None => encode_utf8(not_found_text()),
    }
}

/// What is sent back for a file request.
pub struct FileReply {
    /// The response, head and body.
    pub bytes: Vec<u8>,
    /// Whether a file was found; if not, the response is the 404 one.
    pub found: bool,
    /// Length of the body that was sent.
    pub body_len: usize,
}

/// Writes a response out as bytes.
pub fn render_reply(response: Option<FileResponse>) -> (r: FileReply)
    ensures
        r.bytes@ == reply_bytes(
            match response {
                Some(resp) => Some(resp@),
                None => None,
            },
        ),
        r.found == response is Some,
        r.body_len == match response {
            Some(resp) => resp.content.len(),
            None => 9,
        },
{
    match response {
        Some(resp) => {
            let mut head = "HTTP/1.1 200 OK\r\n".to_owned();
            head.append("Content-Type: ");
            head.append(resp.mime_type.as_str());
            head.append("\r\n");
            match resp.compression {
                CompressionType::Zstd => {
                    head.append("Content-Encoding: zstd\r\n");
                },
                CompressionType::Gzip => {
                    head.append("Content-Encoding: gzip\r\n");
                },
                CompressionType::Identity => {
                    assert(head@ + Seq::<char>::empty() == head@);
                },
            }
            write_headers(&mut head, resp.headers.as_slice());
            head.append("X-Content-Type-Options: nosniff\r\n");
            head.append("X-Frame-Options: DENY\r\n");
            head.append("X-XSS-Protection: 1; mode=block\r\n");
            head.append("Content-Length: ");
            let length = format_number(resp.content.len() as u64, 10);
            head.append(length.as_str());
            head.append("\r\n");
            head.append("\r\n");
            assert(head@ =~= found_head(resp@));
            let mut bytes = head.as_str().as_bytes_vec();
            bytes.extend_from_slice(resp.content.as_slice());
            FileReply { bytes, found: true, body_len: resp.content.len() }
        },
        None => {
            let mut text = "HTTP/1.1 404 Not Found\r\n".to_owned();
            text.append("Content-Type: text/plain\r\n");
            text.append("Content-Length: 9\r\n");
            text.append("\r\n");
            text.append("Not Found");
            assert(text@ =~= not_found_text());
            FileReply { bytes: text.as_str().as_bytes_vec(), found: false, body_len: 9 }
        },
    }
}

/// The value of the request's `Accept-Encoding` header, or the empty text.
pub open spec fn accept_encoding_of(headers: Fields) -> Seq<char> {
    match value_of(headers, "accept-encoding"@) {
        Some(v) => v,
        None => Seq::empty(),
    }
}

/// Is `r` the answer to the request `request` with headers `headers`?
///
/// The client's grants are read off its `Accept-Encoding` header, the
/// target off the request line. Where serving succeeds, the reply holds the
/// response written out, or the 404 response where nothing was found.
pub open spec fn replied(
    r: Result<FileReply, ServeError>,
    disk: DiskView,
    base_dir: Seq<char>,
    request: Seq<char>,
    headers: Fields,
    zstd_level: i32,
    gzip_level: u32,
    patterns: Seq<BypassPattern>,
    spa: Option<&SpaConfig>,
) -> bool {
    let target = target_of_line(request);
    let grants = accepted(lowercased(accept_encoding_of(headers)));
    let plan = planned(
        disk,
        base_dir,
        target,
        grants,
        any_pattern_matches(patterns, target),
        spa,
    );
    match r {
        Ok(reply) => exists|resp: Option<FileResponse>|
            {
                &&& #[trigger] served(Ok(resp), plan, disk, zstd_level, gzip_level)
                &&& reply.found == resp is Some
                &&& reply.bytes@ == reply_bytes(
                    match resp {
                        Some(x) => Some(x@),
                        None => None,
                    },
                )
                &&& reply.body_len == match resp {
                    Some(x) => x.content.len(),
                    None => 9,
                }
            },
        Err(e) => served(Err(e), plan, disk, zstd_level, gzip_level),
    }
}

/// Answers one file request: reads what the client accepts off its headers
/// and the target off the request line, serves the file, and writes the
/// response out. A miss is answered with the 404 response, not with an
/// error.
pub fn handle_file_request(
    disk: &DiskView,
    base_dir: &str,
    request: &str,
    headers: &[(String, String)],
    zstd_level: i32,
    gzip_level: u32,
    bypass_patterns: &[BypassPattern],
    spa_config: Option<&SpaConfig>,
) -> (r: Result<FileReply, ServeError>)
    ensures
        replied(
            r,
            *disk,
            base_dir@,
            request@,
            headers.deep_view(),
            zstd_level,
            gzip_level,
            bypass_patterns@,
            spa_config,
        ),
{
    let value = match find_header(headers, "accept-encoding") {
        Some(i) => headers[i].1.as_str(),
        None => {
            proof {
                reveal_strlit("");
                assert(""@ =~= Seq::<char>::empty());
            }
            ""
        },
    };
    let compression = determine_compression(value);
    let target = request_target(request);
    let response = match serve_file(
        disk,
        base_dir,
        target.as_str(),
        compression,
        zstd_level,
        gzip_level,
        bypass_patterns,
        spa_config,
    ) {
        Err(e) => {
            return Err(e);
        },
        Ok(response) => response,
    };
    let reply = render_reply(response);
    Ok(reply)
}

/// A client that accepts no encoding is sent the file's own bytes: the plan
/// reads the file that was asked for and applies nothing to it.
pub proof fn law_plain_request_gets_the_file(
    disk: DiskView,
    base_dir: Seq<char>,
    raw: Seq<char>,
    bypass: bool,
    spa: Option<&SpaConfig>,
    bytes: Seq<u8>,
    zstd_level: i32,
    gzip_level: u32,
)
    ensures
        ({
            let none = AcceptedCompression { supports_zstd: false, supports_gzip: false };
            planned(disk, base_dir, raw, none, bypass, spa) matches Ok(Some(plan)) ==> {
                &&& plan.file == plan.target
                &&& plan.encoding == CompressionType::Identity
                &&& response_of(plan, bytes, zstd_level, gzip_level).content == bytes
            }
        }),
{
}

/// A request that matches a bypass pattern is never encoded, whatever the
/// client accepts: the response carries no encoding, so its head has no
/// `Content-Encoding` line, and its content is the file's own bytes.
pub proof fn law_bypass_is_never_encoded(
    disk: DiskView,
    base_dir: Seq<char>,
    raw: Seq<char>,
    accepted: AcceptedCompression,
    spa: Option<&SpaConfig>,
    bytes: Seq<u8>,
    zstd_level: i32,
    gzip_level: u32,
)
    ensures
        planned(disk, base_dir, raw, accepted, true, spa) matches Ok(Some(plan)) ==> {
            let resp = response_of(plan, bytes, zstd_level, gzip_level);
            &&& plan.file == plan.target
            &&& resp.compression == CompressionType::Identity
            &&& resp.content == bytes
            &&& encoding_line(resp.compression) == Seq::<char>::empty()
        },
{
}

/// Serving is a function of the request and the record of the disk: two
/// answers to the same request are the same. A response comes again with
/// the same content, encoding, media type and headers; "not found" is
/// "not found" again; a failure is the same failure again.
pub proof fn law_same_request_same_response(
    first: Result<Option<FileResponse>, ServeError>,
    second: Result<Option<FileResponse>, ServeError>,
    plan: Result<Option<ServePlan>, Halt>,
    disk: DiskView,
    zstd_level: i32,
    gzip_level: u32,
)
    requires
        served(first, plan, disk, zstd_level, gzip_level),
        served(second, plan, disk, zstd_level, gzip_level),
    ensures
        first matches Ok(Some(a)) ==> second matches Ok(Some(b)) && a@ == b@,
        first matches Ok(None) ==> second matches Ok(None),
        first matches Err(e) ==> second matches Err(f) && e@ == f@,
{
}

/// A file that is there is served in the first encoding that the client
/// takes: where nothing exempts the request and no sibling is stored, the
/// response of a client that takes zstd is zstd and holds the encoder's
/// bytes for the file; else that of a client that takes gzip is gzip; and
/// the response comes, but for gzip at a level above 9.
pub proof fn law_file_is_encoded_as_accepted(
    r: Result<Option<FileResponse>, ServeError>,
    plan: ServePlan,
    bytes: Seq<u8>,
    disk: DiskView,
    zstd_level: i32,
    gzip_level: u32,
)
    requires
        served(r, Ok(Some(plan)), disk, zstd_level, gzip_level),
        content_at(disk, rendered(plan.file)) == Ok::<Seq<u8>, Halt>(bytes),
        !plan.stored,
    ensures
        plan.encoding == CompressionType::Zstd ==> (r matches Ok(Some(resp)) && resp.compression
            == CompressionType::Zstd && resp.content@ == zstd_encoded(bytes, zstd_level as int)),
        plan.encoding == CompressionType::Gzip && gzip_level <= 9 ==> (r matches Ok(Some(resp))
            && resp.compression == CompressionType::Gzip && resp.content@ == gzip_encoded(
            bytes,
            gzip_level as int,
        )),
        plan.encoding == CompressionType::Identity ==> (r matches Ok(Some(resp))
            && resp.compression == CompressionType::Identity && resp.content@ == bytes),
{
}

/// What is not a regular file is not served: every plan reads a file that
/// the record shows as one.
pub proof fn law_only_regular_files_are_planned(
    disk: DiskView,
    base_dir: Seq<char>,
    raw: Seq<char>,
    accepted: AcceptedCompression,
    bypass: bool,
    spa: Option<&SpaConfig>,
)
    ensures
        planned(disk, base_dir, raw, accepted, bypass, spa) matches Ok(Some(plan)) ==> (
        !plan.stored ==> disk.knows(rendered(plan.file)) && disk.facts_of(
            rendered(plan.file),
        ).kind == NodeKind::File),
{
}

} // verus!
