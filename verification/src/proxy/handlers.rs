//! One exchange through the proxy: the request goes to the backend as it
//! came; the response is passed through, or read whole and sent on
//! compressed.

use crate::args::{any_pattern_matches, should_bypass_compression, BypassPattern};
use crate::compression::{zstd_encode, zstd_encoded};
use crate::error::Failure;
use crate::numbers::{format_number, number_text};
use crate::proxy::chunked::{chunked_body, lemma_chunked_body_bounds, Framed};
use crate::proxy::headers::{
    any_header_holds, find_header, header_lines, parse_response_headers, response_fields,
    some_value_holds, status_line_of, value_of, write_headers, Fields,
};
use crate::proxy::transfer::{
    concat_lines, declared_length, decode_chunked_body, forward_chunked_body, forward_request,
    parse_length, read_request_head, request_fields, request_head, tunnel_connection, uri_of,
    zstd_granted, ByteSource,
};
use crate::text::{lossy_decoded, lossy_text, lowercase, lowercased, same_text};
use vstd::prelude::*;
use vstd::slice::slice_subrange;
use vstd::string::*;
use vstd::utf8::encode_utf8;

verus! {

/// Do the bytes end with an empty line after a line: CR LF CR LF?
pub open spec fn ends_head(s: Seq<u8>) -> bool {
    s.len() >= 4 && s[s.len() - 4] == 13 && s[s.len() - 3] == 10 && s[s.len() - 2] == 13 && s[s.len()
        - 1] == 10
}

/// Where the response head that starts at `start` ends: just after the
/// first CR LF CR LF, or at the end of the bytes where there is none. `i`
/// is how far the search has come.
pub open spec fn head_end(s: Seq<u8>, start: int, i: int) -> int
    decreases s.len() - i,
{
    if i < start || i >= s.len() {
        s.len() as int
    } else if ends_head(s.subrange(start, i + 1)) {
        i + 1
    } else {
        head_end(s, start, i + 1)
    }
}

/// Is the head that was read so far complete: does it end with an empty
/// line?
pub fn head_complete(bytes: &[u8]) -> (r: bool)
    ensures
        r == ends_head(bytes@),
{
    let n = bytes.len();
    n >= 4 && bytes[n - 4] == 13 && bytes[n - 3] == 10 && bytes[n - 2] == 13 && bytes[n - 1] == 10
}

/// Reads a response head: bytes up to and including the first empty line,
/// or all there is.
pub fn read_response_head(reader: &mut ByteSource) -> (r: Vec<u8>)
    requires
        old(reader).wf(),
    ensures
        final(reader).bytes == old(reader).bytes,
        final(reader).wf(),
        final(reader).pos == head_end(
            old(reader).bytes@,
            old(reader).pos as int,
            old(reader).pos as int,
        ),
        old(reader).pos <= final(reader).pos,
        r@ == old(reader).bytes@.subrange(old(reader).pos as int, final(reader).pos as int),
{
    let ghost s = reader.bytes@;
    let ghost source = *reader;
    let start = reader.pos;
    let len = reader.bytes.len();
    let mut out: Vec<u8> = Vec::new();
    let mut i: usize = start;
    assert(s.subrange(start as int, start as int) == Seq::<u8>::empty());
    while i < len
        invariant
            source == *old(reader),
            *reader == source,
            start == source.pos,
            start <= i <= len,
            len == s.len(),
            s == reader.bytes@,
            out@ == s.subrange(start as int, i as int),
            head_end(s, start as int, start as int) == head_end(s, start as int, i as int),
        decreases len - i,
    {
        out.push(reader.bytes[i]);
        assert(out@ == s.subrange(start as int, i + 1));
        let done = head_complete(out.as_slice());
        i += 1;
        if done {
            reader.pos = i;
            return out;
        }
    }
    reader.pos = len;
    out
}

/// What the headers of a response say of its body.
#[derive(Debug, PartialEq, Eq, Copy, Clone, Structural)]
pub struct ResponseShape {
    /// A `Content-Encoding` header is present.
    pub already_compressed: bool,
    /// `Transfer-Encoding` names `chunked`.
    pub chunked: bool,
    /// The value of `Content-Length`, where it is a number.
    pub content_length: Option<usize>,
}

/// How the end of a body is found.
#[derive(Debug, PartialEq, Eq, Copy, Clone, Structural)]
pub enum Framing {
    Chunked,
    Fixed(usize),
    UntilEof,
}

/// The shape that a header list describes.
pub open spec fn shape_of(fields: Fields) -> ResponseShape {
    ResponseShape {
        already_compressed: value_of(fields, "content-encoding"@) is Some,
        chunked: some_value_holds(fields, "transfer-encoding"@, "chunked"@),
        content_length: match declared_length(fields, usize::MAX as nat) {
            Some(n) => Some(n as usize),
            None => None,
        },
    }
}

/// Chunked framing goes before a declared length; without either the body
/// runs to the end of the stream.
pub open spec fn framing_of(shape: ResponseShape) -> Framing {
    if shape.chunked {
        Framing::Chunked
    } else {
        match shape.content_length {
            Some(n) => Framing::Fixed(n),
            None => Framing::UntilEof,
        }
    }
}

/// Reads the shape of a response off its headers.
pub fn classify(headers: &[(String, String)]) -> (r: ResponseShape)
    ensures
        r == shape_of(headers.deep_view()),
{
    let already_compressed = find_header(headers, "content-encoding").is_some();
    let chunked = any_header_holds(headers, "transfer-encoding", "chunked");
    let content_length = match find_header(headers, "content-length") {
        Some(i) => match parse_length(headers[i].1.as_str(), usize::MAX as u64) {
            Some(n) => Some(n as usize),
            None => None,
        },
        None => None,
    };
    ResponseShape { already_compressed, chunked, content_length }
}

/// Picks the framing for a shape.
pub fn framing_for(shape: ResponseShape) -> (r: Framing)
    ensures
        r == framing_of(shape),
{
    if shape.chunked {
        Framing::Chunked
    } else {
        match shape.content_length {
            Some(n) => Framing::Fixed(n),
            None => Framing::UntilEof,
        }
    }
}

/// Is a response passed through as it is: is it already encoded, or did
/// its request match a bypass pattern?
pub open spec fn passes_through(shape: ResponseShape, bypass: bool) -> bool {
    shape.already_compressed || bypass
}

/// Decides between passing a response through and reading it whole to
/// send it on compressed.
pub fn should_pass_through(shape: ResponseShape, bypass: bool) -> (r: bool)
    ensures
        r == passes_through(shape, bypass),
{
    shape.already_compressed || bypass
}

/// `pos + n`, but no more than `len`.
pub open spec fn capped(pos: int, n: int, len: int) -> int {
    if pos + n <= len {
        pos + n
    } else {
        len
    }
}

/// A body as it is relayed: the bytes that are passed on, and the size
/// that is reported for it. `keep_framing` tells whether chunk framing is
/// passed on or taken off.
pub open spec fn body_of(s: Seq<u8>, pos: int, framing: Framing, keep_framing: bool) -> Result<
    (Seq<u8>, int, int),
    Failure,
> {
    match framing {
        Framing::Chunked => match chunked_body(s, pos) {
            Framed::Complete { end, payload } => Ok(
                (
                    if keep_framing {
                        s.subrange(pos, end)
                    } else {
                        payload
                    },
                    end - pos,
                    end,
                ),
            ),
            Framed::Truncated => Err(Failure::UnexpectedEof),
            Framed::Malformed => Err(Failure::InvalidData),
        },
        Framing::Fixed(n) => Ok(
            (s.subrange(pos, capped(pos, n as int, s.len() as int)), n as int, capped(
                pos,
                n as int,
                s.len() as int,
            )),
        ),
        Framing::UntilEof => Ok((s.skip(pos), s.len() - pos, s.len() as int)),
    }
}

/// Moves at most `n` bytes from `reader` to `out`.
pub fn copy_bytes(reader: &mut ByteSource, out: &mut Vec<u8>, n: usize)
    requires
        old(reader).wf(),
    ensures
        final(reader).bytes == old(reader).bytes,
        final(reader).wf(),
        final(reader).pos == capped(
            old(reader).pos as int,
            n as int,
            old(reader).bytes@.len() as int,
        ),
        final(out)@ == old(out)@ + old(reader).bytes@.subrange(
            old(reader).pos as int,
            final(reader).pos as int,
        ),
{
    let available = reader.bytes.len() - reader.pos;
    let take = if n <= available {
        n
    } else {
        available
    };
    let data = slice_subrange(reader.bytes, reader.pos, reader.pos + take);
    out.extend_from_slice(data);
    reader.pos = reader.pos + take;
}

/// Moves one body from `reader` to `out` and reports its size.
pub fn relay_body(reader: &mut ByteSource, out: &mut Vec<u8>, framing: Framing, keep_framing: bool)
    -> (r: Result<usize, Failure>)
    requires
        old(reader).wf(),
    ensures
        final(reader).bytes == old(reader).bytes,
        final(reader).wf(),
        match (r, body_of(old(reader).bytes@, old(reader).pos as int, framing, keep_framing)) {
            (Ok(size), Ok((bytes, reported, end))) => size == reported && final(out)@ == old(out)@
                + bytes && final(reader).pos == end,
            (Err(e), Err(f)) => e == f,
            _ => false,
        },
{
    match framing {
        Framing::Chunked => {
            let counts = if keep_framing {
                forward_chunked_body(reader, out)
            } else {
                decode_chunked_body(reader, out)
            };
            match counts {
                Ok((read, _)) => Ok(read),
                Err(e) => Err(e),
            }
        },
        Framing::Fixed(n) => {
            copy_bytes(reader, out, n);
            Ok(n)
        },
        Framing::UntilEof => {
            let rest = reader.bytes.len() - reader.pos;
            let ghost s = reader.bytes@;
            let ghost pos = reader.pos as int;
            copy_bytes(reader, out, rest);
            assert(s.skip(pos) == s.subrange(pos, s.len() as int));
            Ok(rest)
        },
    }
}

/// `fields` without those named `lowered`, letter case of names not
/// counting.
pub open spec fn without_named(fields: Fields, lowered: Seq<char>) -> Fields
    decreases fields.len(),
{
    if fields.len() == 0 {
        Seq::empty()
    } else {
        let rest = without_named(fields.drop_last(), lowered);
        if lowercased(fields.last().0) == lowered {
            rest
        } else {
            rest.push(fields.last())
        }
    }
}

/// Copies the headers that are not named `lowered`.
pub fn drop_named(headers: &[(String, String)], lowered: &str) -> (r: Vec<(String, String)>)
    ensures
        r.deep_view() == without_named(headers.deep_view(), lowered@),
{
    let ghost fields = headers.deep_view();
    let mut out: Vec<(String, String)> = Vec::new();
    let mut i: usize = 0;
    assert(out.deep_view() == Seq::<(Seq<char>, Seq<char>)>::empty());
    assert(fields.take(0) == Seq::<(Seq<char>, Seq<char>)>::empty());
    while i < headers.len()
        invariant
            i <= headers.len(),
            fields == headers.deep_view(),
            out.deep_view() == without_named(fields.take(i as int), lowered@),
        decreases headers.len() - i,
    {
        let ghost before = out.deep_view();
        proof {
            let upto = fields.take(i + 1);
            assert(upto.drop_last() == fields.take(i as int));
            assert(upto.last() == fields[i as int]);
            assert(fields[i as int].0 == headers@[i as int].0@);
            assert(fields[i as int].1 == headers@[i as int].1@);
        }
        let name = lowercase(headers[i].0.as_str());
        if !same_text(name.as_str(), lowered) {
            out.push((headers[i].0.clone(), headers[i].1.clone()));
            proof {
                assert(out.deep_view() == before.push(fields[i as int]));
            }
        }
        i += 1;
    }
    proof {
        assert(fields.take(headers.len() as int) == fields);
    }
    out
}

/// The largest chunk that is written when a body is sent on chunked.
pub const CHUNK_LEN: usize = 8192;

/// `data` as a chunked body: chunks of at most `CHUNK_LEN` bytes, each
/// after its length in upper-case hexadecimal, then the chunk of size zero.
pub open spec fn chunk_frames(data: Seq<u8>) -> Seq<u8>
    decreases data.len(),
{
    if data.len() == 0 {
        encode_utf8("0\r\n\r\n"@)
    } else {
        let n = if data.len() <= CHUNK_LEN {
            data.len() as int
        } else {
            CHUNK_LEN as int
        };
        encode_utf8(number_text(n as nat, 16) + "\r\n"@) + data.take(n) + encode_utf8("\r\n"@)
            + chunk_frames(data.skip(n))
    }
}

/// Appends `data` to `out` as a chunked body.
pub fn write_chunked(out: &mut Vec<u8>, data: &[u8])
    ensures
        final(out)@ == old(out)@ + chunk_frames(data@),
{
    let ghost start = out@;
    let len = data.len();
    let mut pos: usize = 0;
    // What is written so far, and what is still to come, make up the whole.
    let ghost mut done: Seq<u8> = Seq::empty();
    proof {
        assert(data@.skip(0) == data@);
        assert(start + Seq::<u8>::empty() == start);
        assert(done + chunk_frames(data@) == chunk_frames(data@));
    }
    while pos < len
        invariant
            pos <= len,
            len == data.len(),
            out@ == start + done,
            chunk_frames(data@) == done + chunk_frames(data@.skip(pos as int)),
        decreases len - pos,
    {
        let rest = len - pos;
        let n = if rest <= CHUNK_LEN {
            rest
        } else {
            CHUNK_LEN
        };
        let mut line = format_number(n as u64, 16);
        line.append("\r\n");
        let chunk = slice_subrange(data, pos, pos + n);
        let ghost tail = data@.skip(pos as int);
        let ghost piece = encode_utf8(number_text(n as nat, 16) + "\r\n"@) + tail.take(n as int)
            + encode_utf8("\r\n"@);
        out.extend_from_slice(line.as_str().as_bytes());
        out.extend_from_slice(chunk);
        out.extend_from_slice("\r\n".as_bytes());
        proof {
            assert(tail.take(n as int) == chunk@);
            assert(tail.skip(n as int) == data@.skip(pos + n));
            assert(start + done + encode_utf8(line@) + chunk@ + encode_utf8("\r\n"@) == start + (
            done + piece));
            assert(done + (piece + chunk_frames(tail.skip(n as int))) == done + piece
                + chunk_frames(tail.skip(n as int)));
            assert(chunk_frames(tail) == piece + chunk_frames(tail.skip(n as int)));
            done = done + piece;
        }
        pos = pos + n;
    }
    out.extend_from_slice("0\r\n\r\n".as_bytes());
    proof {
        assert(data@.skip(len as int).len() == 0);
        assert(start + done + encode_utf8("0\r\n\r\n"@) == start + (done + encode_utf8(
            "0\r\n\r\n"@,
        )));
    }
}

/// The head of a response that is sent on compressed: the status line,
/// the headers without `Content-Length`, and the two headers that announce
/// zstd and chunked framing.
pub open spec fn compressed_head(status: Seq<char>, fields: Fields) -> Seq<char> {
    status + "\r\n"@ + header_lines(
        without_named(fields, "content-length"@).push(("Content-Encoding"@, "zstd"@)).push(
            ("Transfer-Encoding"@, "chunked"@),
        ),
    ) + "\r\n"@
}

/// The head of a response that is sent on as it was read: the status line,
/// the length of the body, and the headers without their own
/// `Content-Length`.
pub open spec fn plain_head(status: Seq<char>, fields: Fields, length: nat) -> Seq<char> {
    status + "\r\n"@ + "Content-Length: "@ + number_text(length, 10) + "\r\n"@ + header_lines(
        without_named(fields, "content-length"@),
    ) + "\r\n"@
}

/// What the proxy sends to the client for a backend response, and the
/// sizes it reports.
pub struct Answer {
    pub bytes: Seq<u8>,
    pub original_size: int,
    pub final_size: int,
    /// Whether the body went through the encoder.
    pub encoded: bool,
}

/// The answer to the backend response that starts at `pos`.
///
/// A response that is already encoded, or whose request matched a bypass
/// pattern, is passed through: its head and body reach the client byte for
/// byte. Any other is read whole, chunk framing taken off; it goes out as
/// zstd in chunks where the client takes zstd, else as it is under its
/// length.
pub open spec fn answered(
    backend: Seq<u8>,
    pos: int,
    supports_zstd: bool,
    bypass: bool,
    zstd_level: i32,
) -> Result<Answer, Failure> {
    let end = head_end(backend, pos, pos);
    let head = backend.subrange(pos, end);
    let text = lossy_decoded(head);
    let status = status_line_of(text);
    let fields = response_fields(text);
    let shape = shape_of(fields);
    let framing = framing_of(shape);
    if passes_through(shape, bypass) {
        match body_of(backend, end, framing, true) {
            Err(e) => Err(e),
            Ok((bytes, size, _)) => Ok(
                Answer { bytes: head + bytes, original_size: size, final_size: size, encoded: false },
            ),
        }
    } else {
        match body_of(backend, end, framing, false) {
            Err(e) => Err(e),
            Ok((body, size, _)) => if supports_zstd {
                let packed = zstd_encoded(body, zstd_level as int);
                Ok(
                    Answer {
                        bytes: encode_utf8(compressed_head(status, fields)) + chunk_frames(packed),
                        original_size: size,
                        final_size: packed.len() as int,
                        encoded: true,
                    },
                )
            } else {
                Ok(
                    Answer {
                        bytes: encode_utf8(plain_head(status, fields, body.len())) + body,
                        original_size: size,
                        final_size: body.len() as int,
                        encoded: false,
                    },
                )
            },
        }
    }
}

/// The bytes for the client, the size of the body as it came and the size
/// as it went.
pub struct Relayed {
    pub bytes: Vec<u8>,
    pub original_size: usize,
    pub final_size: usize,
}

/// Is `r` what answering gives, where `model` is the answer? `r` is the
/// answer, or the failure that the model names.
pub open spec fn relayed_as(r: Result<Relayed, Failure>, model: Result<Answer, Failure>) -> bool {
    match model {
        Err(f) => r == Err::<Relayed, Failure>(f),
        Ok(answer) => r matches Ok(out) && out.bytes@ =~= answer.bytes && out.original_size
            == answer.original_size && out.final_size == answer.final_size,
    }
}

/// The response that sends `packed`, the zstd form of a body, on in chunks.
pub fn pack_response(status: &str, headers: &[(String, String)], packed: &[u8]) -> (r: Vec<u8>)
    ensures
        r@ == encode_utf8(compressed_head(status@, headers.deep_view())) + chunk_frames(packed@),
{
    let mut kept = drop_named(headers, "content-length");
    let ghost base = kept.deep_view();
    kept.push(("Content-Encoding".to_owned(), "zstd".to_owned()));
    kept.push(("Transfer-Encoding".to_owned(), "chunked".to_owned()));
    assert(kept.deep_view() =~= base.push(("Content-Encoding"@, "zstd"@)).push(
        ("Transfer-Encoding"@, "chunked"@),
    ));
    let mut out = status.to_owned();
    out.append("\r\n");
    write_headers(&mut out, kept.as_slice());
    out.append("\r\n");
    assert(out@ =~= compressed_head(status@, headers.deep_view()));
    let mut bytes = out.as_str().as_bytes_vec();
    write_chunked(&mut bytes, packed);
    bytes
}

/// The response that sends `body` on as it is, under its length.
pub fn plain_response(status: &str, headers: &[(String, String)], body: &[u8]) -> (r: Vec<u8>)
    ensures
        r@ == encode_utf8(plain_head(status@, headers.deep_view(), body@.len())) + body@,
{
    let kept = drop_named(headers, "content-length");
    let mut out = status.to_owned();
    out.append("\r\n");
    out.append("Content-Length: ");
    let length = format_number(body.len() as u64, 10);
    out.append(length.as_str());
    out.append("\r\n");
    write_headers(&mut out, kept.as_slice());
    out.append("\r\n");
    assert(out@ =~= plain_head(status@, headers.deep_view(), body@.len()));
    let mut bytes = out.as_str().as_bytes_vec();
    bytes.extend_from_slice(body);
    bytes
}

/// What goes to the client for a response whose body was read whole.
pub open spec fn resent(
    status: Seq<char>,
    fields: Fields,
    body: Seq<u8>,
    supports_zstd: bool,
    zstd_level: i32,
) -> (Seq<u8>, int) {
    if supports_zstd {
        let packed = zstd_encoded(body, zstd_level as int);
        (encode_utf8(compressed_head(status, fields)) + chunk_frames(packed), packed.len() as int)
    } else {
        (encode_utf8(plain_head(status, fields, body.len())) + body, body.len() as int)
    }
}

/// Sends a body that was read whole on to the client: as zstd in chunks
/// where the client takes zstd, else as it is. Gives the bytes and the size
/// of the body as it goes out.
pub fn resend_body(
    status: &str,
    headers: &[(String, String)],
    body: &[u8],
    supports_zstd: bool,
    zstd_level: i32,
) -> (r: Option<(Vec<u8>, usize)>)
    ensures
        r matches Some((bytes, size)) && bytes@ =~= resent(
            status@,
            headers.deep_view(),
            body@,
            supports_zstd,
            zstd_level,
        ).0 && size == resent(status@, headers.deep_view(), body@, supports_zstd, zstd_level).1,
{
    if supports_zstd {
        match zstd_encode(body, zstd_level) {
            Some(packed) => Some((pack_response(status, headers, packed.as_slice()), packed.len())),
            None => None,
        }
    } else {
        Some((plain_response(status, headers, body), body.len()))
    }
}

/// Reads one response from the backend and works out what goes to the
/// client.
pub fn relay_response(
    backend: &mut ByteSource,
    supports_zstd: bool,
    bypass: bool,
    zstd_level: i32,
) -> (r: Result<Relayed, Failure>)
    requires
        old(backend).wf(),
    ensures
        final(backend).bytes == old(backend).bytes,
        final(backend).wf(),
        relayed_as(
            r,
            answered(old(backend).bytes@, old(backend).pos as int, supports_zstd, bypass, zstd_level),
        ),
{
    let head = read_response_head(backend);
    let text = lossy_text(head.as_slice());
    let (status, headers) = parse_response_headers(text.as_str());
    let shape = classify(headers.as_slice());
    let framing = framing_for(shape);
    if should_pass_through(shape, bypass) {
        let mut bytes = head;
        match relay_body(backend, &mut bytes, framing, true) {
            Err(e) => Err(e),
            Ok(size) => Ok(Relayed { bytes, original_size: size, final_size: size }),
        }
    } else {
        let mut body: Vec<u8> = Vec::new();
        let size = match relay_body(backend, &mut body, framing, false) {
            Err(e) => {
                return Err(e);
            },
            Ok(size) => size,
        };
        assert(body@ == Seq::<u8>::empty() + body@);
        match resend_body(
            status.as_str(),
            headers.as_slice(),
            body.as_slice(),
            supports_zstd,
            zstd_level,
        ) {
            Some((bytes, final_size)) => Ok(Relayed { bytes, original_size: size, final_size }),
            None => Err(Failure::Other),
        }
    }
}

/// One exchange as plain values.
pub struct ExchangeModel {
    /// What the backend receives.
    pub to_backend: Seq<u8>,
    /// What the client receives.
    pub to_client: Seq<u8>,
    /// Whether the connection became a raw tunnel.
    pub tunnelled: bool,
    /// The answer to the response, where there was one.
    pub answer: Option<Answer>,
}

/// Does the request ask for a WebSocket upgrade?
pub open spec fn wants_websocket(fields: Fields) -> bool {
    some_value_holds(fields, "upgrade"@, "websocket"@)
}

/// Decides whether a request turns its connection into a tunnel: it does
/// when an `Upgrade` header names `websocket`.
pub fn is_websocket_upgrade(headers: &[(String, String)]) -> (r: bool)
    ensures
        r == wants_websocket(headers.deep_view()),
{
    any_header_holds(headers, "upgrade", "websocket")
}

/// The whole exchange, given all that client and backend send.
///
/// The request head reaches the backend as it came, followed by as much
/// body as the request declares. A WebSocket upgrade turns the connection
/// into a tunnel: everything either side sends reaches the other, and no
/// sizes are counted. Else the backend's response is answered as
/// `answered` says, with what the request head told of the client.
pub open spec fn exchange(
    client: Seq<u8>,
    client_pos: int,
    backend: Seq<u8>,
    backend_pos: int,
    patterns: Seq<BypassPattern>,
    zstd_level: i32,
) -> Result<ExchangeModel, Failure> {
    match request_head(client, client_pos) {
        Err(e) => Err(e),
        Ok((first, lines, end)) => {
            let fields = request_fields(lines);
            let head = encode_utf8(first + concat_lines(lines) + "\r\n"@);
            if wants_websocket(fields) {
                Ok(
                    ExchangeModel {
                        to_backend: head + client.skip(end),
                        to_client: backend.skip(backend_pos),
                        tunnelled: true,
                        answer: None,
                    },
                )
            } else {
                let body = match declared_length(fields, u64::MAX as nat) {
                    Some(n) => client.subrange(end, capped(end, n as int, client.len() as int)),
                    None => Seq::empty(),
                };
                match answered(
                    backend,
                    backend_pos,
                    zstd_granted(fields),
                    any_pattern_matches(patterns, uri_of(first)),
                    zstd_level,
                ) {
                    Err(e) => Err(e),
                    Ok(answer) => Ok(
                        ExchangeModel {
                            to_backend: head + body,
                            to_client: answer.bytes,
                            tunnelled: false,
                            answer: Some(answer),
                        },
                    ),
                }
            }
        },
    }
}

/// What one exchange through the proxy produced.
pub struct ProxyOutcome {
    /// The bytes for the backend.
    pub to_backend: Vec<u8>,
    /// The bytes for the client.
    pub to_client: Vec<u8>,
    /// Whether the connection became a raw tunnel.
    pub tunnelled: bool,
    /// Size of the response body as the backend sent it; zero for a tunnel.
    pub original_size: usize,
    /// Size of the response body as the client received it; zero for a
    /// tunnel.
    pub final_size: usize,
}

/// Is `r` what the exchange `model` produces? `r` is the outcome that the
/// model describes, or the failure that it names.
pub open spec fn exchanged_as(r: Result<ProxyOutcome, Failure>, model: Result<ExchangeModel, Failure>)
    -> bool {
    match model {
        Err(f) => r == Err::<ProxyOutcome, Failure>(f),
        Ok(m) => match r {
            Ok(out) => {
                &&& out.to_backend@ =~= m.to_backend
                &&& out.to_client@ =~= m.to_client
                &&& out.tunnelled == m.tunnelled
                &&& match m.answer {
                    Some(answer) => out.original_size == answer.original_size && out.final_size
                        == answer.final_size,
                    None => out.original_size == 0 && out.final_size == 0,
                }
            },
            Err(_) => false,
        },
    }
}

/// Carries out one exchange between a client and a backend whose bytes are
/// at hand, and gives what each side receives.
pub fn handle_proxy_connection(
    client: &mut ByteSource,
    backend: &mut ByteSource,
    zstd_level: i32,
    bypass_patterns: &[BypassPattern],
) -> (r: Result<ProxyOutcome, Failure>)
    requires
        old(client).wf(),
        old(backend).wf(),
    ensures
        final(client).wf(),
        final(backend).wf(),
        exchanged_as(
            r,
            exchange(
                old(client).bytes@,
                old(client).pos as int,
                old(backend).bytes@,
                old(backend).pos as int,
                bypass_patterns@,
                zstd_level,
            ),
        ),
{
    let (first, lines) = match read_request_head(client) {
        Err(e) => {
            return Err(e);
        },
        Ok(head) => head,
    };
    let request = forward_request(first.as_str(), lines.as_slice());
    let mut to_backend = request.head;
    if is_websocket_upgrade(request.headers.as_slice()) {
        let ghost head = to_backend@;
        let ghost s = client.bytes@;
        let ghost at = client.pos as int;
        let tunnel = tunnel_connection(client, backend);
        to_backend.extend_from_slice(tunnel.to_server.as_slice());
        return Ok(
            ProxyOutcome {
                to_backend,
                to_client: tunnel.to_client,
                tunnelled: true,
                original_size: 0,
                final_size: 0,
            },
        );
    }
    match request.body_length {
        Some(n) => {
            let available = client.bytes.len() - client.pos;
            let take = if n >= available as u64 {
                available
            } else {
                n as usize
            };
            copy_bytes(client, &mut to_backend, take);
        },
        None => {
            assert(to_backend@ + Seq::<u8>::empty() == to_backend@);
        },
    }
    let bypass = should_bypass_compression(request.uri.as_str(), bypass_patterns);
    match relay_response(backend, request.supports_zstd, bypass, zstd_level) {
        Err(e) => Err(e),
        Ok(relayed) => Ok(
            ProxyOutcome {
                to_backend,
                to_client: relayed.bytes,
                tunnelled: false,
                original_size: relayed.original_size,
                final_size: relayed.final_size,
            },
        ),
    }
}

/// The search for the end of a head stays within the bytes.
pub proof fn lemma_head_end_bounds(s: Seq<u8>, start: int, i: int)
    requires
        0 <= start <= i <= s.len(),
    ensures
        i <= head_end(s, start, i) <= s.len(),
    decreases s.len() - i,
{
    if i < s.len() && !ends_head(s.subrange(start, i + 1)) {
        lemma_head_end_bounds(s, start, i + 1);
    }
}

/// Is the response that starts at `pos` one that is passed through: does
/// its head carry a `Content-Encoding`?
pub open spec fn is_encoded(backend: Seq<u8>, pos: int) -> bool {
    let end = head_end(backend, pos, pos);
    shape_of(response_fields(lossy_decoded(backend.subrange(pos, end)))).already_compressed
}

/// A response that is already encoded, or whose request matched a bypass
/// pattern, reaches the client as the backend sent it, whatever the client
/// accepts: what the client receives is one unbroken run of the backend's
/// bytes, head first; nothing goes through the encoder; and the two sizes
/// are the same.
pub proof fn law_pass_through_is_unchanged(
    backend: Seq<u8>,
    pos: int,
    supports_zstd: bool,
    bypass: bool,
    zstd_level: i32,
)
    requires
        0 <= pos <= backend.len(),
        is_encoded(backend, pos) || bypass,
    ensures
        answered(backend, pos, supports_zstd, bypass, zstd_level) matches Ok(answer) ==> {
            &&& !answer.encoded
            &&& answer.original_size == answer.final_size
            &&& exists|end: int|
                pos <= end <= backend.len() && answer.bytes == #[trigger] backend.subrange(pos, end)
        },
{
    let end = head_end(backend, pos, pos);
    lemma_head_end_bounds(backend, pos, pos);
    let head = backend.subrange(pos, end);
    let framing = framing_of(shape_of(response_fields(lossy_decoded(head))));
    if let Ok(answer) = answered(backend, pos, supports_zstd, bypass, zstd_level) {
        let (bytes, size, stop) = body_of(backend, end, framing, true)->Ok_0;
        lemma_chunked_body_bounds(backend, end);
        assert(end <= stop <= backend.len());
        assert(bytes == backend.subrange(end, stop)) by {
            assert(backend.skip(end) == backend.subrange(end, backend.len() as int));
        }
        assert(head + bytes == backend.subrange(pos, stop));
    }
}

/// What the client receives never depends on the level of an encoder that
/// was not run: a passed-through response is the same at every level.
pub proof fn law_pass_through_ignores_client(
    backend: Seq<u8>,
    pos: int,
    bypass: bool,
    first_level: i32,
    second_level: i32,
)
    requires
        is_encoded(backend, pos) || bypass,
    ensures
        answered(backend, pos, true, bypass, first_level) == answered(
            backend,
            pos,
            false,
            bypass,
            second_level,
        ),
{
}

} // verus!
