//! Which encodings a client accepts, and the encoders themselves.

use crate::text::{
    any_piece_is, chars_of, lowercase, lowercased, pieces, some_trimmed_is, trimmed,
};
use vstd::prelude::*;

verus! {

/// The encoding that was applied to a response body.
#[derive(Debug, PartialEq, Eq, Copy, Clone, Structural)]
pub enum CompressionType {
    Zstd,
    Gzip,
    /// The body is sent as it is.
    Identity,
}

/// The encodings a client has declared it can decode.
#[derive(Debug, PartialEq, Eq, Copy, Clone, Structural)]
pub struct AcceptedCompression {
    pub supports_zstd: bool,
    pub supports_gzip: bool,
}

impl CompressionType {
    /// The token that names this encoding in a `Content-Encoding` header.
    pub open spec fn token(self) -> Seq<char> {
        match self {
            CompressionType::Zstd => "zstd"@,
            CompressionType::Gzip => "gzip"@,
            CompressionType::Identity => "none"@,
        }
    }

    /// The encoding's name: `zstd`, `gzip` or `none`.
    pub fn to_string(&self) -> (r: String)
        ensures
            r@ == self.token(),
    {
        match self {
            CompressionType::Zstd => "zstd".to_owned(),
            CompressionType::Gzip => "gzip".to_owned(),
            CompressionType::Identity => "none".to_owned(),
        }
    }
}

/// `true` and `false` as text.
pub open spec fn flag_text(b: bool) -> Seq<char> {
    if b {
        "true"@
    } else {
        "false"@
    }
}

impl AcceptedCompression {
    /// The text `zstd: <flag>, gzip: <flag>`.
    pub open spec fn description(self) -> Seq<char> {
        "zstd: "@ + flag_text(self.supports_zstd) + ", gzip: "@ + flag_text(self.supports_gzip)
    }

    /// A one-line description for diagnostics.
    pub fn to_string(&self) -> (r: String)
        ensures
            r@ == self.description(),
    {
        let mut out = "zstd: ".to_owned();
        out.append(if self.supports_zstd { "true" } else { "false" });
        out.append(", gzip: ");
        out.append(if self.supports_gzip { "true" } else { "false" });
        out
    }
}

/// Is `token` one of the comma-separated items of `list`, white space around
/// an item not counting?
pub open spec fn has_token(list: Seq<char>, token: Seq<char>) -> bool {
    some_trimmed_is(pieces(list, ','), token)
}

/// What a lower-cased `Accept-Encoding` value grants: an encoding is
/// accepted exactly when its bare token is an item of the list. Quality
/// values and wildcards are not interpreted.
pub open spec fn accepted(lowered: Seq<char>) -> AcceptedCompression {
    AcceptedCompression {
        supports_zstd: has_token(lowered, "zstd"@),
        supports_gzip: has_token(lowered, "gzip"@),
    }
}

/// Reads the capabilities out of an `Accept-Encoding` value that is already
/// in lower case.
pub fn accepted_in(lowered: &str) -> (r: AcceptedCompression)
    ensures
        r == accepted(lowered@),
{
    let list = chars_of(lowered);
    let zstd = chars_of("zstd");
    let gzip = chars_of("gzip");
    AcceptedCompression {
        supports_zstd: any_piece_is(&list, ',', &zstd),
        supports_gzip: any_piece_is(&list, ',', &gzip),
    }
}

/// Reads the capabilities out of a raw `Accept-Encoding` value, without
/// regard to letter case. An absent header is the empty value and grants
/// nothing.
pub fn determine_compression(accept_encoding: &str) -> (r: AcceptedCompression)
    ensures
        r == accepted(lowercased(accept_encoding@)),
        accept_encoding@.len() == 0 ==> !r.supports_zstd && !r.supports_gzip,
{
    let lowered = lowercase(accept_encoding);
    proof {
        if accept_encoding@.len() == 0 {
            assert(lowered@ =~= Seq::<char>::empty());
            lemma_empty_list_grants_nothing();
        }
    }
    accepted_in(lowered.as_str())
}

/// The zstd frame that `zstd`'s streaming encoder produces for `data` at
/// `level`.
pub uninterp spec fn zstd_encoded(data: Seq<u8>, level: int) -> Seq<u8>;

/// The gzip member that `flate2`'s `GzEncoder` produces for `data` at
/// `level`.
pub uninterp spec fn gzip_encoded(data: Seq<u8>, level: int) -> Seq<u8>;

/// Runs `data` through `zstd::stream::write::Encoder` (`new`, `write_all`,
/// `finish`) into a fresh buffer. Trusted: the call succeeds, and the bytes
/// are the ones named `zstd_encoded` for `data` and `level`.
///
/// Success rests on this: the sink is a `Vec`, which takes every write; the
/// encoder clamps the level and is given no dictionary; what it can then
/// still report is that memory ran out, and memory is taken to suffice
/// here as wherever this library allocates.
#[verifier::external_body]
pub(crate) fn zstd_encode(data: &[u8], level: i32) -> (r: Option<Vec<u8>>)
    ensures
        r is Some,
        r matches Some(out) ==> out@ == zstd_encoded(data@, level as int),
{
    let mut encoder = zstd::stream::write::Encoder::new(Vec::new(), level).ok()?;
    std::io::Write::write_all(&mut encoder, data).ok()?;
    encoder.finish().ok()
}

/// Runs `data` through `flate2::write::GzEncoder` (`new`, `write_all`,
/// `finish`) into a fresh buffer. Trusted: the call succeeds, and the bytes
/// are the ones named `gzip_encoded` for `data` and `level`.
/// Levels above 9 are left out: the encoder does not define them.
///
/// Success rests on this: the sink is a `Vec`, which takes every write,
/// and the encoder reports an error only for a sink that refuses bytes or
/// for a state that its own writer never brings about.
#[verifier::external_body]
pub(crate) fn gzip_encode(data: &[u8], level: u32) -> (r: Option<Vec<u8>>)
    requires
        level <= 9,
    ensures
        r is Some,
        r matches Some(out) ==> out@ == gzip_encoded(data@, level as int),
{
    let mut encoder = flate2::write::GzEncoder::new(Vec::new(), flate2::Compression::new(level));
    std::io::Write::write_all(&mut encoder, data).ok()?;
    encoder.finish().ok()
}

/// An empty list grants nothing.
pub proof fn lemma_empty_list_grants_nothing()
    ensures
        accepted(Seq::empty()) == (AcceptedCompression {
            supports_zstd: false,
            supports_gzip: false,
        }),
{
    reveal_strlit("zstd");
    reveal_strlit("gzip");
    let e = Seq::<char>::empty();
    assert(pieces(e, ',') == seq![e]);
    assert(trimmed(e).len() == 0);
}

} // verus!
