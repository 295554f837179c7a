//! The server's settings, and the patterns that exempt requests from
//! compression.

use crate::numbers::{format_number, number_text};
use vstd::prelude::*;
use vstd::string::*;

verus! {

#[verifier::external_type_specification]
#[verifier::external_body]
pub struct ExRegex(regex::Regex);

#[verifier::external_type_specification]
#[verifier::external_body]
pub struct ExRegexError(regex::Error);

/// Whether `pattern` is a regular expression that `regex::Regex::new`
/// accepts.
pub uninterp spec fn pattern_is_valid(pattern: Seq<char>) -> bool;

/// Whether the regular expression `pattern` matches somewhere in `text`, as
/// `regex::Regex::is_match` decides it.
pub uninterp spec fn pattern_matches(pattern: Seq<char>, text: Seq<char>) -> bool;

/// A compiled bypass pattern together with the text it was compiled from.
///
/// Both fields are private and `compile_pattern` is the only place that
/// builds a value, so the compiled form always belongs to the source.
pub struct BypassPattern {
    source: String,
    compiled: regex::Regex,
}

impl View for BypassPattern {
    type V = Seq<char>;

    closed spec fn view(&self) -> Seq<char> {
        self.source@
    }
}

impl BypassPattern {
    /// The text of the pattern.
    pub fn source(&self) -> (r: &str)
        ensures
            r@ == self@,
    {
        self.source.as_str()
    }
}

/// Calls `regex::Regex::new`. Trusted: the call succeeds exactly on the
/// patterns named valid, and the value it gives carries `source` as its text.
#[verifier::external_body]
pub(crate) fn compile_pattern(source: &str) -> (r: Result<BypassPattern, regex::Error>)
    ensures
        r is Ok <==> pattern_is_valid(source@),
        r matches Ok(p) ==> p@ == source@,
{
    match regex::Regex::new(source) {
        Ok(compiled) => Ok(BypassPattern { source: source.to_string(), compiled }),
        Err(e) => Err(e),
    }
}

/// Calls `regex::Regex::is_match`. Trusted: the answer is the one named by
/// `pattern_matches` for the pattern's text and `text`.
#[verifier::external_body]
pub(crate) fn pattern_is_match(pattern: &BypassPattern, text: &str) -> (r: bool)
    ensures
        r == pattern_matches(pattern@, text@),
{
    pattern.compiled.is_match(text)
}

/// Calls the `Display` implementation of `regex::Error`. Trusted: nothing
/// is claimed of the text.
#[verifier::external_body]
pub(crate) fn describe_pattern_error(e: &regex::Error) -> (r: String) {
    format!("{}", e)
}

/// Does some pattern of `patterns` match `text`?
pub open spec fn any_pattern_matches(patterns: Seq<BypassPattern>, text: Seq<char>) -> bool {
    exists|i: int| 0 <= i < patterns.len() && pattern_matches(#[trigger] patterns[i]@, text)
}

/// Whether a request for `uri` is exempt from compression: it is when some
/// bypass pattern matches the URI as it was sent.
pub fn should_bypass_compression(uri: &str, bypass_patterns: &[BypassPattern]) -> (r: bool)
    ensures
        r == any_pattern_matches(bypass_patterns@, uri@),
{
    let mut i: usize = 0;
    while i < bypass_patterns.len()
        invariant
            i <= bypass_patterns.len(),
            forall|k: int| 0 <= k < i ==> !pattern_matches(#[trigger] bypass_patterns@[k]@, uri@),
        decreases bypass_patterns.len() - i,
    {
        if pattern_is_match(&bypass_patterns[i], uri) {
            return true;
        }
        i += 1;
    }
    false
}

/// Why a list of bypass patterns could not be compiled.
pub struct PatternError {
    /// Position of the first pattern that is no regular expression.
    pub index: usize,
    /// The message `Invalid bypass pattern: ` followed by the compiler's
    /// description.
    pub message: String,
}

/// Compiles the bypass patterns, in order. Fails at the first text that is
/// no valid pattern.
pub fn compile_patterns(sources: &Vec<String>) -> (r: Result<Vec<BypassPattern>, PatternError>)
    ensures
        match r {
            Ok(patterns) => {
                &&& patterns.len() == sources.len()
                &&& forall|i: int|
                    0 <= i < sources.len() ==> (#[trigger] patterns@[i])@ == sources@[i]@
                &&& forall|i: int|
                    0 <= i < sources.len() ==> pattern_is_valid(#[trigger] sources@[i]@)
            },
            Err(e) => {
                &&& e.index < sources.len()
                &&& !pattern_is_valid(sources@[e.index as int]@)
                &&& forall|i: int| 0 <= i < e.index ==> pattern_is_valid(#[trigger] sources@[i]@)
                &&& "Invalid bypass pattern: "@.is_prefix_of(e.message@)
            },
        },
{
    let mut patterns: Vec<BypassPattern> = Vec::new();
    let mut i: usize = 0;
    while i < sources.len()
        invariant
            i <= sources.len(),
            patterns.len() == i,
            forall|k: int| 0 <= k < i ==> (#[trigger] patterns@[k])@ == sources@[k]@,
            forall|k: int| 0 <= k < i ==> pattern_is_valid(#[trigger] sources@[k]@),
        decreases sources.len() - i,
    {
        match compile_pattern(sources[i].as_str()) {
            Ok(p) => {
                patterns.push(p);
            },
            Err(e) => {
                let mut message = "Invalid bypass pattern: ".to_owned();
                let detail = describe_pattern_error(&e);
                message.append(detail.as_str());
                assert(message@.subrange(0, "Invalid bypass pattern: "@.len() as int)
                    =~= "Invalid bypass pattern: "@);
                return Err(PatternError { index: i, message });
            },
        }
        i += 1;
    }
    Ok(patterns)
}

/// The settings of one server.
pub struct Args {
    /// Address to listen on.
    pub bind: String,
    /// Port to listen on.
    pub port: u16,
    /// Backend `host:port` to relay to, in proxy mode.
    pub forward: Option<String>,
    /// Directory to serve, in file mode.
    pub serve: Option<String>,
    /// Level for zstd compression.
    pub zstd_level: i32,
    /// Level for gzip compression, 0 to 9.
    pub gzip_level: u32,
    /// Regular expressions; a request whose URI matches one is not compressed.
    pub bypass: Vec<String>,
    /// Whether unknown routes fall back to the index document.
    pub spa: bool,
}

impl Args {
    /// The text `<bind>:<port>`.
    pub open spec fn listen_text(self) -> Seq<char> {
        self.bind@ + seq![':'] + number_text(self.port as nat, 10)
    }

    /// The address to listen on, as `<bind>:<port>`.
    pub fn listen_addr(&self) -> (r: String)
        ensures
            r@ == self.listen_text(),
    {
        proof {
            reveal_strlit(":");
        }
        let mut out = self.bind.clone();
        out.append(":");
        let port = format_number(self.port as u64, 10);
        out.append(port.as_str());
        assert(":"@ =~= seq![':']);
        out
    }
}

} // verus!
