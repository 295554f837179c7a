//! Starting up, and handling one connection in the mode that was
//! configured.

use crate::args::{
    compile_patterns, pattern_is_valid, Args, BypassPattern, PatternError,
};
use crate::error::Failure;
use crate::file_serving::disk::{DiskView, ServeError};
use crate::file_serving::handlers::{handle_file_request, replied, FileReply};
use crate::file_serving::spa::SpaConfig;
use crate::proxy::handlers::{exchange, exchanged_as, handle_proxy_connection, ProxyOutcome};
use crate::proxy::headers::{collect_fields, fields_of};
use crate::proxy::transfer::{read_request_head, request_head, ByteSource};
use vstd::prelude::*;
use vstd::string::*;

verus! {

/// What a server does with its connections.
pub enum Mode {
    /// Relay to the backend at this `host:port`.
    Proxy(String),
    /// Serve the files of this directory.
    Files(String),
}

/// Everything a running server needs, worked out once at start.
pub struct ServerPlan {
    /// Where to listen, as `<bind>:<port>`.
    pub listen: String,
    pub mode: Mode,
    /// The compiled bypass patterns, shared by all connections.
    pub patterns: Vec<BypassPattern>,
    pub zstd_level: i32,
    pub gzip_level: u32,
    /// The fallback settings, where fallback to the index is on.
    pub spa: Option<SpaConfig>,
}

/// Why a server cannot start.
pub enum StartError {
    /// Neither a backend nor a directory is configured, or both are.
    InvalidMode,
    /// A bypass pattern is no regular expression.
    InvalidPattern(PatternError),
}

/// Do the settings name exactly one mode?
pub open spec fn names_one_mode(args: Args) -> bool {
    args.forward is Some != args.serve is Some
}

/// Are all bypass patterns of the settings valid?
pub open spec fn patterns_are_valid(args: Args) -> bool {
    forall|i: int| 0 <= i < args.bypass@.len() ==> pattern_is_valid(#[trigger] args.bypass@[i]@)
}

/// Turns the settings into a plan, or refuses to start.
///
/// A server starts exactly when the settings name one mode and every
/// bypass pattern compiles.
pub fn start_server(args: &Args) -> (r: Result<ServerPlan, StartError>)
    ensures
        r is Ok <==> names_one_mode(*args) && patterns_are_valid(*args),
        r matches Err(StartError::InvalidMode) <==> !names_one_mode(*args),
        r matches Err(StartError::InvalidPattern(e)) ==> {
            &&& e.index < args.bypass.len()
            &&& !pattern_is_valid(args.bypass@[e.index as int]@)
            &&& forall|i: int| 0 <= i < e.index ==> pattern_is_valid(#[trigger] args.bypass@[i]@)
            &&& "Invalid bypass pattern: "@.is_prefix_of(e.message@)
        },
        r matches Ok(plan) ==> {
            &&& plan.listen@ == args.listen_text()
            &&& plan.zstd_level == args.zstd_level
            &&& plan.gzip_level == args.gzip_level
            &&& plan.spa is Some == args.spa
            &&& plan.patterns.len() == args.bypass.len()
            &&& forall|i: int|
                0 <= i < args.bypass.len() ==> (#[trigger] plan.patterns@[i])@ == args.bypass@[i]@
            &&& match plan.mode {
                Mode::Proxy(addr) => args.forward matches Some(a) && addr@ == a@ && args.serve
                    is None,
                Mode::Files(dir) => args.serve matches Some(d) && dir@ == d@ && args.forward
                    is None,
            }
        },
{
    let mode = match (&args.forward, &args.serve) {
        (Some(addr), None) => Mode::Proxy(addr.clone()),
        (None, Some(dir)) => Mode::Files(dir.clone()),
        _ => {
            return Err(StartError::InvalidMode);
        },
    };
    let patterns = match compile_patterns(&args.bypass) {
        Ok(patterns) => patterns,
        Err(e) => {
            assert(!pattern_is_valid(args.bypass@[e.index as int]@));
            return Err(StartError::InvalidPattern(e));
        },
    };
    let spa = if args.spa {
        Some(SpaConfig::new())
    } else {
        None
    };
    Ok(
        ServerPlan {
            listen: args.listen_addr(),
            mode,
            patterns,
            zstd_level: args.zstd_level,
            gzip_level: args.gzip_level,
            spa,
        },
    )
}

/// How a connection ended, as it is reported.
#[derive(Debug, PartialEq, Eq, Copy, Clone, Structural)]
pub enum Status {
    Success,
    NotFound,
    InternalError,
}

impl Status {
    /// The status as it stands in the log.
    pub open spec fn text(self) -> Seq<char> {
        match self {
            Status::Success => "200 OK"@,
            Status::NotFound => "404 Not Found"@,
            Status::InternalError => "500 Internal Server Error"@,
        }
    }

    /// The status as it stands in the log.
    pub fn to_string(&self) -> (r: String)
        ensures
            r@ == self.text(),
    {
        match self {
            Status::Success => "200 OK".to_owned(),
            Status::NotFound => "404 Not Found".to_owned(),
            Status::InternalError => "500 Internal Server Error".to_owned(),
        }
    }
}

/// What handling one connection gave.
pub enum Handled {
    Proxied(Result<ProxyOutcome, Failure>),
    Served(Result<FileReply, ServeError>),
}

/// The status to report for a handled connection: a miss is "not found",
/// whether the file was missing or the served directory itself; any other
/// failure is an internal error.
pub open spec fn status_rule(handled: Handled) -> Status {
    match handled {
        Handled::Proxied(Ok(_)) => Status::Success,
        Handled::Proxied(Err(_)) => Status::InternalError,
        Handled::Served(Ok(reply)) => if reply.found {
            Status::Success
        } else {
            Status::NotFound
        },
        Handled::Served(Err(ServeError::Failed(Failure::NotFound))) => Status::NotFound,
        Handled::Served(Err(_)) => Status::InternalError,
    }
}

/// Picks the status to report.
pub fn status_of(handled: &Handled) -> (r: Status)
    ensures
        r == status_rule(*handled),
{
    match handled {
        Handled::Proxied(Ok(_)) => Status::Success,
        Handled::Proxied(Err(_)) => Status::InternalError,
        Handled::Served(Ok(reply)) => if reply.found {
            Status::Success
        } else {
            Status::NotFound
        },
        Handled::Served(Err(ServeError::Failed(Failure::NotFound))) => Status::NotFound,
        Handled::Served(Err(_)) => Status::InternalError,
    }
}

/// Is `r` what a file server gives for the request that `client` holds?
pub open spec fn file_served(
    r: Result<FileReply, ServeError>,
    client: Seq<u8>,
    pos: int,
    disk: DiskView,
    dir: Seq<char>,
    plan: ServerPlan,
) -> bool {
    match request_head(client, pos) {
        Err(e) => r matches Err(ServeError::Failed(f)) && f == e,
        Ok((first, lines, _)) => replied(
            r,
            disk,
            dir,
            first,
            fields_of(lines, false),
            plan.zstd_level,
            plan.gzip_level,
            plan.patterns@,
            match plan.spa {
                Some(config) => Some(&config),
                None => None,
            },
        ),
    }
}

/// Handles one connection whose bytes are at hand, in the mode of the
/// plan: an exchange through the proxy, or one file request.
pub fn handle_connection(
    client: &mut ByteSource,
    backend: &mut ByteSource,
    disk: &DiskView,
    plan: &ServerPlan,
) -> (r: Handled)
    requires
        old(client).wf(),
        old(backend).wf(),
    ensures
        final(client).wf(),
        final(backend).wf(),
        match plan.mode {
            Mode::Proxy(_) => r matches Handled::Proxied(outcome) && exchanged_as(
                outcome,
                exchange(
                    old(client).bytes@,
                    old(client).pos as int,
                    old(backend).bytes@,
                    old(backend).pos as int,
                    plan.patterns@,
                    plan.zstd_level,
                ),
            ),
            Mode::Files(dir) => r matches Handled::Served(reply) && file_served(
                reply,
                old(client).bytes@,
                old(client).pos as int,
                *disk,
                dir@,
                *plan,
            ),
        },
{
    match &plan.mode {
        Mode::Proxy(_) => Handled::Proxied(
            handle_proxy_connection(client, backend, plan.zstd_level, plan.patterns.as_slice()),
        ),
        Mode::Files(dir) => {
            let (first, lines) = match read_request_head(client) {
                Err(e) => {
                    return Handled::Served(Err(ServeError::Failed(e)));
                },
                Ok(head) => head,
            };
            let headers = collect_fields(lines.as_slice());
            Handled::Served(
                handle_file_request(
                    disk,
                    dir.as_str(),
                    first.as_str(),
                    headers.as_slice(),
                    plan.zstd_level,
                    plan.gzip_level,
                    plan.patterns.as_slice(),
                    plan.spa.as_ref(),
                ),
            )
        },
    }
}

} // verus!
