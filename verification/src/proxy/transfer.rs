//! Streams held in memory and what moves over them: request heads, chunked
//! bodies and tunnels.

use crate::compression::{accepted, determine_compression};
use crate::error::Failure;
use crate::numbers::{parse_number, parse_unsigned};
use crate::proxy::headers::{collect_fields, fields_of, find_header, value_of, Fields};
use crate::text::{
    chars_of, lowercase, lowercased, same_text, second_word, second_word_bounds, slice_text,
    trim_bounds, trimmed, utf8_text,
};
use crate::proxy::chunked::{
    chunked_body, find_byte, lemma_find_byte_bounds, line_end, size_of_line, ChunkedRelay,
    Framed, RelayAction,
};
use vstd::prelude::*;
use vstd::slice::slice_subrange;
use vstd::string::*;
use vstd::utf8::{decode_utf8, encode_utf8, valid_utf8};

verus! {

/// A stream of bytes held in memory: the bytes, and how many were read.
pub struct ByteSource<'a> {
    pub bytes: &'a [u8],
    pub pos: usize,
}

impl<'a> ByteSource<'a> {
    /// The read position lies within the bytes.
    pub open spec fn wf(self) -> bool {
        self.pos <= self.bytes@.len()
    }

    /// The bytes not yet read.
    pub open spec fn rest(self) -> Seq<u8> {
        self.bytes@.skip(self.pos as int)
    }

    /// A source that has read nothing of `bytes`.
    pub fn new(bytes: &'a [u8]) -> (r: ByteSource<'a>)
        ensures
            r.bytes == bytes,
            r.pos == 0,
            r.wf(),
    {
        ByteSource { bytes, pos: 0 }
    }
}

/// First index at or after `from` that holds the byte `b`, or the length.
pub fn find_byte_in(bytes: &[u8], b: u8, from: usize) -> (r: usize)
    requires
        from <= bytes.len(),
    ensures
        from <= r <= bytes.len(),
        r == find_byte(bytes@, b, from as int),
{
    let mut i: usize = from;
    while i < bytes.len() && bytes[i] != b
        invariant
            from <= i <= bytes.len(),
            find_byte(bytes@, b, from as int) == find_byte(bytes@, b, i as int),
        decreases bytes.len() - i,
    {
        i += 1;
    }
    i
}

/// What is still to come when a relay stands at `cur` with `pending` to do.
pub open spec fn expected(s: Seq<u8>, cur: int, pending: RelayAction) -> Framed {
    match pending {
        RelayAction::ReadSizeLine => chunked_body(s, cur),
        RelayAction::CopyPayload(n) => if cur + n + 2 <= s.len() {
            chunked_body(s, cur + n + 2).after(s.subrange(cur, cur + n))
        } else {
            Framed::Truncated
        },
        RelayAction::CopyDelimiter => if cur + 2 <= s.len() {
            chunked_body(s, cur + 2)
        } else {
            Framed::Truncated
        },
        RelayAction::CopyTrailer => if cur + 2 <= s.len() {
            Framed::Complete { end: cur + 2, payload: Seq::empty() }
        } else {
            Framed::Truncated
        },
        RelayAction::Finish => Framed::Complete { end: cur, payload: Seq::empty() },
    }
}

/// `bytes` where framing reaches the sink, nothing where it does not.
pub open spec fn kept(bytes: Seq<u8>, keep_framing: bool) -> Seq<u8> {
    if keep_framing {
        bytes
    } else {
        Seq::empty()
    }
}

/// What a run of the relay that starts a chunk at `pos` hands to its sink,
/// and where it stops reading, whether the body is complete or not.
///
/// A size line reaches the sink before it is examined; chunk data reaches
/// it as far as there is any; the two bytes after a chunk reach it only
/// when both are there. A line or an ending that the stream cuts short is
/// read to the end of the stream and not passed on.
pub open spec fn relay_trace(s: Seq<u8>, pos: int, keep_framing: bool) -> (Seq<u8>, int)
    decreases s.len() - pos,
{
    match line_end(s, pos) {
        None => (Seq::empty(), s.len() as int),
        Some(e) => {
            if pos < 0 || e <= pos {
                (Seq::empty(), pos)
            } else {
                let line = kept(s.subrange(pos, e), keep_framing);
                match size_of_line(s.subrange(pos, e)) {
                    None => (line, e),
                    Some(n) => {
                        if n == 0 {
                            if e + 2 <= s.len() {
                                (line + kept(s.subrange(e, e + 2), keep_framing), e + 2)
                            } else {
                                (line, s.len() as int)
                            }
                        } else if e + n + 2 <= s.len() {
                            let rest = relay_trace(s, e + n + 2, keep_framing);
                            (
                                line + s.subrange(e, e + n) + kept(
                                    s.subrange(e + n, e + n + 2),
                                    keep_framing,
                                ) + rest.0,
                                rest.1,
                            )
                        } else if e + n <= s.len() {
                            (line + s.subrange(e, e + n), s.len() as int)
                        } else {
                            (line + s.subrange(e, s.len() as int), s.len() as int)
                        }
                    },
                }
            }
        },
    }
}

/// What a relay that stands at `cur` with `pending` to do still hands to
/// its sink, and where it stops.
pub open spec fn trace_ahead(s: Seq<u8>, cur: int, pending: RelayAction, keep_framing: bool) -> (
    Seq<u8>,
    int,
) {
    match pending {
        RelayAction::ReadSizeLine => relay_trace(s, cur, keep_framing),
        RelayAction::CopyPayload(n) => if cur + n + 2 <= s.len() {
            let rest = relay_trace(s, cur + n + 2, keep_framing);
            (
                s.subrange(cur, cur + n) + kept(s.subrange(cur + n, cur + n + 2), keep_framing)
                    + rest.0,
                rest.1,
            )
        } else if cur + n <= s.len() {
            (s.subrange(cur, cur + n), s.len() as int)
        } else {
            (s.subrange(cur, s.len() as int), s.len() as int)
        },
        RelayAction::CopyDelimiter => if cur + 2 <= s.len() {
            let rest = relay_trace(s, cur + 2, keep_framing);
            (kept(s.subrange(cur, cur + 2), keep_framing) + rest.0, rest.1)
        } else {
            (Seq::empty(), s.len() as int)
        },
        RelayAction::CopyTrailer => if cur + 2 <= s.len() {
            (kept(s.subrange(cur, cur + 2), keep_framing), cur + 2)
        } else {
            (Seq::empty(), s.len() as int)
        },
        RelayAction::Finish => (Seq::empty(), cur),
    }
}

/// What a run of the relay over `source` from its read position leaves
/// behind: the counts, the new read position and what the sink received.
///
/// Whatever the outcome, the sink has received what `relay_trace` says and
/// the source is read up to where it says. A complete body gives the
/// counts; a body cut short gives `UnexpectedEof`; a size line that states
/// no size gives `InvalidData`, and nothing after that line is passed on.
pub open spec fn relay_outcome(
    source: ByteSource,
    sink: Seq<u8>,
    keep_framing: bool,
    result: Result<(usize, usize), Failure>,
    source_after: ByteSource,
    sink_after: Seq<u8>,
) -> bool {
    let s = source.bytes@;
    let start = source.pos as int;
    let trace = relay_trace(s, start, keep_framing);
    &&& source_after.bytes == source.bytes
    &&& source_after.wf()
    &&& source_after.pos == trace.1
    &&& sink_after =~= sink + trace.0
    &&& match chunked_body(s, start) {
        Framed::Complete { end, payload } => {
            &&& source_after.pos == end
            &&& start <= end <= s.len()
            &&& if keep_framing {
                &&& result == Ok::<(usize, usize), Failure>(
                    ((end - start) as usize, (end - start) as usize),
                )
                &&& sink_after == sink + s.subrange(start, end)
            } else {
                &&& result == Ok::<(usize, usize), Failure>(
                    ((end - start) as usize, payload.len() as usize),
                )
                &&& sink_after == sink + payload
            }
        },
        Framed::Truncated => result == Err::<(usize, usize), Failure>(Failure::UnexpectedEof),
        Framed::Malformed => result == Err::<(usize, usize), Failure>(Failure::InvalidData),
    }
}

/// What holds between the steps of a relay run that began at `source` with
/// the sink holding `sink`: `got` is the chunk data met so far.
pub open spec fn relay_inv(
    source: ByteSource,
    sink: Seq<u8>,
    reader: ByteSource,
    written: Seq<u8>,
    relay: ChunkedRelay,
    got: Seq<u8>,
) -> bool {
    let s = source.bytes@;
    let start = source.pos as int;
    let passed = if relay.keep_framing {
        s.subrange(start, reader.pos as int)
    } else {
        got
    };
    let whole = relay_trace(s, start, relay.keep_framing);
    let ahead = trace_ahead(s, reader.pos as int, relay.pending, relay.keep_framing);
    &&& reader.bytes == source.bytes
    &&& start <= reader.pos <= s.len()
    &&& relay.bytes_read == reader.pos - start
    &&& got.len() <= reader.pos - start
    &&& relay.bytes_written == if relay.keep_framing {
        reader.pos - start
    } else {
        got.len() as int
    }
    &&& written =~= sink + passed
    &&& (relay.pending matches RelayAction::CopyPayload(n) ==> n > 0)
    &&& chunked_body(s, start) == expected(s, reader.pos as int, relay.pending).after(got)
    &&& whole.1 == ahead.1
    &&& whole.0 =~= passed + ahead.0
}

/// How far a relay run still is from its end.
pub open spec fn relay_distance(reader: ByteSource, relay: ChunkedRelay) -> int {
    reader.bytes@.len() - reader.pos + if relay.pending == RelayAction::Finish {
        0int
    } else {
        1int
    }
}

/// The outcome of a run that stops with failure `e`, the reader at
/// `stopped` and the sink holding `written`.
pub open spec fn relay_failed(
    source: ByteSource,
    sink: Seq<u8>,
    keep_framing: bool,
    e: Failure,
    stopped: ByteSource,
    written: Seq<u8>,
) -> bool {
    let trace = relay_trace(source.bytes@, source.pos as int, keep_framing);
    &&& stopped.pos == trace.1
    &&& written =~= sink + trace.0
    &&& match chunked_body(source.bytes@, source.pos as int) {
        Framed::Complete { .. } => false,
        Framed::Truncated => e == Failure::UnexpectedEof,
        Framed::Malformed => e == Failure::InvalidData,
    }
}

proof fn lemma_after_after(tail: Framed, data: Seq<u8>, got: Seq<u8>)
    ensures
        tail.after(data).after(got) == tail.after(got + data),
{
    match tail {
        Framed::Complete { end, payload } => {
            assert(got + (data + payload) == (got + data) + payload);
        },
        _ => {},
    }
}

#[verifier::rlimit(60)]
fn relay_size_line(
    reader: &mut ByteSource,
    writer: &mut Vec<u8>,
    relay: &mut ChunkedRelay,
    Ghost(source): Ghost<ByteSource>,
    Ghost(sink): Ghost<Seq<u8>>,
    Ghost(got): Ghost<Seq<u8>>,
) -> (r: Result<(), Failure>)
    requires
        relay_inv(source, sink, *old(reader), old(writer)@, *old(relay), got),
        old(relay).pending == RelayAction::ReadSizeLine,
    ensures
        final(relay).keep_framing == old(relay).keep_framing,
        final(reader).bytes == old(reader).bytes,
        final(reader).wf(),
        match r {
            Ok(_) => relay_inv(source, sink, *final(reader), final(writer)@, *final(relay), got)
                && relay_distance(*final(reader), *final(relay)) < relay_distance(
                *old(reader),
                *old(relay),
            ),
            Err(e) => relay_failed(
                source,
                sink,
                old(relay).keep_framing,
                e,
                *final(reader),
                final(writer)@,
            ),
        },
{
    let ghost s = source.bytes@;
    let ghost start = source.pos as int;
    let ghost passed = if relay.keep_framing {
        s.subrange(start, reader.pos as int)
    } else {
        got
    };
    let cur = reader.pos;
    let len = reader.bytes.len();
    let feed = find_byte_in(reader.bytes, 10, cur);
    proof {
        lemma_find_byte_bounds(s, 10, cur as int);
    }
    let ghost keep = relay.keep_framing;
    if feed >= len {
        reader.pos = len;
        proof {
            assert(line_end(s, cur as int) is None);
            assert(relay_trace(s, cur as int, keep) == (Seq::<u8>::empty(), len as int));
            assert(chunked_body(s, cur as int) == Framed::Truncated);
            assert(passed + Seq::<u8>::empty() =~= passed);
        }
        return Err(Failure::UnexpectedEof);
    }
    let end = feed + 1;
    let line = slice_subrange(reader.bytes, cur, end);
    assert(line_end(s, cur as int) == Some(end as int));
    assert(s.subrange(cur as int, end as int) == line@);
    if relay.keep_framing {
        writer.extend_from_slice(line);
    }
    reader.pos = end;
    proof {
        if relay.keep_framing {
            assert(passed + line@ =~= s.subrange(start, end as int));
            assert(sink + passed + line@ =~= sink + (passed + line@));
        } else {
            assert(passed + Seq::<u8>::empty() =~= passed);
        }
    }
    match relay.on_size_line(line) {
        Err(e) => {
            proof {
                assert(size_of_line(line@) is None);
                assert(relay_trace(s, cur as int, keep) == (kept(line@, keep), end as int));
                assert(chunked_body(s, cur as int) == Framed::Malformed);
                assert(passed + kept(line@, keep) =~= if keep {
                    s.subrange(start, end as int)
                } else {
                    got
                });
            }
            return Err(e);
        },
        Ok(_) => {},
    }
    proof {
        let ahead = trace_ahead(s, end as int, relay.pending, keep);
        let framing = kept(line@, keep);
        let here = relay_trace(s, cur as int, keep);
        assert(here.1 == ahead.1);
        assert(here.0 =~= framing + ahead.0);
        assert(passed + (framing + ahead.0) =~= (passed + framing) + ahead.0);
    }
    Ok(())
}

fn relay_payload(
    reader: &mut ByteSource,
    writer: &mut Vec<u8>,
    relay: &mut ChunkedRelay,
    due: usize,
    Ghost(source): Ghost<ByteSource>,
    Ghost(sink): Ghost<Seq<u8>>,
    Ghost(got): Ghost<Seq<u8>>,
) -> (r: Result<Ghost<Seq<u8>>, Failure>)
    requires
        relay_inv(source, sink, *old(reader), old(writer)@, *old(relay), got),
        old(relay).pending == RelayAction::CopyPayload(due),
    ensures
        final(relay).keep_framing == old(relay).keep_framing,
        final(reader).bytes == old(reader).bytes,
        final(reader).wf(),
        match r {
            Ok(more) => relay_inv(
                source,
                sink,
                *final(reader),
                final(writer)@,
                *final(relay),
                more@,
            ) && relay_distance(*final(reader), *final(relay)) < relay_distance(
                *old(reader),
                *old(relay),
            ),
            Err(e) => relay_failed(
                source,
                sink,
                old(relay).keep_framing,
                e,
                *final(reader),
                final(writer)@,
            ),
        },
{
    let ghost s = source.bytes@;
    let ghost start = source.pos as int;
    let ghost passed = if relay.keep_framing {
        s.subrange(start, reader.pos as int)
    } else {
        got
    };
    let cur = reader.pos;
    let len = reader.bytes.len();
    let available = len - cur;
    let take = if due <= available {
        due
    } else {
        available
    };
    let data = slice_subrange(reader.bytes, cur, cur + take);
    writer.extend_from_slice(data);
    reader.pos = cur + take;
    proof {
        assert(sink + passed + data@ =~= sink + (passed + data@));
    }
    match relay.on_moved(take) {
        Err(e) => {
            return Err(e);
        },
        Ok(_) => {},
    }
    proof {
        lemma_after_after(expected(s, cur + due, RelayAction::CopyDelimiter), data@, got);
        if relay.keep_framing {
            assert(passed + data@ =~= s.subrange(start, cur + due));
        }
        let ahead = trace_ahead(s, cur + due, relay.pending, relay.keep_framing);
        assert(passed + (data@ + ahead.0) =~= (passed + data@) + ahead.0);
    }
    Ok(Ghost(got + data@))
}

fn relay_ending(
    reader: &mut ByteSource,
    writer: &mut Vec<u8>,
    relay: &mut ChunkedRelay,
    Ghost(source): Ghost<ByteSource>,
    Ghost(sink): Ghost<Seq<u8>>,
    Ghost(got): Ghost<Seq<u8>>,
) -> (r: Result<(), Failure>)
    requires
        relay_inv(source, sink, *old(reader), old(writer)@, *old(relay), got),
        old(relay).pending == RelayAction::CopyDelimiter || old(relay).pending
            == RelayAction::CopyTrailer,
    ensures
        final(relay).keep_framing == old(relay).keep_framing,
        final(reader).bytes == old(reader).bytes,
        final(reader).wf(),
        match r {
            Ok(_) => relay_inv(source, sink, *final(reader), final(writer)@, *final(relay), got)
                && relay_distance(*final(reader), *final(relay)) < relay_distance(
                *old(reader),
                *old(relay),
            ),
            Err(e) => relay_failed(
                source,
                sink,
                old(relay).keep_framing,
                e,
                *final(reader),
                final(writer)@,
            ),
        },
{
    let ghost s = source.bytes@;
    let ghost start = source.pos as int;
    let ghost passed = if relay.keep_framing {
        s.subrange(start, reader.pos as int)
    } else {
        got
    };
    let cur = reader.pos;
    let len = reader.bytes.len();
    let available = len - cur;
    if available < 2 {
        reader.pos = len;
        proof {
            assert(passed + Seq::<u8>::empty() =~= passed);
        }
        return match relay.on_moved(available) {
            Err(e) => Err(e),
            Ok(_) => Err(Failure::UnexpectedEof),
        };
    }
    let ending = slice_subrange(reader.bytes, cur, cur + 2);
    if relay.keep_framing {
        writer.extend_from_slice(ending);
    }
    reader.pos = cur + 2;
    match relay.on_moved(2) {
        Err(e) => {
            return Err(e);
        },
        Ok(_) => {},
    }
    proof {
        if relay.keep_framing {
            assert(passed + ending@ =~= s.subrange(start, cur + 2));
            assert(sink + passed + ending@ =~= sink + (passed + ending@));
        } else {
            assert(passed + Seq::<u8>::empty() =~= passed);
        }
        let ahead = trace_ahead(s, cur + 2, relay.pending, relay.keep_framing);
        let framing = kept(ending@, relay.keep_framing);
        assert(passed + (framing + ahead.0) =~= (passed + framing) + ahead.0);
    }
    Ok(())
}

fn run_relay(reader: &mut ByteSource, writer: &mut Vec<u8>, keep_framing: bool) -> (r: Result<
    (usize, usize),
    Failure,
>)
    requires
        old(reader).wf(),
    ensures
        relay_outcome(*old(reader), old(writer)@, keep_framing, r, *final(reader), final(writer)@),
{
    let ghost source = *reader;
    let ghost sink = writer@;
    let ghost mut got: Seq<u8> = Seq::empty();
    let mut relay = ChunkedRelay::new(keep_framing);
    proof {
        let s = source.bytes@;
        let start = source.pos as int;
        assert(chunked_body(s, start).after(Seq::empty()) == chunked_body(s, start)) by {
            match chunked_body(s, start) {
                Framed::Complete { end, payload } => {
                    assert(Seq::<u8>::empty() + payload == payload);
                },
                _ => {},
            }
        }
        assert(s.subrange(start, start) == Seq::<u8>::empty());
        assert(sink + Seq::<u8>::empty() == sink);
        let whole = relay_trace(s, start, keep_framing);
        assert(whole.0 =~= Seq::<u8>::empty() + whole.0);
    }
    loop
        invariant
            source == *old(reader),
            sink == old(writer)@,
            relay.keep_framing == keep_framing,
            relay_inv(source, sink, *reader, writer@, relay, got),
        decreases relay_distance(*reader, relay),
    {
        match relay.pending {
            RelayAction::Finish => {
                proof {
                    assert(got + Seq::<u8>::empty() == got);
                    let s = source.bytes@;
                    let passed = if keep_framing {
                        s.subrange(source.pos as int, reader.pos as int)
                    } else {
                        got
                    };
                    assert(passed + Seq::<u8>::empty() =~= passed);
                }
                return Ok((relay.bytes_read, relay.bytes_written));
            },
            RelayAction::ReadSizeLine => {
                match relay_size_line(
                    reader,
                    writer,
                    &mut relay,
                    Ghost(source),
                    Ghost(sink),
                    Ghost(got),
                ) {
                    Err(e) => {
                        return Err(e);
                    },
                    Ok(_) => {},
                }
            },
            RelayAction::CopyPayload(due) => {
                match relay_payload(
                    reader,
                    writer,
                    &mut relay,
                    due,
                    Ghost(source),
                    Ghost(sink),
                    Ghost(got),
                ) {
                    Err(e) => {
                        return Err(e);
                    },
                    Ok(more) => {
                        proof {
                            got = more@;
                        }
                    },
                }
            },
            RelayAction::CopyDelimiter | RelayAction::CopyTrailer => {
                match relay_ending(
                    reader,
                    writer,
                    &mut relay,
                    Ghost(source),
                    Ghost(sink),
                    Ghost(got),
                ) {
                    Err(e) => {
                        return Err(e);
                    },
                    Ok(_) => {},
                }
            },
        }
    }
}

/// Relays one chunked body from `reader` to `writer`, byte for byte, and
/// counts the bytes read and written.
///
/// On success the writer has received exactly the bytes of the body, framing
/// included, both counts are the body's length, and the reader stands just
/// after the body. A stream that ends early gives `UnexpectedEof`, a size
/// line that states no chunk length gives `InvalidData`; what the writer
/// has received by then, and how far the reader has come, is what
/// `relay_trace` says.
pub fn forward_chunked_body(reader: &mut ByteSource, writer: &mut Vec<u8>) -> (r: Result<
    (usize, usize),
    Failure,
>)
    requires
        old(reader).wf(),
    ensures
        relay_outcome(*old(reader), old(writer)@, true, r, *final(reader), final(writer)@),
{
    run_relay(reader, writer, true)
}

/// Reads one chunked body from `reader` and appends the chunk data, without
/// the framing, to `buffer`. The first count is the length of the body as it
/// was read, the second the length of the data.
pub fn decode_chunked_body(reader: &mut ByteSource, buffer: &mut Vec<u8>) -> (r: Result<
    (usize, usize),
    Failure,
>)
    requires
        old(reader).wf(),
    ensures
        relay_outcome(*old(reader), old(buffer)@, false, r, *final(reader), final(buffer)@),
{
    run_relay(reader, buffer, false)
}

/// Where the line that starts at `pos` ends: just after its line feed, or
/// at the end of the bytes where no line feed follows.
pub open spec fn next_line_end(s: Seq<u8>, pos: int) -> int {
    let i = find_byte(s, 10, pos);
    if 0 <= i < s.len() {
        i + 1
    } else {
        s.len() as int
    }
}

/// Reads one line, its line feed included, as text. At the end of the
/// stream the line is empty. A line that is no UTF-8 is `InvalidData`; the
/// line counts as read all the same.
pub fn read_line(reader: &mut ByteSource) -> (r: Result<String, Failure>)
    requires
        old(reader).wf(),
    ensures
        final(reader).bytes == old(reader).bytes,
        final(reader).pos == next_line_end(old(reader).bytes@, old(reader).pos as int),
        final(reader).wf(),
        old(reader).pos < old(reader).bytes@.len() ==> final(reader).pos > old(reader).pos,
        ({
            let raw = old(reader).bytes@.subrange(old(reader).pos as int, final(reader).pos as int);
            match r {
                Ok(text) => valid_utf8(raw) && text@ == decode_utf8(raw),
                Err(e) => !valid_utf8(raw) && e == Failure::InvalidData,
            }
        }),
{
    let start = reader.pos;
    let len = reader.bytes.len();
    let feed = find_byte_in(reader.bytes, 10, start);
    proof {
        lemma_find_byte_bounds(reader.bytes@, 10, start as int);
    }
    let end = if feed < len {
        feed + 1
    } else {
        len
    };
    let raw = slice_subrange(reader.bytes, start, end);
    reader.pos = end;
    match utf8_text(raw) {
        Some(text) => Ok(text.to_owned()),
        None => Err(Failure::InvalidData),
    }
}

/// Does this line end the headers: is it empty but for white space?
pub fn ends_headers(line: &str) -> (r: bool)
    ensures
        r == (trimmed(line@).len() == 0),
{
    let v = chars_of(line);
    assert(v@.subrange(0, v.len() as int) == v@);
    let (a, b) = trim_bounds(&v, 0, v.len());
    a == b
}

/// The header lines of a request head that starts at `pos`, up to the
/// first blank line, and where the head ends, the blank line included.
pub open spec fn header_block(s: Seq<u8>, pos: int) -> Result<(Seq<Seq<char>>, int), Failure>
    decreases s.len() - pos,
{
    let end = next_line_end(s, pos);
    if pos < 0 || pos > s.len() || end < pos {
        Err(Failure::InvalidData)
    } else {
        let raw = s.subrange(pos, end);
        if !valid_utf8(raw) {
            Err(Failure::InvalidData)
        } else if trimmed(decode_utf8(raw)).len() == 0 || end <= pos {
            Ok((Seq::empty(), end))
        } else {
            match header_block(s, end) {
                Ok((lines, stop)) => Ok((seq![decode_utf8(raw)] + lines, stop)),
                Err(e) => Err(e),
            }
        }
    }
}

/// A request head as read off a stream: the request line, the header
/// lines, and where the head ends.
pub open spec fn request_head(s: Seq<u8>, pos: int) -> Result<
    (Seq<char>, Seq<Seq<char>>, int),
    Failure,
> {
    let end = next_line_end(s, pos);
    let raw = s.subrange(pos, end);
    if !valid_utf8(raw) {
        Err(Failure::InvalidData)
    } else {
        match header_block(s, end) {
            Ok((lines, stop)) => Ok((decode_utf8(raw), lines, stop)),
            Err(e) => Err(e),
        }
    }
}

/// Reads a request head: the first line, then header lines up to the first
/// blank one. Each line keeps its line ending.
pub fn read_request_head(reader: &mut ByteSource) -> (r: Result<(String, Vec<String>), Failure>)
    requires
        old(reader).wf(),
    ensures
        final(reader).bytes == old(reader).bytes,
        final(reader).wf(),
        match (r, request_head(old(reader).bytes@, old(reader).pos as int)) {
            (Ok((first, lines)), Ok((f, ls, end))) => first@ == f && lines.deep_view() == ls
                && final(reader).pos == end,
            (Err(e), Err(f)) => e == f,
            _ => false,
        },
{
    let ghost s = reader.bytes@;
    let ghost source = *reader;
    let first = match read_line(reader) {
        Ok(text) => text,
        Err(e) => {
            return Err(e);
        },
    };
    let ghost from = reader.pos as int;
    let mut lines: Vec<String> = Vec::new();
    let mut open = true;
    proof {
        assert(lines.deep_view() == Seq::<Seq<char>>::empty());
        match header_block(s, from) {
            Ok((ls, stop)) => {
                assert(Seq::<Seq<char>>::empty() + ls == ls);
            },
            Err(_) => {},
        }
    }
    while open
        invariant
            source == *old(reader),
            s == source.bytes@,
            reader.bytes == source.bytes,
            reader.wf(),
            from <= reader.pos,
            request_head(s, source.pos as int) == match header_block(s, from) {
                Ok((ls, stop)) => Ok::<(Seq<char>, Seq<Seq<char>>, int), Failure>(
                    (first@, ls, stop),
                ),
                Err(e) => Err::<(Seq<char>, Seq<Seq<char>>, int), Failure>(e),
            },
            match header_block(s, from) {
                Ok((ls, stop)) => if open {
                    header_block(s, reader.pos as int) matches Ok((rest, end)) && end == stop
                        && ls == lines.deep_view() + rest
                } else {
                    ls == lines.deep_view() && stop == reader.pos
                },
                Err(e) => open && header_block(s, reader.pos as int) == Err::<
                    (Seq<Seq<char>>, int),
                    Failure,
                >(e),
            },
        decreases s.len() - reader.pos + if open { 1int } else { 0int },
    {
        let ghost cur = reader.pos as int;
        let ghost before = lines.deep_view();
        let line = match read_line(reader) {
            Ok(text) => text,
            Err(e) => {
                assert(header_block(s, cur) is Err);
                return Err(e);
            },
        };
        if ends_headers(line.as_str()) {
            proof {
                match header_block(s, from) {
                    Ok((ls, stop)) => {
                        assert(before + Seq::<Seq<char>>::empty() == before);
                    },
                    Err(_) => {},
                }
            }
            open = false;
        } else {
            proof {
                assert(cur < s.len()) by {
                    if cur >= s.len() {
                        assert(s.subrange(cur, cur) =~= Seq::<u8>::empty());
                        assert(decode_utf8(Seq::<u8>::empty()).len() == 0);
                    }
                }
                match header_block(s, cur) {
                    Ok((rest, end)) => {
                        let tail = header_block(s, reader.pos as int)->Ok_0.0;
                        assert(before + (seq![line@] + tail) == before.push(line@) + tail);
                    },
                    Err(_) => {},
                }
            }
            lines.push(line);
            proof {
                assert(lines.deep_view() == before.push(line@));
            }
        }
    }
    Ok((first, lines))
}

/// The value of the last field named `lowered`, letter case of the field's
/// name not counting.
pub open spec fn last_value_of(fields: Fields, lowered: Seq<char>) -> Option<Seq<char>>
    decreases fields.len(),
{
    if fields.len() == 0 {
        None
    } else if lowercased(fields.last().0) == lowered {
        Some(fields.last().1)
    } else {
        last_value_of(fields.drop_last(), lowered)
    }
}

/// Whether the headers grant zstd: they do when the value of
/// `Accept-Encoding` names it; of several such headers the last one
/// decides, and without one nothing is granted.
pub open spec fn zstd_granted(fields: Fields) -> bool {
    match last_value_of(fields, "accept-encoding"@) {
        Some(value) => accepted(lowercased(value)).supports_zstd,
        None => false,
    }
}

/// The headers of a request: every line with a colon, in order, name and
/// value trimmed, letter case as it came.
pub open spec fn request_fields(lines: Seq<Seq<char>>) -> Fields {
    fields_of(lines, false)
}

/// All the lines, one after the other.
pub open spec fn concat_lines(lines: Seq<Seq<char>>) -> Seq<char>
    decreases lines.len(),
{
    if lines.len() == 0 {
        Seq::empty()
    } else {
        concat_lines(lines.drop_last()) + lines.last()
    }
}

/// The request target named on a request line, or the empty text.
pub open spec fn uri_of(first_line: Seq<char>) -> Seq<char> {
    match second_word(first_line) {
        Some(word) => word,
        None => Seq::empty(),
    }
}

/// The length of the request body that the headers declare.
pub open spec fn declared_length(fields: Fields, max: nat) -> Option<nat> {
    match value_of(fields, "content-length"@) {
        Some(v) => parse_unsigned(v, 10, max),
        None => None,
    }
}

/// What is known of a request once its head was read, and what is to be
/// sent on to the backend.
pub struct ForwardedRequest {
    /// The head as it goes to the backend: every line as it came, then a
    /// blank line.
    pub head: Vec<u8>,
    /// The headers of the request, in order.
    pub headers: Vec<(String, String)>,
    /// Whether the client takes zstd.
    pub supports_zstd: bool,
    /// The request target.
    pub uri: String,
    /// How many bytes of body follow the head, where a length is declared.
    pub body_length: Option<u64>,
}

/// Reads a decimal length out of a header value.
pub fn parse_length(value: &str, max: u64) -> (r: Option<u64>)
    ensures
        r is Some <==> parse_unsigned(value@, 10, max as nat) is Some,
        r matches Some(n) ==> n == parse_unsigned(value@, 10, max as nat)->0,
{
    let v = chars_of(value);
    assert(v@.subrange(0, v.len() as int) == v@);
    parse_number(&v, 0, v.len(), 10, max)
}

/// Index of the last header named `lowered`, letter case of the header's
/// name not counting.
pub fn find_last_header(headers: &[(String, String)], lowered: &str) -> (r: Option<usize>)
    ensures
        r is Some <==> last_value_of(headers.deep_view(), lowered@) is Some,
        r matches Some(i) ==> i < headers.len() && headers@[i as int].1@ == last_value_of(
            headers.deep_view(),
            lowered@,
        )->0,
{
    let ghost fields = headers.deep_view();
    let mut i: usize = headers.len();
    assert(fields.take(i as int) == fields);
    while i > 0
        invariant
            i <= headers.len(),
            fields == headers.deep_view(),
            last_value_of(fields, lowered@) == last_value_of(fields.take(i as int), lowered@),
        decreases i,
    {
        i -= 1;
        proof {
            let upto = fields.take(i + 1);
            assert(upto.drop_last() == fields.take(i as int));
            assert(upto.last() == fields[i as int]);
            assert(fields[i as int].0 == headers@[i as int].0@);
            assert(fields[i as int].1 == headers@[i as int].1@);
        }
        let name = lowercase(headers[i].0.as_str());
        if same_text(name.as_str(), lowered) {
            return Some(i);
        }
    }
    None
}

/// Reads off a header list whether the client takes zstd.
pub fn grants_zstd(headers: &[(String, String)]) -> (r: bool)
    ensures
        r == zstd_granted(headers.deep_view()),
{
    match find_last_header(headers, "accept-encoding") {
        Some(i) => determine_compression(headers[i].1.as_str()).supports_zstd,
        None => false,
    }
}

/// Works out what to send to the backend for a request head, and what the
/// head says of the request. The head is passed on unchanged, `Host`
/// included; the headers are reported as they came, in order.
pub fn forward_request(first_line: &str, header_lines: &[String]) -> (r: ForwardedRequest)
    ensures
        r.head@ == encode_utf8(first_line@ + concat_lines(header_lines.deep_view()) + "\r\n"@),
        r.headers.deep_view() == request_fields(header_lines.deep_view()),
        r.supports_zstd == zstd_granted(request_fields(header_lines.deep_view())),
        r.uri@ == uri_of(first_line@),
        match declared_length(request_fields(header_lines.deep_view()), u64::MAX as nat) {
            Some(n) => r.body_length == Some(n as u64),
            None => r.body_length is None,
        },
{
    let ghost lines = header_lines.deep_view();
    let first = chars_of(first_line);
    let uri = match second_word_bounds(&first) {
        Some((a, b)) => slice_text(first_line, a, b),
        None => String::new(),
    };
    let mut text = first_line.to_owned();
    let mut i: usize = 0;
    proof {
        assert(lines.take(0) == Seq::<Seq<char>>::empty());
        assert(first_line@ + Seq::<char>::empty() == first_line@);
    }
    while i < header_lines.len()
        invariant
            i <= header_lines.len(),
            lines == header_lines.deep_view(),
            text@ == first_line@ + concat_lines(lines.take(i as int)),
        decreases header_lines.len() - i,
    {
        let line = header_lines[i].as_str();
        proof {
            let upto = lines.take(i + 1);
            assert(upto.drop_last() == lines.take(i as int));
            assert(upto.last() == line@);
            assert(first_line@ + concat_lines(lines.take(i as int)) + line@ == first_line@ + (
            concat_lines(lines.take(i as int)) + line@));
        }
        text.append(line);
        i += 1;
    }
    proof {
        assert(lines.take(header_lines.len() as int) == lines);
    }
    text.append("\r\n");
    let headers = collect_fields(header_lines);
    let supports_zstd = grants_zstd(headers.as_slice());
    let body_length = match find_header(headers.as_slice(), "content-length") {
        Some(k) => parse_length(headers[k].1.as_str(), u64::MAX),
        None => None,
    };
    ForwardedRequest { head: text.as_str().as_bytes_vec(), headers, supports_zstd, uri, body_length }
}

/// The size of the buffer through which a tunnel moves bytes.
pub const TUNNEL_BUFFER: usize = 8192;

/// What one direction of a tunnel holds in its buffer: how many bytes the
/// last read gave, and how many of them the peer has taken.
#[derive(Debug, PartialEq, Eq, Copy, Clone, Structural)]
pub struct TunnelState {
    pub held: usize,
    pub sent: usize,
}

/// What happened to one direction of a tunnel.
#[derive(Debug, PartialEq, Eq, Copy, Clone, Structural)]
pub enum TunnelEvent {
    /// A read returned this many bytes; zero is the end of the stream.
    Read(usize),
    /// A read found nothing to read yet.
    ReadWouldBlock,
    /// A read failed.
    ReadFailed,
    /// The peer took this many of the bytes offered.
    Wrote(usize),
    /// The peer could not take any bytes yet.
    WriteWouldBlock,
    /// A write failed.
    WriteFailed,
}

/// What one direction of a tunnel does next.
#[derive(Debug, PartialEq, Eq, Copy, Clone, Structural)]
pub enum TunnelAction {
    /// Read up to `TUNNEL_BUFFER` bytes into the buffer.
    Read,
    /// Offer the bytes of the buffer from `from` up to `to` to the peer.
    Write { from: usize, to: usize },
    /// Wait a moment, then read again.
    PauseThenRead,
    /// Wait a moment, then offer the same bytes again.
    PauseThenWrite { from: usize, to: usize },
    /// Leave the loop: this direction is done.
    Stop,
}

/// The rule of a tunnel direction.
///
/// Bytes that were read are offered to the peer until it has taken them
/// all, and only then is more read: nothing is dropped, repeated or
/// reordered. "Would block" is waited out, on a read and on a write alike.
/// The end of the stream, a peer that takes nothing, and any other failure
/// end the direction.
pub open spec fn tunnel_rule(state: TunnelState, event: TunnelEvent) -> (
    TunnelState,
    TunnelAction,
) {
    let idle = TunnelState { held: 0, sent: 0 };
    match event {
        TunnelEvent::Read(n) => if n == 0 {
            (idle, TunnelAction::Stop)
        } else {
            (TunnelState { held: n, sent: 0 }, TunnelAction::Write { from: 0, to: n })
        },
        TunnelEvent::ReadWouldBlock => (state, TunnelAction::PauseThenRead),
        TunnelEvent::ReadFailed => (state, TunnelAction::Stop),
        TunnelEvent::Wrote(k) => if k == 0 {
            (state, TunnelAction::Stop)
        } else if state.sent + k >= state.held {
            (idle, TunnelAction::Read)
        } else {
            (
                TunnelState { held: state.held, sent: (state.sent + k) as usize },
                TunnelAction::Write { from: (state.sent + k) as usize, to: state.held },
            )
        },
        TunnelEvent::WriteWouldBlock => if state.sent < state.held {
            (state, TunnelAction::PauseThenWrite { from: state.sent, to: state.held })
        } else {
            (idle, TunnelAction::Read)
        },
        TunnelEvent::WriteFailed => (state, TunnelAction::Stop),
    }
}

/// Decides what a tunnel direction does after `event`.
pub fn tunnel_step(state: TunnelState, event: TunnelEvent) -> (r: (TunnelState, TunnelAction))
    ensures
        r == tunnel_rule(state, event),
{
    let idle = TunnelState { held: 0, sent: 0 };
    match event {
        TunnelEvent::Read(n) => if n == 0 {
            (idle, TunnelAction::Stop)
        } else {
            (TunnelState { held: n, sent: 0 }, TunnelAction::Write { from: 0, to: n })
        },
        TunnelEvent::ReadWouldBlock => (state, TunnelAction::PauseThenRead),
        TunnelEvent::ReadFailed => (state, TunnelAction::Stop),
        TunnelEvent::Wrote(k) => {
            if k == 0 {
                (state, TunnelAction::Stop)
            } else if state.sent >= state.held || k >= state.held - state.sent {
                (idle, TunnelAction::Read)
            } else {
                let sent = state.sent + k;
                (
                    TunnelState { held: state.held, sent },
                    TunnelAction::Write { from: sent, to: state.held },
                )
            }
        },
        TunnelEvent::WriteWouldBlock => if state.sent < state.held {
            (state, TunnelAction::PauseThenWrite { from: state.sent, to: state.held })
        } else {
            (idle, TunnelAction::Read)
        },
        TunnelEvent::WriteFailed => (state, TunnelAction::Stop),
    }
}

/// A tunnel is closed once both of its directions are done.
pub fn tunnel_closed(client_done: bool, server_done: bool) -> (r: bool)
    ensures
        r == (client_done && server_done),
{
    client_done && server_done
}

/// Runs one direction of a tunnel over bytes at hand: everything left in
/// `source` reaches `sink`, in order and unchanged.
pub fn tunnel_direction(source: &mut ByteSource, sink: &mut Vec<u8>)
    requires
        old(source).wf(),
    ensures
        final(source).bytes == old(source).bytes,
        final(source).pos == old(source).bytes@.len(),
        final(sink)@ == old(sink)@ + old(source).rest(),
{
    let ghost s = source.bytes@;
    let ghost start = source.pos as int;
    let ghost before = sink@;
    let ghost origin = *source;
    let len = source.bytes.len();
    let mut state = TunnelState { held: 0, sent: 0 };
    let mut open = true;
    proof {
        assert(s.subrange(start, start) == Seq::<u8>::empty());
        assert(before + Seq::<u8>::empty() == before);
    }
    while open
        invariant
            origin == *old(source),
            before == old(sink)@,
            s == origin.bytes@,
            start == origin.pos,
            source.bytes == origin.bytes,
            len == s.len(),
            start <= source.pos <= len,
            sink@ == before + s.subrange(start, source.pos as int),
            !open ==> source.pos == len,
        decreases len - source.pos + if open { 1int } else { 0int },
    {
        let rest = len - source.pos;
        let n = if rest <= TUNNEL_BUFFER {
            rest
        } else {
            TUNNEL_BUFFER
        };
        let (held, action) = tunnel_step(state, TunnelEvent::Read(n));
        match action {
            TunnelAction::Write { from, to } => {
                let cur = source.pos;
                let data = slice_subrange(source.bytes, cur + from, cur + to);
                sink.extend_from_slice(data);
                source.pos = cur + to;
                proof {
                    assert(s.subrange(start, cur as int) + data@ == s.subrange(start, cur + to));
                    assert(before + s.subrange(start, cur as int) + data@ == before + (s.subrange(
                        start,
                        cur as int,
                    ) + data@));
                }
                let (idle, _) = tunnel_step(held, TunnelEvent::Wrote(to - from));
                state = idle;
            },
            _ => {
                open = false;
            },
        }
    }
    proof {
        assert(s.skip(start) == s.subrange(start, len as int));
    }
}

/// What a tunnel moved.
pub struct TunnelOutcome {
    /// The bytes that reached the server.
    pub to_server: Vec<u8>,
    /// The bytes that reached the client.
    pub to_client: Vec<u8>,
}

/// Runs a tunnel between two streams whose bytes are at hand: each side
/// receives exactly what the other had left to send. Nothing is framed,
/// inspected or changed.
pub fn tunnel_connection(client: &mut ByteSource, server: &mut ByteSource) -> (r: TunnelOutcome)
    requires
        old(client).wf(),
        old(server).wf(),
    ensures
        final(client).bytes == old(client).bytes,
        final(server).bytes == old(server).bytes,
        final(client).wf(),
        final(server).wf(),
        r.to_server@ == old(client).rest(),
        r.to_client@ == old(server).rest(),
{
    let mut to_server: Vec<u8> = Vec::new();
    let mut to_client: Vec<u8> = Vec::new();
    let ghost c = client.rest();
    let ghost b = server.rest();
    tunnel_direction(client, &mut to_server);
    tunnel_direction(server, &mut to_client);
    assert(Seq::<u8>::empty() + c == c);
    assert(Seq::<u8>::empty() + b == b);
    TunnelOutcome { to_server, to_client }
}

} // verus!
