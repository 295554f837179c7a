//! The chunked transfer coding: its grammar, and a step-by-step relay that
//! tells its driver what to move next.

use crate::error::Failure;
use crate::numbers::{parse_number, parse_unsigned};
use crate::text::{chars_of, find_char, find_in, trim_bounds, trimmed, utf8_text};
use vstd::prelude::*;
use vstd::slice::slice_subrange;
use vstd::utf8::{decode_utf8, valid_utf8};

verus! {

/// Index of the first byte `b` at or after `i`, or the length of `s`.
pub open spec fn find_byte(s: Seq<u8>, b: u8, i: int) -> int
    decreases s.len() - i,
{
    if 0 <= i < s.len() && s[i] != b {
        find_byte(s, b, i + 1)
    } else {
        i
    }
}

pub proof fn lemma_find_byte_bounds(s: Seq<u8>, b: u8, i: int)
    requires
        0 <= i <= s.len(),
    ensures
        i <= find_byte(s, b, i) <= s.len(),
        find_byte(s, b, i) < s.len() ==> s[find_byte(s, b, i)] == b,
    decreases s.len() - i,
{
    if i < s.len() && s[i] != b {
        lemma_find_byte_bounds(s, b, i + 1);
    }
}

/// The index just after the line that starts at `pos`: one past its line
/// feed. `None` when no line feed follows.
pub open spec fn line_end(s: Seq<u8>, pos: int) -> Option<int> {
    let i = find_byte(s, 10, pos);
    if 0 <= i < s.len() {
        Some(i + 1)
    } else {
        None
    }
}

/// The chunk length that a size line states.
///
/// The last two bytes of the line are its ending and are left out. What
/// remains must be UTF-8; a chunk extension, from the first `;` on, is not
/// interpreted; the rest, trimmed, must be a hexadecimal number that fits a
/// `usize`.
pub open spec fn size_of_line(line: Seq<u8>) -> Option<nat> {
    if line.len() < 2 {
        None
    } else {
        let raw = line.take(line.len() - 2);
        if !valid_utf8(raw) {
            None
        } else {
            let text = decode_utf8(raw);
            let digits = trimmed(text.take(find_char(text, ';', 0)));
            parse_unsigned(digits, 16, usize::MAX as nat)
        }
    }
}

/// What a byte sequence is, read as a chunked body.
pub enum Framed {
    /// A whole body: where it ends, and the chunk data it carries.
    Complete { end: int, payload: Seq<u8> },
    /// The sequence stops before the body is complete.
    Truncated,
    /// A size line does not state a chunk length.
    Malformed,
}

impl Framed {
    /// This outcome with `data` put in front of its payload.
    pub open spec fn after(self, data: Seq<u8>) -> Framed {
        match self {
            Framed::Complete { end, payload } => Framed::Complete { end, payload: data + payload },
            other => other,
        }
    }
}

/// Reads `s` from `pos` as a chunked body: size line, chunk data and a
/// two-byte ending, again and again, until a chunk of size zero, whose size
/// line is followed by the two bytes that end the body.
pub open spec fn chunked_body(s: Seq<u8>, pos: int) -> Framed
    decreases s.len() - pos,
{
    match line_end(s, pos) {
        None => Framed::Truncated,
        Some(e) => {
            if pos < 0 || e <= pos {
                Framed::Truncated
            } else {
                match size_of_line(s.subrange(pos, e)) {
                    None => Framed::Malformed,
                    Some(n) => {
                        if n == 0 {
                            if e + 2 <= s.len() {
                                Framed::Complete { end: e + 2, payload: Seq::empty() }
                            } else {
                                Framed::Truncated
                            }
                        } else if e + n + 2 <= s.len() {
                            chunked_body(s, e + n + 2).after(s.subrange(e, e + n))
                        } else {
                            Framed::Truncated
                        }
                    },
                }
            }
        },
    }
}

/// A complete body ends after its start and within the bytes.
pub proof fn lemma_chunked_body_bounds(s: Seq<u8>, pos: int)
    requires
        0 <= pos <= s.len(),
    ensures
        chunked_body(s, pos) matches Framed::Complete { end, payload } ==> pos < end <= s.len()
            && payload.len() <= end - pos,
    decreases s.len() - pos,
{
    lemma_find_byte_bounds(s, 10, pos);
    match line_end(s, pos) {
        Some(e) => {
            if e > pos {
                match size_of_line(s.subrange(pos, e)) {
                    Some(n) => {
                        if n > 0 && e + n + 2 <= s.len() {
                            lemma_chunked_body_bounds(s, e + n + 2);
                        }
                    },
                    None => {},
                }
            }
        },
        None => {},
    }
}

/// Reads the chunk length off a size line (the line feed included).
pub fn chunk_size(line: &[u8]) -> (r: Option<usize>)
    ensures
        r is Some <==> size_of_line(line@) is Some,
        r matches Some(n) ==> n == size_of_line(line@)->0,
{
    broadcast use vstd::utf8::encode_utf8_decode_utf8;

    if line.len() < 2 {
        return None;
    }
    let raw = slice_subrange(line, 0, line.len() - 2);
    assert(raw@ == line@.take(line.len() - 2));
    let text = match utf8_text(raw) {
        Some(text) => text,
        None => {
            return None;
        },
    };
    let v = chars_of(text);
    let n = v.len();
    assert(v@.subrange(0, n as int) == v@);
    let semi = find_in(&v, ';', 0, n);
    let (a, b) = trim_bounds(&v, 0, semi);
    assert(v@.take(semi as int) == v@.subrange(0, semi as int));
    match parse_number(&v, a, b, 16, usize::MAX as u64) {
        Some(size) => Some(size as usize),
        None => None,
    }
}

/// What the driver of a relay has to do next.
#[derive(Debug, PartialEq, Eq, Copy, Clone, Structural)]
pub enum RelayAction {
    /// Read one line, through its line feed, and hand it to the relay.
    ReadSizeLine,
    /// Move on this many bytes of chunk data.
    CopyPayload(usize),
    /// Move on the two bytes that end a chunk.
    CopyDelimiter,
    /// Move on the two bytes that end the body.
    CopyTrailer,
    /// Nothing: the body is complete.
    Finish,
}

/// A relay of one chunked body. It does no I/O: it is told what was read and
/// answers with what to move next, keeping count of the bytes.
///
/// With `keep_framing` the sink receives every byte of the body; without it
/// the sink receives the chunk data only.
#[derive(Debug, Copy, Clone)]
pub struct ChunkedRelay {
    pub pending: RelayAction,
    pub keep_framing: bool,
    pub bytes_read: usize,
    pub bytes_written: usize,
}

/// `a + b`, or the largest `usize` where the sum does not fit.
pub open spec fn capped_sum(a: usize, b: usize) -> usize {
    if a + b > usize::MAX {
        usize::MAX
    } else {
        (a + b) as usize
    }
}

impl ChunkedRelay {
    /// The relay after `n` bytes were read, framing if `framing` holds and
    /// chunk data otherwise, with `pending` to do next.
    pub open spec fn moved(self, n: usize, framing: bool, pending: RelayAction) -> ChunkedRelay {
        ChunkedRelay {
            pending,
            keep_framing: self.keep_framing,
            bytes_read: capped_sum(self.bytes_read, n),
            bytes_written: if framing && !self.keep_framing {
                self.bytes_written
            } else {
                capped_sum(self.bytes_written, n)
            },
        }
    }

    /// A relay at the start of a body.
    pub fn new(keep_framing: bool) -> (r: ChunkedRelay)
        ensures
            r == (ChunkedRelay {
                pending: RelayAction::ReadSizeLine,
                keep_framing,
                bytes_read: 0,
                bytes_written: 0,
            }),
    {
        ChunkedRelay { pending: RelayAction::ReadSizeLine, keep_framing, bytes_read: 0, bytes_written: 0 }
    }

    fn count(&mut self, n: usize, framing: bool, pending: RelayAction)
        ensures
            *final(self) == old(self).moved(n, framing, pending),
    {
        self.bytes_read = self.bytes_read.saturating_add(n);
        if !framing || self.keep_framing {
            self.bytes_written = self.bytes_written.saturating_add(n);
        }
        self.pending = pending;
    }

    /// Takes the size line that was read and says what to move next.
    ///
    /// Fails with `InvalidInput`, and changes nothing, when no size line is
    /// due; with `InvalidData`, and changes nothing, when the line states no
    /// chunk length.
    pub fn on_size_line(&mut self, line: &[u8]) -> (r: Result<RelayAction, Failure>)
        ensures
            old(self).pending != RelayAction::ReadSizeLine ==> r == Err::<RelayAction, Failure>(
                Failure::InvalidInput,
            ) && *final(self) == *old(self),
            old(self).pending == RelayAction::ReadSizeLine ==> match size_of_line(line@) {
                None => r == Err::<RelayAction, Failure>(Failure::InvalidData) && *final(self)
                    == *old(self),
                Some(n) => {
                    let pending = if n == 0 {
                        RelayAction::CopyTrailer
                    } else {
                        RelayAction::CopyPayload(n as usize)
                    };
                    r == Ok::<RelayAction, Failure>(pending) && *final(self) == old(self).moved(
                        line.len(),
                        true,
                        pending,
                    )
                },
            },
    {
        if self.pending != RelayAction::ReadSizeLine {
            return Err(Failure::InvalidInput);
        }
        match chunk_size(line) {
            None => Err(Failure::InvalidData),
            Some(size) => {
                let pending = if size == 0 {
                    RelayAction::CopyTrailer
                } else {
                    RelayAction::CopyPayload(size)
                };
                self.count(line.len(), true, pending);
                Ok(pending)
            },
        }
    }

    /// Takes the number of bytes that were moved for the pending action and
    /// says what to move next.
    ///
    /// Fails with `UnexpectedEof`, and changes nothing, when fewer bytes were
    /// moved than were due; with `InvalidInput` when nothing was to be
    /// moved or more was moved than was due.
    pub fn on_moved(&mut self, n: usize) -> (r: Result<RelayAction, Failure>)
        ensures
            match old(self).pending {
                RelayAction::CopyPayload(due) => if n == due {
                    r == Ok::<RelayAction, Failure>(RelayAction::CopyDelimiter) && *final(self)
                        == old(self).moved(n, false, RelayAction::CopyDelimiter)
                } else {
                    r == Err::<RelayAction, Failure>(
                        if n < due {
                            Failure::UnexpectedEof
                        } else {
                            Failure::InvalidInput
                        },
                    ) && *final(self) == *old(self)
                },
                RelayAction::CopyDelimiter => if n == 2 {
                    r == Ok::<RelayAction, Failure>(RelayAction::ReadSizeLine) && *final(self)
                        == old(self).moved(n, true, RelayAction::ReadSizeLine)
                } else {
                    r == Err::<RelayAction, Failure>(
                        if n < 2 {
                            Failure::UnexpectedEof
                        } else {
                            Failure::InvalidInput
                        },
                    ) && *final(self) == *old(self)
                },
                RelayAction::CopyTrailer => if n == 2 {
                    r == Ok::<RelayAction, Failure>(RelayAction::Finish) && *final(self) == old(
                        self,
                    ).moved(n, true, RelayAction::Finish)
                } else {
                    r == Err::<RelayAction, Failure>(
                        if n < 2 {
                            Failure::UnexpectedEof
                        } else {
                            Failure::InvalidInput
                        },
                    ) && *final(self) == *old(self)
                },
                _ => r == Err::<RelayAction, Failure>(Failure::InvalidInput) && *final(self)
                    == *old(self),
            },
    {
        let (due, framing, pending) = match self.pending {
            RelayAction::CopyPayload(due) => (due, false, RelayAction::CopyDelimiter),
            RelayAction::CopyDelimiter => (2, true, RelayAction::ReadSizeLine),
            RelayAction::CopyTrailer => (2, true, RelayAction::Finish),
            _ => {
                return Err(Failure::InvalidInput);
            },
        };
        if n < due {
            Err(Failure::UnexpectedEof)
        } else if n > due {
            Err(Failure::InvalidInput)
        } else {
            self.count(n, framing, pending);
            Ok(pending)
        }
    }
}

} // verus!
