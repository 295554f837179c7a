//! What the proxy writes as a chunked body can be read back: the chunks
//! that `chunk_frames` makes of some data are a complete chunked body whose
//! chunk data is that data.

use crate::numbers::{digit_char, digit_value, digits_value, number_text};
use crate::proxy::chunked::{chunked_body, find_byte, line_end, size_of_line, Framed};
use crate::compression::zstd_encoded;
use crate::proxy::handlers::{chunk_frames, compressed_head, resent, CHUNK_LEN};
use crate::proxy::headers::Fields;
use crate::text::{drop_spaces, find_char, is_space, skip_spaces, trimmed};
use vstd::prelude::*;
use vstd::utf8::{
    encode_utf8, encode_utf8_decode_utf8, encode_utf8_valid_utf8, is_ascii_chars,
    is_ascii_chars_encode_utf8,
};

verus! {

/// Is every character of `t` a hexadecimal digit?
pub open spec fn all_hex(t: Seq<char>) -> bool {
    forall|i: int| 0 <= i < t.len() ==> digit_value(#[trigger] t[i], 16) is Some
}

/// A hexadecimal digit is an ASCII character, and none that has a meaning
/// of its own on a size line.
pub proof fn lemma_hex_digit_is_plain(c: char)
    requires
        digit_value(c, 16) is Some,
    ensures
        '\0' <= c <= '\u{7f}',
        c != ';',
        c != '+',
        !is_space(c),
        c as u8 != 10,
{
    let u = c as u32;
    assert(0x30 <= u <= 0x39 || 0x61 <= u <= 0x66 || 0x41 <= u <= 0x46);
    assert('\0' as u32 == 0);
    assert('\u{7f}' as u32 == 0x7f);
    assert(';' as u32 == 0x3b);
    assert('+' as u32 == 0x2b);
}

/// A number written in base sixteen is one digit or more and spells itself.
pub proof fn lemma_hex_text_value(n: nat)
    ensures
        number_text(n, 16).len() > 0,
        all_hex(number_text(n, 16)),
        digits_value(number_text(n, 16), 16) == Some(n),
    decreases n,
{
    let t = number_text(n, 16);
    if n < 16 {
        assert(digit_value(digit_char(n as int), 16) == Some(n as int));
        assert(t.drop_last() =~= Seq::<char>::empty());
        assert(digits_value(t.drop_last(), 16) == Some(0nat));
    } else {
        lemma_hex_text_value(n / 16);
        let high = number_text(n / 16, 16);
        let c = digit_char((n % 16) as int);
        assert(digit_value(c, 16) == Some((n % 16) as int));
        assert(t.drop_last() =~= high);
        assert(t.last() == c);
        assert forall|i: int| 0 <= i < t.len() implies digit_value(#[trigger] t[i], 16) is Some by {
            if i < high.len() {
                assert(t[i] == high[i]);
            }
        }
    }
}

/// Where no character at or after `i` is `c`, the search for `c` runs to
/// the end.
pub proof fn lemma_find_char_absent(s: Seq<char>, c: char, i: int)
    requires
        0 <= i <= s.len(),
        forall|k: int| i <= k < s.len() ==> #[trigger] s[k] != c,
    ensures
        find_char(s, c, i) == s.len(),
    decreases s.len() - i,
{
    if i < s.len() {
        lemma_find_char_absent(s, c, i + 1);
    }
}

/// The search for a byte stops at its first occurrence.
pub proof fn lemma_find_byte_first(s: Seq<u8>, b: u8, i: int, j: int)
    requires
        0 <= i <= j < s.len(),
        forall|k: int| i <= k < j ==> #[trigger] s[k] != b,
        s[j] == b,
    ensures
        find_byte(s, b, i) == j,
    decreases j - i,
{
    if i < j {
        lemma_find_byte_first(s, b, i + 1, j);
    }
}

/// The size line that is written for a chunk of `n` bytes: `n` in upper-case
/// hexadecimal and a line ending.
pub open spec fn size_line(n: nat) -> Seq<u8> {
    encode_utf8(number_text(n, 16) + "\r\n"@)
}

/// A size line that was written states the size it was written for; it is
/// one byte for each character, and its only line feed is its last byte.
pub proof fn lemma_size_line_reads_back(n: nat)
    requires
        n <= usize::MAX,
    ensures
        size_of_line(size_line(n)) == Some(n),
        size_line(n).len() == number_text(n, 16).len() + 2,
        size_line(n).last() == 10,
        forall|i: int| 0 <= i < size_line(n).len() - 1 ==> #[trigger] size_line(n)[i] != 10,
{
    reveal_strlit("\r\n");
    let t = number_text(n, 16);
    let crlf = "\r\n"@;
    let chars = t + crlf;
    let line = size_line(n);
    lemma_hex_text_value(n);
    assert(crlf.len() == 2 && crlf[0] == '\r' && crlf[1] == '\n');
    assert(is_ascii_chars(t)) by {
        assert forall|i: int| 0 <= i < t.len() implies '\0' <= #[trigger] t[i] <= '\u{7f}' by {
            lemma_hex_digit_is_plain(t[i]);
        }
    }
    assert(is_ascii_chars(chars)) by {
        assert forall|i: int| 0 <= i < chars.len() implies '\0' <= #[trigger] chars[i]
            <= '\u{7f}' by {
            if i < t.len() {
                assert(chars[i] == t[i]);
                lemma_hex_digit_is_plain(t[i]);
            } else {
                assert(chars[i] == crlf[i - t.len()]);
            }
        }
    }
    is_ascii_chars_encode_utf8(chars);
    is_ascii_chars_encode_utf8(t);
    assert(line.len() == t.len() + 2);
    assert(line[line.len() - 1] == chars[t.len() as int + 1] as u8);
    assert(chars[t.len() as int + 1] == '\n');
    assert forall|i: int| 0 <= i < line.len() - 1 implies #[trigger] line[i] != 10 by {
        assert(line[i] == chars[i] as u8);
        if i < t.len() {
            assert(chars[i] == t[i]);
            lemma_hex_digit_is_plain(t[i]);
        } else {
            assert(chars[i] == crlf[0]);
        }
    }
    // What is left of the line without its ending is the number's text.
    let raw = line.take(line.len() - 2);
    assert(raw =~= encode_utf8(t)) by {
        assert forall|i: int| 0 <= i < t.len() implies raw[i] == encode_utf8(t)[i] by {
            assert(raw[i] == line[i]);
            assert(line[i] == chars[i] as u8);
            assert(chars[i] == t[i]);
            assert(encode_utf8(t)[i] == t[i] as u8);
        }
    }
    encode_utf8_valid_utf8(t);
    encode_utf8_decode_utf8(t);
    assert forall|k: int| 0 <= k < t.len() implies #[trigger] t[k] != ';' by {
        lemma_hex_digit_is_plain(t[k]);
    }
    lemma_find_char_absent(t, ';', 0);
    assert(t.take(t.len() as int) =~= t);
    lemma_hex_digit_is_plain(t[0]);
    lemma_hex_digit_is_plain(t[t.len() - 1]);
    assert(!is_space(t[0]));
    assert(!is_space(t[t.len() - 1]));
    assert(skip_spaces(t, 0) == 0);
    assert(drop_spaces(t, 0, t.len() as int) == t.len());
    assert(trimmed(t) =~= t);
    assert(t[0] != '+');
}

/// The chunks written for `data` read back as a complete body. Wherever
/// they stand in a stream, reading from their start finds a body that ends
/// where they end and whose chunk data is `data`.
pub proof fn law_chunk_frames_read_back(prefix: Seq<u8>, data: Seq<u8>)
    ensures
        chunked_body(prefix + chunk_frames(data), prefix.len() as int) == (Framed::Complete {
            end: (prefix.len() + chunk_frames(data).len()) as int,
            payload: data,
        }),
    decreases data.len(),
{
    reveal_strlit("\r\n");
    reveal_strlit("0\r\n\r\n");
    let frames = chunk_frames(data);
    let s = prefix + frames;
    let pos = prefix.len() as int;
    let crlf = "\r\n"@;
    assert(crlf.len() == 2 && crlf[0] == '\r' && crlf[1] == '\n');
    assert(is_ascii_chars(crlf));
    is_ascii_chars_encode_utf8(crlf);
    let ending = encode_utf8(crlf);
    if data.len() == 0 {
        let last = "0\r\n\r\n"@;
        assert(last.len() == 5 && last[0] == '0' && last[1] == '\r' && last[2] == '\n' && last[3]
            == '\r' && last[4] == '\n');
        assert(is_ascii_chars(last));
        is_ascii_chars_encode_utf8(last);
        lemma_size_line_reads_back(0);
        let line = size_line(0);
        assert(number_text(0, 16) =~= seq!['0']);
        assert(frames.len() == 5);
        assert(frames.take(3) =~= line) by {
            let chars = number_text(0, 16) + crlf;
            assert(is_ascii_chars(chars)) by {
                assert forall|i: int| 0 <= i < chars.len() implies '\0' <= #[trigger] chars[i]
                    <= '\u{7f}' by {
                    if i >= 1 {
                        assert(chars[i] == crlf[i - 1]);
                    }
                }
            }
            is_ascii_chars_encode_utf8(chars);
            assert forall|i: int| 0 <= i < 3 implies frames.take(3)[i] == line[i] by {
                assert(frames[i] == last[i] as u8);
                assert(line[i] == chars[i] as u8);
                if i >= 1 {
                    assert(chars[i] == crlf[i - 1]);
                }
            }
        }
        assert forall|k: int| pos <= k < pos + 2 implies #[trigger] s[k] != 10 by {
            assert(s[k] == frames[k - pos]);
            assert(frames[k - pos] == line[k - pos]);
        }
        assert(s[pos + 2] == 10) by {
            assert(s[pos + 2] == frames[2]);
            assert(frames[2] == line[2]);
        }
        lemma_find_byte_first(s, 10, pos, pos + 2);
        assert(s.subrange(pos, pos + 3) =~= line);
        assert(data =~= Seq::<u8>::empty());
    } else {
        let n: int = if data.len() <= CHUNK_LEN {
            data.len() as int
        } else {
            CHUNK_LEN as int
        };
        let line = size_line(n as nat);
        let chunk = data.take(n);
        let rest = chunk_frames(data.skip(n));
        lemma_size_line_reads_back(n as nat);
        assert(frames == line + chunk + ending + rest);
        let e = pos + line.len();
        assert forall|k: int| pos <= k < e - 1 implies #[trigger] s[k] != 10 by {
            assert(s[k] == line[k - pos]);
        }
        assert(s[e - 1] == 10) by {
            assert(s[e - 1] == line[line.len() - 1]);
        }
        lemma_find_byte_first(s, 10, pos, e - 1);
        assert(line_end(s, pos) == Some(e));
        assert(s.subrange(pos, e) =~= line);
        assert(ending.len() == 2);
        let front = prefix + line + chunk + ending;
        assert(s =~= front + rest);
        assert(front.len() == e + n + 2);
        law_chunk_frames_read_back(front, data.skip(n));
        assert(s.subrange(e, e + n) =~= chunk);
        assert(chunk + data.skip(n) =~= data);
        assert(front.len() + rest.len() == prefix.len() + frames.len());
    }
}

/// A response that the proxy sends on as zstd can be read back by its
/// client: after the head comes a complete chunked body, it runs to the end
/// of what was sent, and its chunk data is the zstd form of the body.
pub proof fn law_packed_response_reads_back(
    status: Seq<char>,
    fields: Fields,
    body: Seq<u8>,
    zstd_level: i32,
)
    ensures
        ({
            let sent = resent(status, fields, body, true, zstd_level).0;
            let head = encode_utf8(compressed_head(status, fields));
            chunked_body(sent, head.len() as int) == (Framed::Complete {
                end: sent.len() as int,
                payload: zstd_encoded(body, zstd_level as int),
            })
        }),
{
    let head = encode_utf8(compressed_head(status, fields));
    law_chunk_frames_read_back(head, zstd_encoded(body, zstd_level as int));
}

} // verus!
