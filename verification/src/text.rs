//! Character-level helpers shared by the HTTP and path code.
//!
//! Text is modelled as `Seq<char>`. The executable functions work on a
//! `Vec<char>` copy of a string, addressed by half-open windows `[lo, hi)`,
//! and every contract is stated over the window's subsequence.

use vstd::prelude::*;
use vstd::string::*;
use vstd::utf8::{decode_utf8, valid_utf8};

verus! {

/// What Unicode (and therefore `str::trim`, `str::split_whitespace`) counts as
/// white space: the code points with the `White_Space` property.
pub open spec fn is_space(c: char) -> bool {
    let u = c as u32;
    ||| 0x09 <= u <= 0x0D
    ||| u == 0x20
    ||| u == 0x85
    ||| u == 0xA0
    ||| u == 0x1680
    ||| 0x2000 <= u <= 0x200A
    ||| u == 0x2028
    ||| u == 0x2029
    ||| u == 0x202F
    ||| u == 0x205F
    ||| u == 0x3000
}

/// Index of the first character at or after `i` that is not white space, or
/// the length of `s` when there is none.
pub open spec fn skip_spaces(s: Seq<char>, i: int) -> int
    decreases s.len() - i,
{
    if 0 <= i < s.len() && is_space(s[i]) {
        skip_spaces(s, i + 1)
    } else {
        i
    }
}

/// Index of the first white-space character at or after `i`, or the length of
/// `s` when there is none.
pub open spec fn skip_word(s: Seq<char>, i: int) -> int
    decreases s.len() - i,
{
    if 0 <= i < s.len() && !is_space(s[i]) {
        skip_word(s, i + 1)
    } else {
        i
    }
}

/// The end of `s[lo..hi)` once its trailing white space is dropped.
pub open spec fn drop_spaces(s: Seq<char>, lo: int, hi: int) -> int
    decreases hi - lo,
{
    if lo < hi <= s.len() && is_space(s[hi - 1]) {
        drop_spaces(s, lo, hi - 1)
    } else {
        hi
    }
}

/// `s` without its leading and trailing white space.
pub open spec fn trimmed(s: Seq<char>) -> Seq<char> {
    let a = skip_spaces(s, 0);
    let b = drop_spaces(s, a, s.len() as int);
    s.subrange(a, b)
}

/// Index of the first occurrence of `c` at or after `i`, or the length of `s`
/// when there is none.
pub open spec fn find_char(s: Seq<char>, c: char, i: int) -> int
    decreases s.len() - i,
{
    if 0 <= i < s.len() && s[i] != c {
        find_char(s, c, i + 1)
    } else {
        i
    }
}

/// The pieces of `s` between occurrences of `sep`, as `str::split` yields them:
/// there is always at least one piece, and a trailing separator leaves an
/// empty last piece.
pub open spec fn pieces(s: Seq<char>, sep: char) -> Seq<Seq<char>>
    decreases s.len(),
{
    let i = find_char(s, sep, 0);
    if 0 <= i < s.len() {
        seq![s.take(i)] + pieces(s.skip(i + 1), sep)
    } else {
        seq![s]
    }
}

/// The second white-space separated word of `s`, if it has two.
pub open spec fn second_word(s: Seq<char>) -> Option<Seq<char>> {
    let first_end = skip_word(s, skip_spaces(s, 0));
    let start = skip_spaces(s, first_end);
    if start < s.len() {
        Some(s.subrange(start, skip_word(s, start)))
    } else {
        None
    }
}

/// Does `needle` occur in `s` as a contiguous run?
pub open spec fn contains_run(s: Seq<char>, needle: Seq<char>) -> bool {
    exists|i: int| 0 <= i && i + needle.len() <= s.len() && #[trigger] s.subrange(i, i + needle.len()) == needle
}

/// `line` without one trailing carriage return.
pub open spec fn strip_cr(line: Seq<char>) -> Seq<char> {
    if line.len() > 0 && line.last() == '\r' {
        line.drop_last()
    } else {
        line
    }
}

/// The lines of `s` as `str::lines` yields them: split after each line feed,
/// the line feed and a carriage return before it left out, and no empty line
/// after a final line feed.
pub open spec fn lines_of(s: Seq<char>) -> Seq<Seq<char>>
    decreases s.len(),
{
    if s.len() == 0 {
        Seq::empty()
    } else {
        let i = find_char(s, '\n', 0);
        if 0 <= i < s.len() {
            seq![strip_cr(s.take(i))] + lines_of(s.skip(i + 1))
        } else {
            seq![s]
        }
    }
}

/// Does some piece of `ps`, once trimmed, equal `word`?
pub open spec fn some_trimmed_is(ps: Seq<Seq<char>>, word: Seq<char>) -> bool {
    exists|i: int| 0 <= i < ps.len() && trimmed(#[trigger] ps[i]) == word
}

/// The lower-case form of a text, as `str::to_lowercase` of the standard
/// library gives it (the Unicode lower-case mapping).
pub uninterp spec fn lowercased(s: Seq<char>) -> Seq<char>;

/// Calls `str::to_lowercase`. Trusted: the result is named `lowercased`, a
/// function of the input text alone; of the empty text it is the empty
/// text. Nothing else is claimed of it.
#[verifier::external_body]
pub(crate) fn lowercase(s: &str) -> (r: String)
    ensures
        r@ == lowercased(s@),
        s@.len() == 0 ==> r@.len() == 0,
{
    s.to_lowercase()
}

/// Calls `std::str::from_utf8`. Trusted: the call succeeds exactly on
/// well-formed UTF-8, and the text it gives is the one those bytes encode.
#[verifier::external_body]
pub(crate) fn utf8_text(bytes: &[u8]) -> (r: Option<&str>)
    ensures
        r is Some <==> valid_utf8(bytes@),
        r matches Some(s) ==> s@ == decode_utf8(bytes@),
{
    std::str::from_utf8(bytes).ok()
}

/// The text that `String::from_utf8_lossy` makes of bytes: the text they
/// encode, with U+FFFD in place of what is no UTF-8.
pub uninterp spec fn lossy_decoded(bytes: Seq<u8>) -> Seq<char>;

/// Calls `String::from_utf8_lossy`. Trusted: the result is the one named
/// `lossy_decoded`; for well-formed UTF-8 it is the text the bytes encode.
#[verifier::external_body]
pub(crate) fn lossy_text(bytes: &[u8]) -> (r: String)
    ensures
        r@ == lossy_decoded(bytes@),
        valid_utf8(bytes@) ==> r@ == decode_utf8(bytes@),
{
    String::from_utf8_lossy(bytes).into_owned()
}

pub proof fn lemma_some_trimmed_is_cons(head: Seq<char>, rest: Seq<Seq<char>>, word: Seq<char>)
    ensures
        some_trimmed_is(seq![head] + rest, word) == (trimmed(head) == word || some_trimmed_is(
            rest,
            word,
        )),
{
    let all = seq![head] + rest;
    if some_trimmed_is(all, word) {
        let i = choose|i: int| 0 <= i < all.len() && trimmed(#[trigger] all[i]) == word;
        if i > 0 {
            assert(all[i] == rest[i - 1]);
        }
    }
    if trimmed(head) == word {
        assert(all[0] == head);
    }
    if some_trimmed_is(rest, word) {
        let j = choose|j: int| 0 <= j < rest.len() && trimmed(#[trigger] rest[j]) == word;
        assert(all[j + 1] == rest[j]);
    }
}

/// Copies the characters of `s` into a vector for constant-time indexing.
pub fn chars_of(s: &str) -> (out: Vec<char>)
    ensures
        out@ == s@,
{
    broadcast use vstd::string::group_string_axioms;

    let mut out: Vec<char> = Vec::new();
    for c in it: s.chars()
        invariant
            it.seq() == s@,
            out@ == s@.take(it.index()),
    {
        out.push(c);
    }
    out
}

/// Executable form of [`is_space`].
pub fn is_space_char(c: char) -> (r: bool)
    ensures
        r == is_space(c),
{
    let u: u32 = c as u32;
    (0x09 <= u && u <= 0x0D) || u == 0x20 || u == 0x85 || u == 0xA0 || u == 0x1680 || (0x2000 <= u
        && u <= 0x200A) || u == 0x2028 || u == 0x2029 || u == 0x202F || u == 0x205F || u == 0x3000
}

/// First position in `[from, hi)` that holds `c`, or `hi`.
pub fn find_in(v: &Vec<char>, c: char, from: usize, hi: usize) -> (r: usize)
    requires
        from <= hi <= v.len(),
    ensures
        from <= r <= hi,
        r == from + find_char(v@.subrange(from as int, hi as int), c, 0),
{
    let ghost w = v@.subrange(from as int, hi as int);
    let mut i: usize = from;
    while i < hi && v[i] != c
        invariant
            from <= i <= hi <= v.len(),
            w == v@.subrange(from as int, hi as int),
            find_char(w, c, 0) == find_char(w, c, i - from),
        decreases hi - i,
    {
        assert(w[i - from] == v@[i as int]);
        i += 1;
    }
    proof {
        if i < hi {
            assert(w[i - from] == v@[i as int]);
        }
    }
    i
}

/// The bounds of `v[lo..hi)` once leading and trailing white space is dropped.
pub fn trim_bounds(v: &Vec<char>, lo: usize, hi: usize) -> (r: (usize, usize))
    requires
        lo <= hi <= v.len(),
    ensures
        lo <= r.0 <= r.1 <= hi,
        v@.subrange(r.0 as int, r.1 as int) == trimmed(v@.subrange(lo as int, hi as int)),
{
    let ghost w = v@.subrange(lo as int, hi as int);
    let mut a: usize = lo;
    while a < hi && is_space_char(v[a])
        invariant
            lo <= a <= hi <= v.len(),
            w == v@.subrange(lo as int, hi as int),
            skip_spaces(w, 0) == skip_spaces(w, a - lo),
        decreases hi - a,
    {
        assert(w[a - lo] == v@[a as int]);
        a += 1;
    }
    proof {
        if a < hi {
            assert(w[a - lo] == v@[a as int]);
        }
    }
    let mut b: usize = hi;
    while a < b && is_space_char(v[b - 1])
        invariant
            lo <= a <= b <= hi <= v.len(),
            w == v@.subrange(lo as int, hi as int),
            drop_spaces(w, a - lo, w.len() as int) == drop_spaces(w, a - lo, b - lo),
        decreases b - a,
    {
        assert(w[b - 1 - lo] == v@[b - 1]);
        b -= 1;
    }
    proof {
        if a < b {
            assert(w[b - 1 - lo] == v@[b - 1]);
        }
        assert(w.subrange(a - lo, b - lo) == v@.subrange(a as int, b as int));
    }
    (a, b)
}

/// Is `v[lo..hi)` exactly the text `word`?
pub fn window_is(v: &Vec<char>, lo: usize, hi: usize, word: &Vec<char>) -> (r: bool)
    requires
        lo <= hi <= v.len(),
    ensures
        r == (v@.subrange(lo as int, hi as int) == word@),
{
    let ghost w = v@.subrange(lo as int, hi as int);
    if hi - lo != word.len() {
        return false;
    }
    let mut i: usize = 0;
    while i < word.len()
        invariant
            lo <= hi <= v.len(),
            hi - lo == word.len(),
            i <= word.len(),
            w == v@.subrange(lo as int, hi as int),
            w.take(i as int) == word@.take(i as int),
        decreases word.len() - i,
    {
        if v[lo + i] != word[i] {
            assert(w[i as int] != word@[i as int]);
            return false;
        }
        assert(w.take(i + 1) == w.take(i as int).push(w[i as int]));
        assert(word@.take(i + 1) == word@.take(i as int).push(word@[i as int]));
        i += 1;
    }
    assert(w.take(w.len() as int) == w);
    assert(word@.take(word@.len() as int) == word@);
    true
}

/// Does some piece of `v` between occurrences of `sep`, once trimmed, equal
/// `word`?
pub fn any_piece_is(v: &Vec<char>, sep: char, word: &Vec<char>) -> (r: bool)
    ensures
        r == some_trimmed_is(pieces(v@, sep), word@),
{
    let n = v.len();
    let mut start: usize = 0;
    let mut found = false;
    let mut more = true;
    assert(v@.skip(0) == v@);
    while more
        invariant
            n == v.len(),
            start <= n,
            some_trimmed_is(pieces(v@, sep), word@) == (found || (more && some_trimmed_is(
                pieces(v@.skip(start as int), sep),
                word@,
            ))),
        decreases n - start + if more { 1int } else { 0int },
    {
        let end = find_in(v, sep, start, n);
        let (a, b) = trim_bounds(v, start, end);
        let hit = window_is(v, a, b, word);
        proof {
            let tail = v@.skip(start as int);
            assert(tail == v@.subrange(start as int, n as int));
            assert(tail.take(end - start) == v@.subrange(start as int, end as int));
            if end < n {
                assert(tail.skip(end - start + 1) == v@.skip(end + 1));
                lemma_some_trimmed_is_cons(
                    tail.take(end - start),
                    pieces(v@.skip(end + 1), sep),
                    word@,
                );
            } else {
                assert(tail.take(end - start) == tail);
                lemma_some_trimmed_is_cons(tail, Seq::empty(), word@);
                assert(seq![tail] + Seq::<Seq<char>>::empty() == seq![tail]);
            }
        }
        if hit {
            found = true;
        }
        if end < n {
            start = end + 1;
        } else {
            more = false;
        }
    }
    found
}

/// `s[a..b)` as an owned string.
pub fn slice_text(s: &str, a: usize, b: usize) -> (r: String)
    requires
        a <= b <= s@.len(),
    ensures
        r@ == s@.subrange(a as int, b as int),
{
    s.substring_char(a, b).to_owned()
}

/// First position at or after `i` that holds no white space, or the length.
pub fn skip_spaces_from(v: &Vec<char>, i: usize) -> (r: usize)
    requires
        i <= v.len(),
    ensures
        i <= r <= v.len(),
        r == skip_spaces(v@, i as int),
{
    let mut k: usize = i;
    while k < v.len() && is_space_char(v[k])
        invariant
            i <= k <= v.len(),
            skip_spaces(v@, i as int) == skip_spaces(v@, k as int),
        decreases v.len() - k,
    {
        k += 1;
    }
    k
}

/// First position at or after `i` that holds white space, or the length.
pub fn skip_word_from(v: &Vec<char>, i: usize) -> (r: usize)
    requires
        i <= v.len(),
    ensures
        i <= r <= v.len(),
        r == skip_word(v@, i as int),
{
    let mut k: usize = i;
    while k < v.len() && !is_space_char(v[k])
        invariant
            i <= k <= v.len(),
            skip_word(v@, i as int) == skip_word(v@, k as int),
        decreases v.len() - k,
    {
        k += 1;
    }
    k
}

/// The bounds of the second white-space separated word of `v`.
pub fn second_word_bounds(v: &Vec<char>) -> (r: Option<(usize, usize)>)
    ensures
        r is Some <==> second_word(v@) is Some,
        r matches Some((a, b)) ==> a <= b <= v.len() && v@.subrange(a as int, b as int)
            == second_word(v@)->0,
{
    let first = skip_spaces_from(v, 0);
    let first_end = skip_word_from(v, first);
    let start = skip_spaces_from(v, first_end);
    if start < v.len() {
        let end = skip_word_from(v, start);
        Some((start, end))
    } else {
        None
    }
}

/// Does `needle` occur somewhere in `v`?
pub fn contains_text(v: &Vec<char>, needle: &Vec<char>) -> (r: bool)
    ensures
        r == contains_run(v@, needle@),
{
    let m = needle.len();
    if m > v.len() {
        return false;
    }
    let last = v.len() - m;
    let mut i: usize = 0;
    while i < last
        invariant
            m == needle.len(),
            m <= v.len(),
            last == v.len() - m,
            i <= last,
            forall|k: int| 0 <= k < i ==> #[trigger] v@.subrange(k, k + m) != needle@,
        decreases last - i,
    {
        if window_is(v, i, i + m, needle) {
            return true;
        }
        i += 1;
    }
    window_is(v, last, last + m, needle)
}

/// The texts that the windows `bounds` cut out of `s`.
pub open spec fn windows(s: Seq<char>, bounds: Seq<(usize, usize)>) -> Seq<Seq<char>> {
    Seq::new(bounds.len(), |i: int| s.subrange(bounds[i].0 as int, bounds[i].1 as int))
}

/// Where the lines of `v` lie: one window for each line of `lines_of`.
pub fn line_bounds(v: &Vec<char>) -> (out: Vec<(usize, usize)>)
    ensures
        windows(v@, out@) == lines_of(v@),
        forall|i: int| 0 <= i < out.len() ==> (#[trigger] out@[i]).0 <= out@[i].1 <= v.len(),
{
    let n = v.len();
    let mut out: Vec<(usize, usize)> = Vec::new();
    let mut start: usize = 0;
    assert(v@.skip(0) == v@);
    assert(windows(v@, out@) == Seq::<Seq<char>>::empty());
    while start < n
        invariant
            n == v.len(),
            start <= n,
            lines_of(v@) == windows(v@, out@) + lines_of(v@.skip(start as int)),
            forall|i: int| 0 <= i < out.len() ==> (#[trigger] out@[i]).0 <= out@[i].1 <= v.len(),
        decreases n - start,
    {
        let end = find_in(v, '\n', start, n);
        let stop = if end < n && start < end && v[end - 1] == '\r' {
            end - 1
        } else {
            end
        };
        let ghost before = windows(v@, out@);
        proof {
            let tail = v@.skip(start as int);
            assert(tail == v@.subrange(start as int, n as int));
            let piece = tail.take(end - start);
            assert(piece == v@.subrange(start as int, end as int));
            if end < n {
                assert(tail.skip(end - start + 1) == v@.skip(end + 1));
                if start < end {
                    assert(piece.last() == v@[end - 1]);
                }
                assert(v@.subrange(start as int, stop as int) == strip_cr(piece));
            } else {
                assert(piece == tail);
                assert(lines_of(v@.skip(n as int)) == Seq::<Seq<char>>::empty());
            }
        }
        out.push((start, stop));
        proof {
            assert(windows(v@, out@) == before.push(v@.subrange(start as int, stop as int)));
        }
        start = if end < n {
            end + 1
        } else {
            n
        };
    }
    out
}

/// Where the pieces of `v` between occurrences of `sep` lie: one window for
/// each piece of `pieces`.
pub fn piece_bounds(v: &Vec<char>, sep: char) -> (out: Vec<(usize, usize)>)
    ensures
        windows(v@, out@) == pieces(v@, sep),
        forall|i: int| 0 <= i < out.len() ==> (#[trigger] out@[i]).0 <= out@[i].1 <= v.len(),
{
    let n = v.len();
    let mut out: Vec<(usize, usize)> = Vec::new();
    let mut start: usize = 0;
    let mut more = true;
    assert(v@.skip(0) == v@);
    assert(windows(v@, out@) + pieces(v@, sep) == pieces(v@, sep));
    while more
        invariant
            n == v.len(),
            start <= n,
            more ==> pieces(v@, sep) == windows(v@, out@) + pieces(v@.skip(start as int), sep),
            !more ==> pieces(v@, sep) == windows(v@, out@),
            forall|i: int| 0 <= i < out.len() ==> (#[trigger] out@[i]).0 <= out@[i].1 <= v.len(),
        decreases n - start + if more { 1int } else { 0int },
    {
        let end = find_in(v, sep, start, n);
        let ghost before = windows(v@, out@);
        let ghost tail = v@.skip(start as int);
        proof {
            assert(tail == v@.subrange(start as int, n as int));
            assert(tail.take(end - start) == v@.subrange(start as int, end as int));
            if end < n {
                assert(tail.skip(end - start + 1) == v@.skip(end + 1));
            } else {
                assert(tail.take(end - start) == tail);
            }
        }
        out.push((start, end));
        proof {
            let piece = v@.subrange(start as int, end as int);
            assert(windows(v@, out@) == before.push(piece));
            if end < n {
                assert(before + (seq![piece] + pieces(v@.skip(end + 1), sep)) == before.push(piece)
                    + pieces(v@.skip(end + 1), sep));
            } else {
                assert(before + seq![piece] == before.push(piece));
            }
        }
        if end < n {
            start = end + 1;
        } else {
            more = false;
        }
    }
    out
}

/// Are the two texts the same?
pub fn same_text(a: &str, b: &str) -> (r: bool)
    ensures
        r == (a@ == b@),
{
    let x = chars_of(a);
    let y = chars_of(b);
    assert(x@.subrange(0, x.len() as int) == x@);
    window_is(&x, 0, x.len(), &y)
}

} // verus!
