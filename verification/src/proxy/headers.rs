//! Header lines and header lists.
//!
//! A header list is a `Vec<(String, String)>`; its model is the sequence of
//! `(name, value)` pairs of texts that `deep_view` gives.

use crate::text::{
    chars_of, contains_run, contains_text, find_char, find_in, line_bounds, lines_of, lowercase,
    lowercased, same_text, second_word, second_word_bounds, slice_text, trim_bounds, trimmed,
    windows,
};
use vstd::prelude::*;
use vstd::string::*;

verus! {

/// A header list as texts.
pub type Fields = Seq<(Seq<char>, Seq<char>)>;

/// The name and value that a header line holds: the texts before and after
/// its first colon, trimmed. A line without a colon holds none.
pub open spec fn header_field(line: Seq<char>) -> Option<(Seq<char>, Seq<char>)> {
    let i = find_char(line, ':', 0);
    if 0 <= i < line.len() {
        Some((trimmed(line.take(i)), trimmed(line.skip(i + 1))))
    } else {
        None
    }
}

/// The header list that `lines` spell, in order; lines without a colon are
/// passed over. With `fold`, each name is put in lower case.
pub open spec fn fields_of(lines: Seq<Seq<char>>, fold: bool) -> Fields
    decreases lines.len(),
{
    if lines.len() == 0 {
        Seq::empty()
    } else {
        let rest = fields_of(lines.drop_last(), fold);
        match header_field(lines.last()) {
            Some((name, value)) => rest.push(
                (
                    if fold {
                        lowercased(name)
                    } else {
                        name
                    },
                    value,
                ),
            ),
            None => rest,
        }
    }
}

/// The first line of a response head, or the empty text.
pub open spec fn status_line_of(head: Seq<char>) -> Seq<char> {
    let lines = lines_of(head);
    if lines.len() > 0 {
        lines[0]
    } else {
        Seq::empty()
    }
}

/// The header list of a response head: every line after the first that has a
/// colon, names in lower case.
pub open spec fn response_fields(head: Seq<char>) -> Fields {
    let lines = lines_of(head);
    if lines.len() > 0 {
        fields_of(lines.skip(1), true)
    } else {
        Seq::empty()
    }
}

/// Index of the first field at or after `i` whose name is `lowered` once put
/// in lower case, or the length of `fields`.
pub open spec fn first_named(fields: Fields, lowered: Seq<char>, i: int) -> int
    decreases fields.len() - i,
{
    if 0 <= i < fields.len() && lowercased(fields[i].0) != lowered {
        first_named(fields, lowered, i + 1)
    } else {
        i
    }
}

/// The value of the first field named `lowered`, letter case of the field's
/// name not counting.
pub open spec fn value_of(fields: Fields, lowered: Seq<char>) -> Option<Seq<char>> {
    let i = first_named(fields, lowered, 0);
    if 0 <= i < fields.len() {
        Some(fields[i].1)
    } else {
        None
    }
}

/// Splits a header line at its first colon and trims both sides.
pub fn split_header_line(line: &str) -> (r: Option<(String, String)>)
    ensures
        r.deep_view() == header_field(line@),
{
    let v = chars_of(line);
    let n = v.len();
    assert(v@.subrange(0, n as int) == v@);
    let colon = find_in(&v, ':', 0, n);
    if colon < n {
        let (a, b) = trim_bounds(&v, 0, colon);
        let (x, y) = trim_bounds(&v, colon + 1, n);
        proof {
            assert(v@.take(colon as int) == v@.subrange(0, colon as int));
            assert(v@.skip(colon + 1) == v@.subrange(colon + 1, n as int));
        }
        Some((slice_text(line, a, b), slice_text(line, x, y)))
    } else {
        None
    }
}

/// Splits a response head into its status line and its header list.
///
/// Header names come out in lower case, values trimmed; a line without a
/// colon is passed over.
pub fn parse_response_headers(headers: &str) -> (r: (String, Vec<(String, String)>))
    ensures
        r.0@ == status_line_of(headers@),
        r.1.deep_view() == response_fields(headers@),
{
    let v = chars_of(headers);
    let bounds = line_bounds(&v);
    let ghost lines = lines_of(headers@);
    let mut fields: Vec<(String, String)> = Vec::new();
    if bounds.len() == 0 {
        assert(fields.deep_view() == Seq::<(Seq<char>, Seq<char>)>::empty());
        return (String::new(), fields);
    }
    assert(lines[0] == windows(v@, bounds@)[0]);
    let status = slice_text(headers, bounds[0].0, bounds[0].1);
    let mut i: usize = 1;
    assert(lines.skip(1).take(0) == Seq::<Seq<char>>::empty());
    assert(fields.deep_view() == Seq::<(Seq<char>, Seq<char>)>::empty());
    while i < bounds.len()
        invariant
            1 <= i <= bounds.len(),
            v@ == headers@,
            lines == lines_of(headers@),
            windows(v@, bounds@) == lines,
            forall|k: int|
                0 <= k < bounds.len() ==> (#[trigger] bounds@[k]).0 <= bounds@[k].1 <= v.len(),
            fields.deep_view() == fields_of(lines.skip(1).take(i - 1), true),
        decreases bounds.len() - i,
    {
        let (lo, hi) = bounds[i];
        let ghost line = v@.subrange(lo as int, hi as int);
        let ghost before = fields.deep_view();
        let colon = find_in(&v, ':', lo, hi);
        proof {
            assert(lines[i as int] == windows(v@, bounds@)[i as int]);
            let upto = lines.skip(1).take(i as int);
            assert(upto.drop_last() == lines.skip(1).take(i - 1));
            assert(upto.last() == line);
        }
        if colon < hi {
            let (a, b) = trim_bounds(&v, lo, colon);
            let (x, y) = trim_bounds(&v, colon + 1, hi);
            proof {
                assert(line.take(colon - lo) == v@.subrange(lo as int, colon as int));
                assert(line.skip(colon - lo + 1) == v@.subrange(colon + 1, hi as int));
            }
            let name = lowercase(headers.substring_char(a, b));
            let value = slice_text(headers, x, y);
            fields.push((name, value));
            proof {
                assert(fields.deep_view() == before.push((name@, value@)));
            }
        }
        i += 1;
    }
    proof {
        assert(lines.skip(1).take(bounds.len() - 1) == lines.skip(1));
    }
    (status, fields)
}

/// Reads a header list off header lines; lines without a colon are passed
/// over.
pub fn collect_fields(lines: &[String]) -> (r: Vec<(String, String)>)
    ensures
        r.deep_view() == fields_of(lines.deep_view(), false),
{
    let ghost all = lines.deep_view();
    let mut out: Vec<(String, String)> = Vec::new();
    let mut i: usize = 0;
    assert(out.deep_view() == Seq::<(Seq<char>, Seq<char>)>::empty());
    assert(all.take(0) == Seq::<Seq<char>>::empty());
    while i < lines.len()
        invariant
            i <= lines.len(),
            all == lines.deep_view(),
            out.deep_view() == fields_of(all.take(i as int), false),
        decreases lines.len() - i,
    {
        let ghost before = out.deep_view();
        proof {
            let upto = all.take(i + 1);
            assert(upto.drop_last() == all.take(i as int));
            assert(upto.last() == lines@[i as int]@);
        }
        match split_header_line(lines[i].as_str()) {
            Some(field) => {
                out.push(field);
                proof {
                    assert(out.deep_view() == before.push(header_field(lines@[i as int]@)->0));
                }
            },
            None => {},
        }
        i += 1;
    }
    proof {
        assert(all.take(lines.len() as int) == all);
    }
    out
}

/// The request target of a request line: its second word, or `/` where it
/// has none.
pub open spec fn target_of_line(line: Seq<char>) -> Seq<char> {
    match second_word(line) {
        Some(word) => word,
        None => seq!['/'],
    }
}

/// Reads the request target off a request line.
pub fn request_target(line: &str) -> (r: String)
    ensures
        r@ == target_of_line(line@),
{
    let v = chars_of(line);
    match second_word_bounds(&v) {
        Some((a, b)) => slice_text(line, a, b),
        None => {
            proof {
                reveal_strlit("/");
                assert("/"@ =~= seq!['/']);
            }
            "/".to_owned()
        },
    }
}

/// Index of the first header named `lowered`, letter case of the header's
/// name not counting.
pub fn find_header(headers: &[(String, String)], lowered: &str) -> (r: Option<usize>)
    ensures
        r is Some <==> value_of(headers.deep_view(), lowered@) is Some,
        r matches Some(i) ==> i < headers.len() && headers@[i as int].1@ == value_of(
            headers.deep_view(),
            lowered@,
        )->0,
{
    let ghost fields = headers.deep_view();
    let mut i: usize = 0;
    while i < headers.len()
        invariant
            i <= headers.len(),
            fields == headers.deep_view(),
            first_named(fields, lowered@, 0) == first_named(fields, lowered@, i as int),
        decreases headers.len() - i,
    {
        let name = lowercase(headers[i].0.as_str());
        assert(fields[i as int].0 == headers@[i as int].0@);
        if same_text(name.as_str(), lowered) {
            assert(fields[i as int].1 == headers@[i as int].1@);
            return Some(i);
        }
        i += 1;
    }
    None
}

/// Is there a field named `lowered` whose value, in lower case, holds
/// `needle`?
pub open spec fn some_value_holds(fields: Fields, lowered: Seq<char>, needle: Seq<char>) -> bool {
    exists|i: int|
        0 <= i < fields.len() && lowercased((#[trigger] fields[i]).0) == lowered && contains_run(
            lowercased(fields[i].1),
            needle,
        )
}

/// Is there a header named `lowered` whose value holds `needle`, letter
/// case not counting on either side?
pub fn any_header_holds(headers: &[(String, String)], lowered: &str, needle: &str) -> (r: bool)
    ensures
        r == some_value_holds(headers.deep_view(), lowered@, needle@),
{
    let ghost fields = headers.deep_view();
    let wanted = chars_of(needle);
    let mut i: usize = 0;
    while i < headers.len()
        invariant
            i <= headers.len(),
            fields == headers.deep_view(),
            wanted@ == needle@,
            forall|k: int|
                0 <= k < i ==> !(lowercased((#[trigger] fields[k]).0) == lowered@ && contains_run(
                    lowercased(fields[k].1),
                    needle@,
                )),
        decreases headers.len() - i,
    {
        assert(fields[i as int].0 == headers@[i as int].0@);
        assert(fields[i as int].1 == headers@[i as int].1@);
        let name = lowercase(headers[i].0.as_str());
        if same_text(name.as_str(), lowered) {
            let value = lowercase(headers[i].1.as_str());
            let v = chars_of(value.as_str());
            if contains_text(&v, &wanted) {
                return true;
            }
        }
        i += 1;
    }
    false
}

/// The header lines that spell `fields`: each as `name: value` and a line
/// ending.
pub open spec fn header_lines(fields: Fields) -> Seq<char>
    decreases fields.len(),
{
    if fields.len() == 0 {
        Seq::empty()
    } else {
        header_lines(fields.drop_last()) + fields.last().0 + ": "@ + fields.last().1 + "\r\n"@
    }
}

/// Appends the header lines of `headers` to `out`.
pub fn write_headers(out: &mut String, headers: &[(String, String)])
    ensures
        final(out)@ == old(out)@ + header_lines(headers.deep_view()),
{
    let ghost fields = headers.deep_view();
    let ghost start = out@;
    let mut i: usize = 0;
    assert(fields.take(0) == Seq::<(Seq<char>, Seq<char>)>::empty());
    assert(start + Seq::<char>::empty() == start);
    while i < headers.len()
        invariant
            i <= headers.len(),
            fields == headers.deep_view(),
            out@ == start + header_lines(fields.take(i as int)),
        decreases headers.len() - i,
    {
        let ghost before = header_lines(fields.take(i as int));
        proof {
            let upto = fields.take(i + 1);
            assert(upto.drop_last() == fields.take(i as int));
            assert(upto.last() == fields[i as int]);
            assert(fields[i as int].0 == headers@[i as int].0@);
            assert(fields[i as int].1 == headers@[i as int].1@);
        }
        out.append(headers[i].0.as_str());
        out.append(": ");
        out.append(headers[i].1.as_str());
        out.append("\r\n");
        proof {
            let f = fields[i as int];
            assert(start + before + f.0 + ": "@ + f.1 + "\r\n"@ == start + (before + f.0 + ": "@
                + f.1 + "\r\n"@));
        }
        i += 1;
    }
    proof {
        assert(fields.take(headers.len() as int) == fields);
    }
}

} // verus!
