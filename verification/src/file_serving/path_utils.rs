//! Paths as lists of names, and the rules that keep a request inside the
//! served directory.

use crate::compression::{AcceptedCompression, CompressionType};
use crate::error::Failure;
use crate::file_serving::disk::{DiskView, Halt, NodeKind, Resolved, ServeError};
use crate::file_serving::PrecompressedFile;
use crate::text::{
    chars_of, find_char, find_in, piece_bounds, pieces, same_text, slice_text, windows,
};
use vstd::prelude::*;
use vstd::string::*;
use vstd::utf8::{decode_utf8, encode_utf8, valid_utf8};

verus! {

/// An absolute path: the names from the file-system root down to the entry.
/// The root itself has no names.
#[derive(Debug)]
pub struct FsPath {
    pub parts: Vec<String>,
}

impl View for FsPath {
    type V = Seq<Seq<char>>;

    open spec fn view(&self) -> Seq<Seq<char>> {
        self.parts.deep_view()
    }
}

/// Is `part` a plain name: not empty, and neither `.` nor `..`?
pub open spec fn is_plain(part: Seq<char>) -> bool {
    part.len() > 0 && part != seq!['.'] && part != seq!['.', '.']
}

/// The plain names among `ps`, in order.
pub open spec fn plain_parts(ps: Seq<Seq<char>>) -> Seq<Seq<char>>
    decreases ps.len(),
{
    if ps.len() == 0 {
        Seq::empty()
    } else {
        let rest = plain_parts(ps.drop_last());
        if is_plain(ps.last()) {
            rest.push(ps.last())
        } else {
            rest
        }
    }
}

/// The names that a path text holds: its pieces between slashes, without
/// the empty ones and without `.` and `..`. Dropping those pieces, instead of
/// following them, is what keeps a request from climbing out of the root.
pub open spec fn path_parts(text: Seq<char>) -> Seq<Seq<char>> {
    plain_parts(pieces(text, '/'))
}

/// The names `parts`, each with a slash in front.
pub open spec fn joined(parts: Seq<Seq<char>>) -> Seq<char>
    decreases parts.len(),
{
    if parts.len() == 0 {
        Seq::empty()
    } else {
        joined(parts.drop_last()) + seq!['/'] + parts.last()
    }
}

/// The text of the path `parts`; the root is `/`.
pub open spec fn rendered(parts: Seq<Seq<char>>) -> Seq<char> {
    if parts.len() == 0 {
        seq!['/']
    } else {
        joined(parts)
    }
}

/// The path beside `parts` whose last name has `suffix` appended.
pub open spec fn with_suffix(parts: Seq<Seq<char>>, suffix: Seq<char>) -> Seq<Seq<char>> {
    if parts.len() == 0 {
        seq![suffix]
    } else {
        parts.drop_last().push(parts.last() + suffix)
    }
}

/// Index of the last `c` before `hi`, or -1.
pub open spec fn rfind_char(s: Seq<char>, c: char, hi: int) -> int
    decreases hi,
{
    if hi <= 0 || hi > s.len() {
        -1
    } else if s[hi - 1] == c {
        hi - 1
    } else {
        rfind_char(s, c, hi - 1)
    }
}

/// The extension of a file name: what follows its last dot. A name without
/// a dot has none, nor has one whose only dot is its first character.
pub open spec fn extension_of(name: Seq<char>) -> Option<Seq<char>> {
    let dot = rfind_char(name, '.', name.len() as int);
    if dot <= 0 || name == seq!['.', '.'] {
        None
    } else {
        Some(name.skip(dot + 1))
    }
}

/// The extension of the last name of a path.
pub open spec fn path_extension(parts: Seq<Seq<char>>) -> Option<Seq<char>> {
    if parts.len() == 0 {
        None
    } else {
        extension_of(parts.last())
    }
}

/// Every name that `plain_parts` keeps is plain.
pub proof fn lemma_plain_parts_are_plain(ps: Seq<Seq<char>>)
    ensures
        forall|i: int| 0 <= i < plain_parts(ps).len() ==> is_plain(#[trigger] plain_parts(ps)[i]),
    decreases ps.len(),
{
    if ps.len() > 0 {
        lemma_plain_parts_are_plain(ps.drop_last());
        let rest = plain_parts(ps.drop_last());
        assert forall|i: int| 0 <= i < plain_parts(ps).len() implies is_plain(
            #[trigger] plain_parts(ps)[i],
        ) by {
            if i < rest.len() {
                assert(plain_parts(ps)[i] == rest[i]);
            }
        }
    }
}

/// Is `part` plain?
pub fn is_plain_name(v: &Vec<char>, lo: usize, hi: usize) -> (r: bool)
    requires
        lo <= hi <= v.len(),
    ensures
        r == is_plain(v@.subrange(lo as int, hi as int)),
{
    let ghost w = v@.subrange(lo as int, hi as int);
    let n = hi - lo;
    proof {
        let one = seq!['.'];
        let two = seq!['.', '.'];
        assert(one.len() == 1 && one[0] == '.');
        assert(two.len() == 2 && two[0] == '.' && two[1] == '.');
    }
    if n == 0 {
        return false;
    }
    assert(w[0] == v@[lo as int]);
    if n == 1 {
        if v[lo] == '.' {
            assert(w =~= seq!['.']);
            return false;
        }
        assert(seq!['.'][0] == '.');
        return true;
    }
    assert(w[1] == v@[lo + 1]);
    if n == 2 {
        if v[lo] == '.' && v[lo + 1] == '.' {
            assert(w =~= seq!['.', '.']);
            return false;
        }
        assert(seq!['.', '.'][0] == '.' && seq!['.', '.'][1] == '.');
        return true;
    }
    assert(seq!['.'].len() == 1 && seq!['.', '.'].len() == 2);
    true
}

impl FsPath {
    /// The root.
    pub fn root() -> (r: FsPath)
        ensures
            r@ == Seq::<Seq<char>>::empty(),
    {
        let parts: Vec<String> = Vec::new();
        assert(parts.deep_view() == Seq::<Seq<char>>::empty());
        FsPath { parts }
    }

    /// Reads the names out of a path text.
    pub fn parse(text: &str) -> (r: FsPath)
        ensures
            r@ == path_parts(text@),
    {
        let v = chars_of(text);
        let bounds = piece_bounds(&v, '/');
        let ghost ps = pieces(text@, '/');
        let mut parts: Vec<String> = Vec::new();
        let mut i: usize = 0;
        assert(parts.deep_view() == Seq::<Seq<char>>::empty());
        assert(ps.take(0) == Seq::<Seq<char>>::empty());
        while i < bounds.len()
            invariant
                i <= bounds.len(),
                v@ == text@,
                ps == pieces(text@, '/'),
                windows(v@, bounds@) == ps,
                forall|k: int|
                    0 <= k < bounds.len() ==> (#[trigger] bounds@[k]).0 <= bounds@[k].1
                        <= v.len(),
                parts.deep_view() == plain_parts(ps.take(i as int)),
            decreases bounds.len() - i,
        {
            let (lo, hi) = bounds[i];
            let ghost before = parts.deep_view();
            proof {
                assert(ps[i as int] == windows(v@, bounds@)[i as int]);
                let upto = ps.take(i + 1);
                assert(upto.drop_last() == ps.take(i as int));
                assert(upto.last() == v@.subrange(lo as int, hi as int));
            }
            if is_plain_name(&v, lo, hi) {
                let name = slice_text(text, lo, hi);
                parts.push(name);
                proof {
                    assert(parts.deep_view() == before.push(v@.subrange(lo as int, hi as int)));
                }
            }
            i += 1;
        }
        proof {
            assert(ps.take(bounds.len() as int) == ps);
        }
        FsPath { parts }
    }

    /// The text of this path: each name with a slash in front, or `/` for
    /// the root.
    pub fn render(&self) -> (r: String)
        ensures
            r@ == rendered(self@),
    {
        proof {
            reveal_strlit("/");
            assert("/"@ =~= seq!['/']);
        }
        if self.parts.len() == 0 {
            return "/".to_owned();
        }
        let mut out = String::new();
        let mut i: usize = 0;
        assert(self@.take(0) == Seq::<Seq<char>>::empty());
        while i < self.parts.len()
            invariant
                i <= self.parts.len(),
                "/"@ == seq!['/'],
                out@ == joined(self@.take(i as int)),
            decreases self.parts.len() - i,
        {
            proof {
                let upto = self@.take(i + 1);
                assert(upto.drop_last() == self@.take(i as int));
                assert(upto.last() == self.parts@[i as int]@);
            }
            out.append("/");
            out.append(self.parts[i].as_str());
            i += 1;
        }
        proof {
            assert(self@.take(self.parts.len() as int) == self@);
        }
        out
    }

    /// Does this path lie at or below `base`?
    pub fn starts_with(&self, base: &FsPath) -> (r: bool)
        ensures
            r == base@.is_prefix_of(self@),
    {
        if base.parts.len() > self.parts.len() {
            return false;
        }
        let mut i: usize = 0;
        while i < base.parts.len()
            invariant
                i <= base.parts.len() <= self.parts.len(),
                forall|k: int| 0 <= k < i ==> #[trigger] self@[k] == base@[k],
            decreases base.parts.len() - i,
        {
            if !same_text(self.parts[i].as_str(), base.parts[i].as_str()) {
                assert(self@[i as int] != base@[i as int]);
                assert(self@.subrange(0, base@.len() as int)[i as int] == self@[i as int]);
                return false;
            }
            i += 1;
        }
        assert(base@ =~= self@.subrange(0, base@.len() as int));
        true
    }

    /// The path of `rel` below this one.
    pub fn join(&self, rel: &FsPath) -> (r: FsPath)
        ensures
            r@ == self@ + rel@,
    {
        let mut parts: Vec<String> = Vec::new();
        let mut i: usize = 0;
        assert(parts.deep_view() == self@.take(0));
        while i < self.parts.len()
            invariant
                i <= self.parts.len(),
                parts.deep_view() == self@.take(i as int),
            decreases self.parts.len() - i,
        {
            let ghost before = parts.deep_view();
            parts.push(self.parts[i].clone());
            assert(parts.deep_view() == before.push(self.parts@[i as int]@));
            assert(self@.take(i + 1) == self@.take(i as int).push(self@[i as int]));
            i += 1;
        }
        assert(self@.take(self.parts.len() as int) == self@);
        let mut j: usize = 0;
        assert(rel@.take(0) == Seq::<Seq<char>>::empty());
        assert(self@ + Seq::<Seq<char>>::empty() == self@);
        while j < rel.parts.len()
            invariant
                j <= rel.parts.len(),
                parts.deep_view() == self@ + rel@.take(j as int),
            decreases rel.parts.len() - j,
        {
            let ghost before = parts.deep_view();
            parts.push(rel.parts[j].clone());
            assert(parts.deep_view() == before.push(rel.parts@[j as int]@));
            assert(rel@.take(j + 1) == rel@.take(j as int).push(rel@[j as int]));
            assert((self@ + rel@.take(j as int)).push(rel@[j as int]) == self@ + rel@.take(
                j as int,
            ).push(rel@[j as int]));
            j += 1;
        }
        assert(rel@.take(rel.parts.len() as int) == rel@);
        FsPath { parts }
    }

    /// The path beside this one whose last name has `suffix` appended.
    pub fn sibling(&self, suffix: &str) -> (r: FsPath)
        ensures
            r@ == with_suffix(self@, suffix@),
    {
        let n = self.parts.len();
        let mut parts: Vec<String> = Vec::new();
        if n == 0 {
            parts.push(suffix.to_owned());
            assert(parts.deep_view() == seq![suffix@]);
            return FsPath { parts };
        }
        let mut i: usize = 0;
        assert(parts.deep_view() == self@.take(0));
        while i < n - 1
            invariant
                n == self.parts.len(),
                n > 0,
                i <= n - 1,
                parts.deep_view() == self@.take(i as int),
            decreases n - 1 - i,
        {
            let ghost before = parts.deep_view();
            parts.push(self.parts[i].clone());
            assert(parts.deep_view() == before.push(self.parts@[i as int]@));
            assert(self@.take(i + 1) == self@.take(i as int).push(self@[i as int]));
            i += 1;
        }
        let mut last = self.parts[n - 1].clone();
        last.append(suffix);
        let ghost before = parts.deep_view();
        parts.push(last);
        assert(parts.deep_view() == before.push(last@));
        assert(self@.take(n - 1) == self@.drop_last());
        FsPath { parts }
    }

    /// A copy of this path.
    pub fn duplicate(&self) -> (r: FsPath)
        ensures
            r@ == self@,
    {
        let empty = FsPath::root();
        let r = self.join(&empty);
        assert(self@ + Seq::<Seq<char>>::empty() == self@);
        r
    }

    /// The extension of the last name.
    pub fn extension(&self) -> (r: Option<String>)
        ensures
            r.deep_view() == path_extension(self@),
    {
        let n = self.parts.len();
        if n == 0 {
            return None;
        }
        let name = self.parts[n - 1].as_str();
        let v = chars_of(name);
        let len = v.len();
        let mut hi: usize = len;
        while hi > 0 && v[hi - 1] != '.'
            invariant
                hi <= len,
                len == v.len(),
                rfind_char(v@, '.', len as int) == rfind_char(v@, '.', hi as int),
            decreases hi,
        {
            hi -= 1;
        }
        // `hi` is one past the last dot, or zero when there is none.
        if hi <= 1 {
            return None;
        }
        if len == 2 && v[0] == '.' && v[1] == '.' {
            assert(v@ =~= seq!['.', '.']);
            return None;
        }
        proof {
            if v@ == seq!['.', '.'] {
                assert(seq!['.', '.'][0] == '.' && seq!['.', '.'][1] == '.');
                assert(v@.len() == 2);
            }
            assert(v@.skip(hi as int) == v@.subrange(hi as int, len as int));
        }
        Some(slice_text(name, hi, len))
    }
}

/// The value of an ASCII hexadecimal digit.
pub open spec fn hex_value(b: u8) -> Option<int> {
    if 0x30 <= b <= 0x39 {
        Some(b - 0x30)
    } else if 0x61 <= b <= 0x66 {
        Some(b - 0x61 + 10)
    } else if 0x41 <= b <= 0x46 {
        Some(b - 0x41 + 10)
    } else {
        None
    }
}

/// `b` with every `%` that two hexadecimal digits follow replaced, together
/// with them, by the byte they spell. Any other byte stands for itself.
pub open spec fn percent_decoded(b: Seq<u8>) -> Seq<u8>
    decreases b.len(),
{
    if b.len() == 0 {
        Seq::empty()
    } else if b[0] == 0x25 && b.len() >= 3 && hex_value(b[1]) is Some && hex_value(b[2]) is Some {
        seq![(hex_value(b[1])->0 * 16 + hex_value(b[2])->0) as u8] + percent_decoded(b.skip(3))
    } else {
        seq![b[0]] + percent_decoded(b.skip(1))
    }
}

/// Calls `percent_encoding::percent_decode_str` and `decode_utf8` on its
/// result. Trusted: the call succeeds exactly when the decoded bytes are
/// well-formed UTF-8, and then gives the text they encode.
#[verifier::external_body]
pub(crate) fn percent_decode_utf8(input: &str) -> (r: Option<String>)
    ensures
        r is Some <==> valid_utf8(percent_decoded(encode_utf8(input@))),
        r matches Some(s) ==> s@ == decode_utf8(percent_decoded(encode_utf8(input@))),
{
    match percent_encoding::percent_decode_str(input).decode_utf8() {
        Ok(text) => Some(text.into_owned()),
        Err(_) => None,
    }
}

/// The part of a request target before its query: everything up to the
/// first `?`.
pub open spec fn without_query(raw: Seq<char>) -> Seq<char> {
    raw.take(find_char(raw, '?', 0))
}

/// The request path as text: the query stripped, then percent-decoded as
/// UTF-8. `None` where the decoded bytes are no UTF-8.
pub open spec fn decoded_request(raw: Seq<char>) -> Option<Seq<char>> {
    let bytes = percent_decoded(encode_utf8(without_query(raw)));
    if valid_utf8(bytes) {
        Some(decode_utf8(bytes))
    } else {
        None
    }
}

/// The canonical form of the served directory, as the record has it.
pub open spec fn root_of(disk: DiskView, base_dir: Seq<char>) -> Result<Seq<Seq<char>>, Halt> {
    if !disk.knows(base_dir) {
        Err(Halt::MissingFacts(base_dir))
    } else {
        match disk.facts_of(base_dir).resolved {
            Resolved::Canonical(p) => Ok(path_parts(p@)),
            Resolved::NotFound => Err(Halt::Failed(Failure::NotFound)),
            Resolved::Failed(e) => Err(Halt::Failed(e)),
        }
    }
}

/// Which path, if any, a candidate stands for once the system has resolved
/// it. A path that exists counts in its canonical form, and only if that
/// still lies under the root; one that does not exist counts as it is, and
/// only if it lies under the root; any other failure is passed on.
pub open spec fn confined(
    root: Seq<Seq<char>>,
    candidate: Seq<Seq<char>>,
    resolved: Resolved,
) -> Result<Option<Seq<Seq<char>>>, Halt> {
    match resolved {
        Resolved::Canonical(p) => Ok(
            if root.is_prefix_of(path_parts(p@)) {
                Some(path_parts(p@))
            } else {
                None
            },
        ),
        Resolved::NotFound => Ok(
            if root.is_prefix_of(candidate) {
                Some(candidate)
            } else {
                None
            },
        ),
        Resolved::Failed(e) => Err(Halt::Failed(e)),
    }
}

/// What the sanitizer gives for a raw request target.
pub open spec fn sanitized(disk: DiskView, base_dir: Seq<char>, raw: Seq<char>) -> Result<
    Option<Seq<Seq<char>>>,
    Halt,
> {
    match root_of(disk, base_dir) {
        Err(h) => Err(h),
        Ok(root) => match decoded_request(raw) {
            None => Ok(None),
            Some(text) => {
                let candidate = root + path_parts(text);
                let key = rendered(candidate);
                if !disk.knows(key) {
                    Err(Halt::MissingFacts(key))
                } else {
                    confined(root, candidate, disk.facts_of(key).resolved)
                }
            },
        },
    }
}

/// Does the executable outcome `r` stand for `m`?
pub open spec fn same_path_outcome(
    r: Result<Option<FsPath>, ServeError>,
    m: Result<Option<Seq<Seq<char>>>, Halt>,
) -> bool {
    match (r, m) {
        (Ok(Some(p)), Ok(Some(q))) => p@ == q,
        (Ok(None), Ok(None)) => true,
        (Err(e), Err(h)) => e@ == h,
        _ => false,
    }
}

/// The canonical root of the served directory.
pub fn canonical_root(disk: &DiskView, base_dir: &str) -> (r: Result<FsPath, ServeError>)
    ensures
        match (r, root_of(*disk, base_dir@)) {
            (Ok(p), Ok(q)) => p@ == q,
            (Err(e), Err(h)) => e@ == h,
            _ => false,
        },
{
    match disk.facts(base_dir) {
        None => Err(ServeError::MissingFacts(base_dir.to_owned())),
        Some(facts) => match &facts.resolved {
            Resolved::Canonical(p) => Ok(FsPath::parse(p.as_str())),
            Resolved::NotFound => Err(ServeError::Failed(Failure::NotFound)),
            Resolved::Failed(e) => Err(ServeError::Failed(*e)),
        },
    }
}

/// Decides which path a candidate stands for, given what resolving it gave.
pub fn confine(root: &FsPath, candidate: FsPath, resolved: &Resolved) -> (r: Result<
    Option<FsPath>,
    ServeError,
>)
    ensures
        same_path_outcome(r, confined(root@, candidate@, *resolved)),
        r matches Ok(Some(p)) ==> root@.is_prefix_of(p@),
{
    match resolved {
        Resolved::Canonical(p) => {
            let path = FsPath::parse(p.as_str());
            if path.starts_with(root) {
                Ok(Some(path))
            } else {
                Ok(None)
            }
        },
        Resolved::NotFound => {
            if candidate.starts_with(root) {
                Ok(Some(candidate))
            } else {
                Ok(None)
            }
        },
        Resolved::Failed(e) => Err(ServeError::Failed(*e)),
    }
}

/// Turns a raw request target into a path inside the served directory.
///
/// The query is stripped, the rest percent-decoded, and of its pieces only
/// the plain names are kept and joined to the canonical root. The result is
/// the canonical form of that path where it exists, the path itself where
/// it does not, and nothing where either would lie outside the root or the
/// request does not decode. Every path returned lies under the root.
pub fn sanitize_path(disk: &DiskView, base_dir: &str, request_path: &str) -> (r: Result<
    Option<FsPath>,
    ServeError,
>)
    ensures
        same_path_outcome(r, sanitized(*disk, base_dir@, request_path@)),
        r matches Ok(Some(p)) ==> root_of(*disk, base_dir@) matches Ok(root) && root.is_prefix_of(
            p@,
        ),
{
    let root = match canonical_root(disk, base_dir) {
        Ok(root) => root,
        Err(e) => {
            return Err(e);
        },
    };
    let v = chars_of(request_path);
    assert(v@.subrange(0, v.len() as int) == v@);
    let query = find_in(&v, '?', 0, v.len());
    let path_text = request_path.substring_char(0, query);
    assert(path_text@ == without_query(request_path@));
    let decoded = match percent_decode_utf8(path_text) {
        Some(text) => text,
        None => {
            return Ok(None);
        },
    };
    let cleaned = FsPath::parse(decoded.as_str());
    let candidate = root.join(&cleaned);
    let key = candidate.render();
    match disk.facts(key.as_str()) {
        None => Err(ServeError::MissingFacts(key)),
        Some(facts) => confine(&root, candidate, &facts.resolved),
    }
}

/// Whatever the request, a path that the sanitizer gives lies under the
/// canonical root.
pub proof fn law_sanitized_stays_under_root(disk: DiskView, base_dir: Seq<char>, raw: Seq<char>)
    ensures
        sanitized(disk, base_dir, raw) matches Ok(Some(p)) ==> root_of(disk, base_dir) matches Ok(
            root,
        ) && root.is_prefix_of(p),
{
}

/// Whatever the request, and however its segments are written, no `..`,
/// no `.` and no empty name is part of a path that the sanitizer gives.
pub proof fn law_sanitized_has_plain_names(disk: DiskView, base_dir: Seq<char>, raw: Seq<char>)
    ensures
        sanitized(disk, base_dir, raw) matches Ok(Some(p)) ==> forall|i: int|
            0 <= i < p.len() ==> is_plain(#[trigger] p[i]),
{
    if let Ok(Some(p)) = sanitized(disk, base_dir, raw) {
        let root = root_of(disk, base_dir)->Ok_0;
        let text = decoded_request(raw)->0;
        let rest = path_parts(text);
        let candidate = root + rest;
        let resolved = disk.facts_of(rendered(candidate)).resolved;
        match disk.facts_of(base_dir).resolved {
            Resolved::Canonical(r) => {
                lemma_plain_parts_are_plain(pieces(r@, '/'));
            },
            _ => {},
        }
        lemma_plain_parts_are_plain(pieces(text, '/'));
        match resolved {
            Resolved::Canonical(c) => {
                lemma_plain_parts_are_plain(pieces(c@, '/'));
            },
            _ => {
                assert forall|i: int| 0 <= i < p.len() implies is_plain(#[trigger] p[i]) by {
                    if i < root.len() {
                        assert(p[i] == root[i]);
                    } else {
                        assert(p[i] == rest[i - root.len()]);
                    }
                }
            },
        }
    }
}

/// Where the client takes zstd and a `.zst` sibling is there, it is the
/// one that is chosen, whether or not a `.gz` sibling exists as well.
pub proof fn law_zstd_sibling_is_preferred(
    disk: DiskView,
    base_dir: Seq<char>,
    target: Seq<Seq<char>>,
    accepted: AcceptedCompression,
)
    requires
        accepted.supports_zstd,
        root_of(disk, base_dir) is Ok,
        sibling_at(disk, root_of(disk, base_dir)->Ok_0, target, ".zst"@) matches Ok(Some(_)),
    ensures
        precompressed(disk, base_dir, target, accepted) == Ok::<
            Option<(Seq<Seq<char>>, CompressionType)>,
            Halt,
        >(
            Some(
                (
                    sibling_at(disk, root_of(disk, base_dir)->Ok_0, target, ".zst"@)->Ok_0->0,
                    CompressionType::Zstd,
                ),
            ),
        ),
{
}

/// The precompressed sibling of `target` with the given suffix, if the
/// record shows a regular file there that resolves inside the root.
pub open spec fn sibling_at(
    disk: DiskView,
    root: Seq<Seq<char>>,
    target: Seq<Seq<char>>,
    suffix: Seq<char>,
) -> Result<Option<Seq<Seq<char>>>, Halt> {
    let candidate = with_suffix(target, suffix);
    let key = rendered(candidate);
    if !disk.knows(key) {
        Err(Halt::MissingFacts(key))
    } else if disk.facts_of(key).kind != NodeKind::File {
        Ok(None)
    } else {
        confined(root, candidate, disk.facts_of(key).resolved)
    }
}

/// The precompressed sibling to serve in place of `target`: the `.zst` one
/// if the client takes zstd and it is there, else the `.gz` one if the
/// client takes gzip and it is there.
pub open spec fn precompressed(
    disk: DiskView,
    base_dir: Seq<char>,
    target: Seq<Seq<char>>,
    accepted: AcceptedCompression,
) -> Result<Option<(Seq<Seq<char>>, CompressionType)>, Halt> {
    if !accepted.supports_zstd && !accepted.supports_gzip {
        Ok(None)
    } else {
        match root_of(disk, base_dir) {
            Err(h) => Err(h),
            Ok(root) => {
                let zstd = if accepted.supports_zstd {
                    sibling_at(disk, root, target, ".zst"@)
                } else {
                    Ok(None)
                };
                match zstd {
                    Err(h) => Err(h),
                    Ok(Some(p)) => Ok(Some((p, CompressionType::Zstd))),
                    Ok(None) => if accepted.supports_gzip {
                        match sibling_at(disk, root, target, ".gz"@) {
                            Err(h) => Err(h),
                            Ok(Some(p)) => Ok(Some((p, CompressionType::Gzip))),
                            Ok(None) => Ok(None),
                        }
                    } else {
                        Ok(None)
                    },
                }
            },
        }
    }
}

fn probe_sibling(disk: &DiskView, root: &FsPath, target: &FsPath, suffix: &str) -> (r: Result<
    Option<FsPath>,
    ServeError,
>)
    ensures
        same_path_outcome(r, sibling_at(*disk, root@, target@, suffix@)),
        r matches Ok(Some(p)) ==> root@.is_prefix_of(p@),
{
    let candidate = target.sibling(suffix);
    let key = candidate.render();
    match disk.facts(key.as_str()) {
        None => Err(ServeError::MissingFacts(key)),
        Some(facts) => {
            if facts.kind != NodeKind::File {
                Ok(None)
            } else {
                confine(root, candidate, &facts.resolved)
            }
        },
    }
}

/// Does the executable outcome `r` stand for `m`?
pub open spec fn same_precompressed(
    r: Result<Option<PrecompressedFile>, ServeError>,
    m: Result<Option<(Seq<Seq<char>>, CompressionType)>, Halt>,
) -> bool {
    match (r, m) {
        (Ok(Some(f)), Ok(Some(g))) => f.path@ == g.0 && f.compression == g.1,
        (Ok(None), Ok(None)) => true,
        (Err(e), Err(h)) => e@ == h,
        _ => false,
    }
}

/// Looks for a precompressed sibling of `path` that the client can take:
/// `<path>.zst` first, then `<path>.gz`. A sibling counts only if it is a
/// regular file and resolves inside the served directory. With neither
/// encoding accepted the record is not consulted.
pub fn find_precompressed(
    disk: &DiskView,
    base_dir: &str,
    path: &FsPath,
    accepted_compression: AcceptedCompression,
) -> (r: Result<Option<PrecompressedFile>, ServeError>)
    ensures
        same_precompressed(r, precompressed(*disk, base_dir@, path@, accepted_compression)),
        r matches Ok(Some(f)) ==> root_of(*disk, base_dir@) matches Ok(root) && root.is_prefix_of(
            f.path@,
        ),
{
    if !accepted_compression.supports_zstd && !accepted_compression.supports_gzip {
        return Ok(None);
    }
    let root = match canonical_root(disk, base_dir) {
        Ok(root) => root,
        Err(e) => {
            return Err(e);
        },
    };
    if accepted_compression.supports_zstd {
        match probe_sibling(disk, &root, path, ".zst") {
            Err(e) => {
                return Err(e);
            },
            Ok(Some(found)) => {
                return Ok(
                    Some(PrecompressedFile { path: found, compression: CompressionType::Zstd }),
                );
            },
            Ok(None) => {},
        }
    }
    if accepted_compression.supports_gzip {
        match probe_sibling(disk, &root, path, ".gz") {
            Err(e) => {
                return Err(e);
            },
            Ok(Some(found)) => {
                return Ok(
                    Some(PrecompressedFile { path: found, compression: CompressionType::Gzip }),
                );
            },
            Ok(None) => {},
        }
    }
    Ok(None)
}

} // verus!
