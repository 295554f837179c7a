//! What is known of the disk. The library never touches the file system:
//! its caller records what the system said about a path, and the library
//! names the path whose record it lacks.

use crate::error::Failure;
use crate::text::same_text;
use vstd::prelude::*;
use vstd::string::*;

verus! {

/// What resolving a path to its canonical form gave.
#[derive(Debug)]
pub enum Resolved {
    /// The path exists; this is its canonical text, links followed.
    Canonical(String),
    /// Nothing exists at the path.
    NotFound,
    /// The system refused for another reason.
    Failed(Failure),
}

/// What stands at a path, links followed.
#[derive(Debug, PartialEq, Eq, Copy, Clone, Structural)]
pub enum NodeKind {
    /// Nothing, or nothing that can be examined.
    Missing,
    /// A regular file.
    File,
    /// A directory.
    Directory,
    /// Something else: a device, a socket.
    Other,
}

/// What the system said about one path.
#[derive(Debug)]
pub struct PathFacts {
    pub path: String,
    pub resolved: Resolved,
    pub kind: NodeKind,
}

/// What reading a file gave.
#[derive(Debug)]
pub enum Content {
    Bytes(Vec<u8>),
    Failed(Failure),
}

/// The outcome of reading the file at one path.
#[derive(Debug)]
pub struct FileContent {
    pub path: String,
    pub content: Content,
}

/// The record of what the system said. Where a path is recorded twice, the
/// first record counts.
#[derive(Debug)]
pub struct DiskView {
    pub facts: Vec<PathFacts>,
    pub contents: Vec<FileContent>,
}

/// Why a file request could not be answered.
#[derive(Debug)]
pub enum ServeError {
    /// The system, or an encoder, failed.
    Failed(Failure),
    /// The record holds no facts about this path.
    MissingFacts(String),
    /// The record does not hold the content of this path.
    MissingContent(String),
}

/// A `ServeError` as plain values.
pub enum Halt {
    Failed(Failure),
    MissingFacts(Seq<char>),
    MissingContent(Seq<char>),
}

impl View for ServeError {
    type V = Halt;

    open spec fn view(&self) -> Halt {
        match self {
            ServeError::Failed(e) => Halt::Failed(*e),
            ServeError::MissingFacts(p) => Halt::MissingFacts(p@),
            ServeError::MissingContent(p) => Halt::MissingContent(p@),
        }
    }
}

/// Index of the first record of `facts` at or after `i` that is about `key`,
/// or the length of `facts`.
pub open spec fn facts_index(facts: Seq<PathFacts>, key: Seq<char>, i: int) -> int
    decreases facts.len() - i,
{
    if 0 <= i < facts.len() && facts[i].path@ != key {
        facts_index(facts, key, i + 1)
    } else {
        i
    }
}

/// Index of the first record of `contents` at or after `i` that is about
/// `key`, or the length of `contents`.
pub open spec fn content_index(contents: Seq<FileContent>, key: Seq<char>, i: int) -> int
    decreases contents.len() - i,
{
    if 0 <= i < contents.len() && contents[i].path@ != key {
        content_index(contents, key, i + 1)
    } else {
        i
    }
}

impl DiskView {
    /// Are there facts about `key`?
    pub open spec fn knows(&self, key: Seq<char>) -> bool {
        facts_index(self.facts@, key, 0) < self.facts@.len()
    }

    /// The facts about `key`, where there are any.
    pub open spec fn facts_of(&self, key: Seq<char>) -> PathFacts {
        self.facts@[facts_index(self.facts@, key, 0)]
    }

    /// Is the content of `key` recorded?
    pub open spec fn holds(&self, key: Seq<char>) -> bool {
        content_index(self.contents@, key, 0) < self.contents@.len()
    }

    /// The recorded content of `key`, where there is one.
    pub open spec fn content_of(&self, key: Seq<char>) -> Content {
        self.contents@[content_index(self.contents@, key, 0)].content
    }

    /// An empty record.
    pub fn new() -> (r: DiskView)
        ensures
            r.facts@.len() == 0,
            r.contents@.len() == 0,
    {
        DiskView { facts: Vec::new(), contents: Vec::new() }
    }

    /// Looks up the facts about `path`.
    pub fn facts(&self, path: &str) -> (r: Option<&PathFacts>)
        ensures
            r is Some <==> self.knows(path@),
            r matches Some(f) ==> *f == self.facts_of(path@),
    {
        let mut i: usize = 0;
        while i < self.facts.len()
            invariant
                i <= self.facts.len(),
                facts_index(self.facts@, path@, 0) == facts_index(self.facts@, path@, i as int),
            decreases self.facts.len() - i,
        {
            if same_text(self.facts[i].path.as_str(), path) {
                return Some(&self.facts[i]);
            }
            i += 1;
        }
        None
    }

    /// Looks up the recorded content of `path`.
    pub fn content(&self, path: &str) -> (r: Option<&Content>)
        ensures
            r is Some <==> self.holds(path@),
            r matches Some(c) ==> *c == self.content_of(path@),
    {
        let mut i: usize = 0;
        while i < self.contents.len()
            invariant
                i <= self.contents.len(),
                content_index(self.contents@, path@, 0) == content_index(
                    self.contents@,
                    path@,
                    i as int,
                ),
            decreases self.contents.len() - i,
        {
            if same_text(self.contents[i].path.as_str(), path) {
                return Some(&self.contents[i].content);
            }
            i += 1;
        }
        None
    }
}

} // verus!
