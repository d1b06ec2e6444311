//! Source coordinates: positions, single-line ranges, and the registry that
//! owns file texts and hands out shared handles to them.

use std::rc::Rc;
use vstd::prelude::*;

verus! {

/// A zero-based source coordinate: absolute offset, line, and offset within the line.
#[derive(Clone, Copy, Debug, PartialEq, Eq, Structural)]
pub struct Position {
    pub index: usize,
    pub row: usize,
    pub col: usize,
}

impl Position {
    pub fn new(index: usize, row: usize, col: usize) -> (p: Position)
        ensures
            p == (Position { index, row, col }),
    {
        Position { index, row, col }
    }

    /// The coordinate `n` characters further along the same line.
    pub open spec fn ahead(self, n: int) -> Position {
        Position {
            index: (self.index + n) as usize,
            row: self.row,
            col: (self.col + n) as usize,
        }
    }

    /// The first coordinate of the next line, one character further on.
    pub open spec fn next_line(self) -> Position {
        Position { index: (self.index + 1) as usize, row: (self.row + 1) as usize, col: 0 }
    }
}

/// A registered source file: its name and its full text.
#[derive(Clone, Debug, PartialEq, Eq)]
pub struct FileInfo {
    pub name: String,
    pub contents: String,
}

/// A half-open stretch of one line of a file.
#[derive(Clone, Debug, PartialEq)]
pub struct TextRange {
    pub start: Position,
    pub end: Position,
    pub file: Rc<FileInfo>,
}

impl TextRange {
    pub fn new(start: Position, end: Position, file: Rc<FileInfo>) -> (r: TextRange)
        ensures
            r == (TextRange { start, end, file }),
    {
        TextRange { start, end, file }
    }

    /// Both ends lie on one line, in order, and the columns advance with the offsets.
    pub open spec fn single_line(self) -> bool {
        &&& self.start.row == self.end.row
        &&& self.start.index <= self.end.index
        &&& self.end.col - self.start.col == self.end.index - self.start.index
    }

    /// The number of characters covered.
    pub open spec fn spec_len(self) -> int {
        self.end.index - self.start.index
    }

    pub fn len(&self) -> (n: usize)
        requires
            self.single_line(),
        ensures
            n == self.spec_len(),
    {
        self.end.index - self.start.index
    }
}

/// Another handle to the same file record.
///
/// `Rc::clone` makes a second pointer to the allocation it is given; the
/// record behind both pointers is the same value.
#[verifier::external_body]
pub(crate) fn share(file: &Rc<FileInfo>) -> (handle: Rc<FileInfo>)
    ensures
        handle == *file,
{
    Rc::clone(file)
}

/// Owner of every registered file; hands out shared read-only handles.
pub struct FileInfoManager {
    files: Vec<Rc<FileInfo>>,
}

impl FileInfoManager {
    /// The handles issued so far, oldest first.
    pub closed spec fn issued(self) -> Seq<Rc<FileInfo>> {
        self.files@
    }

    pub fn new() -> (m: FileInfoManager)
        ensures
            m.issued() == Seq::<Rc<FileInfo>>::empty(),
    {
        FileInfoManager { files: Vec::new() }
    }

    /// Registers a file and returns a handle to its record.
    pub fn new_file(&mut self, name: String, contents: String) -> (handle: Rc<FileInfo>)
        ensures
            *handle == (FileInfo { name, contents }),
            final(self).issued() == old(self).issued().push(handle),
    {
        let handle = Rc::new(FileInfo { name, contents });
        self.files.push(share(&handle));
        handle
    }
}

} // verus!
