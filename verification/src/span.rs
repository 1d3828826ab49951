use vstd::prelude::*;

verus! {

/// Names a file of a `SourceMap`.
#[derive(Debug, Clone, Copy, PartialEq, Eq, Structural)]
pub struct FileId(usize);

impl FileId {
    pub closed spec fn id(self) -> usize {
        self.0
    }

    pub fn new(id: usize) -> (r: Self)
        ensures
            r.id() == id,
    {
        FileId(id)
    }

    pub fn index(self) -> (r: usize)
        ensures
            r == self.id(),
    {
        self.0
    }

    /// Two file ids are equal exactly when their indices are.
    pub proof fn law_equal_by_index(a: FileId, b: FileId)
        ensures
            (a == b) <==> (a.id() == b.id()),
    {
    }
}

/// A byte range inside a source file.
#[derive(Debug, Clone, Copy, PartialEq, Eq, Structural)]
pub struct Span {
    file_id: FileId,
    start: usize,
    end: usize,
}

impl Span {
    pub closed spec fn file(self) -> FileId {
        self.file_id
    }

    pub closed spec fn lo(self) -> usize {
        self.start
    }

    pub closed spec fn hi(self) -> usize {
        self.end
    }

    pub fn new(file_id: FileId, range: core::ops::Range<usize>) -> (r: Self)
        ensures
            r.file() == file_id,
            r.lo() == range.start,
            r.hi() == range.end,
    {
        Span { file_id, start: range.start, end: range.end }
    }

    pub fn file_id(&self) -> (r: FileId)
        ensures
            r == self.file(),
    {
        self.file_id
    }

    pub fn start(&self) -> (r: usize)
        ensures
            r == self.lo(),
    {
        self.start
    }

    pub fn end(&self) -> (r: usize)
        ensures
            r == self.hi(),
    {
        self.end
    }

    #[allow(clippy::len_without_is_empty)]
    pub fn len(&self) -> (r: usize)
        requires
            self.lo() <= self.hi(),
        ensures
            r == self.hi() - self.lo(),
    {
        self.end - self.start
    }

    pub fn range(&self) -> (r: core::ops::Range<usize>)
        ensures
            r.start == self.lo(),
            r.end == self.hi(),
    {
        self.start..self.end
    }
}

} // verus!
