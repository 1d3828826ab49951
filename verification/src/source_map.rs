use vstd::prelude::*;
use vstd::string::StringSliceAdditionalSpecFns;
use vstd::string::StrSliceExecFns;
use vstd::utf8::{decode_utf8, encode_utf8, encode_utf8_valid_utf8, is_char_boundary};

use crate::acow::{Acow, IntoAcow};
use crate::span::{FileId, Span};
use crate::text::{
    lemma_decode_len, lemma_line_index, lemma_line_start_boundary, lemma_starts_shape,
    line_begin, line_bytes, line_col_of, line_range, line_starts, newlines_before, starts_upto,
    substr, text_fits,
};

verus! {

/// What a file of a source map holds, as mathematical text.
pub struct FileView {
    pub name: Seq<char>,
    pub text: Seq<char>,
}

/// The UTF-8 bytes of a file's text.
pub open spec fn bytes_of(f: FileView) -> Seq<u8> {
    encode_utf8(f.text)
}

/// A handle on one file of a source map.
pub struct Source<'map> {
    source_map: &'map SourceMap,
    file_id: FileId,
}

impl<'map> Clone for Source<'map> {
    fn clone(&self) -> (r: Self)
        ensures
            r == *self,
    {
        *self
    }
}

impl<'map> Copy for Source<'map> {}

impl<'map> Source<'map> {
    pub closed spec fn map(self) -> &'map SourceMap {
        self.source_map
    }

    pub closed spec fn file(self) -> FileId {
        self.file_id
    }

    /// A handle always names a file of a well-formed map.
    pub closed spec fn valid(self) -> bool {
        &&& self.source_map.wf()
        &&& self.file_id.id() < self.source_map@.len()
    }

    fn new(source_map: &'map SourceMap, file_id: FileId) -> (r: Self)
        ensures
            r.map() == source_map,
            r.file() == file_id,
    {
        Source { source_map, file_id }
    }

    /// A span of this handle's file.
    pub fn span(&self, span: core::ops::Range<usize>) -> (r: Span)
        requires
            self.valid(),
            is_char_boundary(bytes_of(self.map()@[self.file().id() as int]), span.start as int),
            is_char_boundary(bytes_of(self.map()@[self.file().id() as int]), span.end as int),
        ensures
            r.file() == self.file(),
            r.lo() == span.start,
            r.hi() == span.end,
    {
        self.source_map.span(self.file_id, span)
    }

    pub fn text(&self) -> (r: &'map str)
        requires
            self.valid(),
        ensures
            r@ == self.map()@[self.file().id() as int].text,
    {
        match self.source_map.source(self.file_id) {
            Some(text) => text,
            None => "",
        }
    }

    pub fn filename(&self) -> (r: &'map str)
        requires
            self.valid(),
        ensures
            r@ == self.map()@[self.file().id() as int].name,
    {
        match self.source_map.filename(self.file_id) {
            Some(name) => name,
            None => "",
        }
    }

    pub fn source_map(&self) -> (r: &'map SourceMap)
        ensures
            r == self.map(),
    {
        self.source_map
    }
}

/// A named source text together with the offsets at which its lines begin.
#[derive(Debug)]
pub struct SourceFile {
    pub name: Acow,
    pub source: Acow,
    line_starts: Vec<usize>,
}

impl SourceFile {
    pub closed spec fn wf(&self) -> bool {
        &&& text_fits(encode_utf8(self.source@))
        &&& self.line_starts@ == line_starts(encode_utf8(self.source@))
    }

    pub closed spec fn file_view(&self) -> FileView {
        FileView { name: self.name@, text: self.source@ }
    }
}

/// The files a diagnostic may point into.
#[derive(Debug)]
pub struct SourceMap {
    files: Vec<SourceFile>,
}

impl View for SourceMap {
    type V = Seq<FileView>;

    closed spec fn view(&self) -> Seq<FileView> {
        self.files@.map_values(|f: SourceFile| f.file_view())
    }
}

impl Default for SourceMap {
    fn default() -> (r: Self)
        ensures
            r.wf(),
            r@ == Seq::<FileView>::empty(),
    {
        Self::new_in()
    }
}

impl SourceMap {
    /// Every file's line starts match its text, and its text fits the limits.
    pub closed spec fn wf(&self) -> bool {
        forall|i: int| 0 <= i < self.files@.len() ==> #[trigger] self.files@[i].wf()
    }

    /// The text of every file of a well-formed map fits the size limit.
    pub proof fn lemma_fits(&self, i: int)
        requires
            self.wf(),
            0 <= i < self@.len(),
        ensures
            text_fits(bytes_of(self@[i])),
    {
        assert(self.files@[i].wf());
    }

    pub fn new_in() -> (r: Self)
        ensures
            r.wf(),
            r@ == Seq::<FileView>::empty(),
    {
        let r = SourceMap { files: Vec::new() };
        assert(r@ =~= Seq::<FileView>::empty());
        r
    }

    /// Adds a source file, returning its `FileId`.
    pub fn add_file<N: IntoAcow, S: IntoAcow>(&mut self, name: N, source: S) -> (id: FileId)
        requires
            old(self).wf(),
            text_fits(encode_utf8(source.text())),
        ensures
            final(self).wf(),
            id.id() == old(self)@.len(),
            final(self)@ == old(self)@.push(FileView { name: name.text(), text: source.text() }),
    {
        let id = FileId::new(self.files.len());
        let name = name.into_acow();
        let source = source.into_acow();
        let line_starts = Self::line_starts(source.as_str());
        let ghost old_files = self.files@;
        self.files.push(SourceFile { name, source, line_starts });
        proof {
            assert forall|i: int| 0 <= i < self.files@.len() implies #[trigger] self.files@[i].wf() by {
                if i < old_files.len() {
                    assert(self.files@[i] == old_files[i]);
                }
            }
            assert(self@ =~= old(self)@.push(
                FileView { name: self.files@.last().name@, text: self.files@.last().source@ },
            ));
        }
        id
    }

    /// Adds a source file, returning a handle on it.
    pub fn add_source<N: IntoAcow, S: IntoAcow>(&mut self, name: N, source: S) -> (r: Source<'_>)
        requires
            old(self).wf(),
            text_fits(encode_utf8(source.text())),
        ensures
            r.valid(),
            r.file().id() == old(self)@.len(),
            r.map()@ == old(self)@.push(FileView { name: name.text(), text: source.text() }),
            final(self).wf(),
            final(self)@ == old(self)@.push(FileView { name: name.text(), text: source.text() }),
            *r.map() == *final(self),
    {
        let file_id = self.add_file(name, source);
        Source::new(self, file_id)
    }

    /// A handle on a file, if the map has it.
    pub fn source_handle(&self, file_id: FileId) -> (r: Option<Source<'_>>)
        requires
            self.wf(),
        ensures
            r is Some <==> file_id.id() < self@.len(),
            r matches Some(s) ==> s.valid() && s.map() == self && s.file() == file_id,
    {
        if file_id.index() < self.files.len() {
            Some(Source::new(self, file_id))
        } else {
            None
        }
    }

    /// The span of a byte range of a file; both ends lie on character boundaries.
    pub fn span(&self, file_id: FileId, range: core::ops::Range<usize>) -> (r: Span)
        requires
            self.wf(),
            file_id.id() < self@.len(),
            is_char_boundary(bytes_of(self@[file_id.id() as int]), range.start as int),
            is_char_boundary(bytes_of(self@[file_id.id() as int]), range.end as int),
        ensures
            r.file() == file_id,
            r.lo() == range.start,
            r.hi() == range.end,
    {
        Span::new(file_id, range)
    }

    /// The source text of a file.
    pub fn source(&self, file_id: FileId) -> (r: Option<&str>)
        ensures
            r is Some <==> file_id.id() < self@.len(),
            r matches Some(s) ==> s@ == self@[file_id.id() as int].text,
    {
        if file_id.index() < self.files.len() {
            Some(self.files[file_id.index()].source.as_str())
        } else {
            None
        }
    }

    /// The name of a file.
    pub fn filename(&self, file_id: FileId) -> (r: Option<&str>)
        ensures
            r is Some <==> file_id.id() < self@.len(),
            r matches Some(s) ==> s@ == self@[file_id.id() as int].name,
    {
        if file_id.index() < self.files.len() {
            Some(self.files[file_id.index()].name.as_str())
        } else {
            None
        }
    }

    /// Index of the last line start at or before `offset`.
    fn line_index(starts: &Vec<usize>, offset: usize, Ghost(b): Ghost<Seq<u8>>) -> (k: usize)
        requires
            starts@ == line_starts(b),
            offset <= b.len(),
            b.len() <= usize::MAX,
        ensures
            k == newlines_before(b, offset as int),
            k < starts@.len(),
            starts@[k as int] == line_begin(b, offset as int),
    {
        proof {
            lemma_line_index(b, offset as int);
            lemma_starts_shape(b, b.len() as int);
        }
        let mut lo: usize = 0;
        let mut hi: usize = starts.len();
        while hi - lo > 1
            invariant
                starts@ == line_starts(b),
                0 <= lo < hi <= starts@.len(),
                starts@[lo as int] <= offset,
                hi < starts@.len() ==> starts@[hi as int] > offset,
                forall|k: int|
                    0 <= k < starts@.len() ==> (#[trigger] starts@[k] <= offset <==> k
                        <= newlines_before(b, offset as int)),
            decreases hi - lo,
        {
            let mid = lo + (hi - lo) / 2;
            if starts[mid] <= offset {
                lo = mid;
            } else {
                hi = mid;
            }
        }
        lo
    }

    /// Converts a byte offset to a 1-based line and column, counting the
    /// column in characters.
    pub fn line_col(&self, file_id: FileId, offset: usize) -> (r: Option<(usize, usize)>)
        requires
            self.wf(),
        ensures
            file_id.id() < self@.len() ==> match r {
                Some((l, c)) => line_col_of(bytes_of(self@[file_id.id() as int]), offset as int)
                    == Some((l as int, c as int)) && l <= usize::MAX / 8 + 1,
                None => line_col_of(bytes_of(self@[file_id.id() as int]), offset as int) is None,
            },
            file_id.id() >= self@.len() ==> r is None,
    {
        if file_id.index() >= self.files.len() {
            return None;
        }
        let file = &self.files[file_id.index()];
        assert(file.wf());
        let text = file.source.as_str();
        let bytes = text.as_bytes();
        let ghost b = text.spec_bytes();
        if offset > bytes.len() || !text.is_char_boundary(offset) {
            return None;
        }
        let line_idx = Self::line_index(&file.line_starts, offset, Ghost(b));
        let line_start = file.line_starts[line_idx];
        proof {
            encode_utf8_valid_utf8(text@);
            lemma_line_start_boundary(b, line_idx as int);
            lemma_starts_shape(b, offset as int);
        }
        let slice = substr(text, line_start, offset);
        proof {
            vstd::utf8::valid_utf8_split(b, offset as int);
            crate::text::lemma_boundary_in_slice(b, line_start as int, offset as int, offset as int);
            lemma_decode_len(b.subrange(line_start as int, offset as int));
            crate::text::lemma_newlines_bound(b, offset as int);
        }
        let column = slice.unicode_len() + 1;
        Some((line_idx + 1, column))
    }

    /// The text of a 1-based line, without its line break.
    pub fn line(&self, file_id: FileId, line_number: usize) -> (r: Option<&str>)
        requires
            self.wf(),
        ensures
            file_id.id() < self@.len() ==> match r {
                Some(s) => line_bytes(bytes_of(self@[file_id.id() as int]), line_number as int)
                    == Some(s.spec_bytes()),
                None => line_bytes(bytes_of(self@[file_id.id() as int]), line_number as int) is None,
            },
            file_id.id() >= self@.len() ==> r is None,
    {
        if line_number == 0 || file_id.index() >= self.files.len() {
            return None;
        }
        let file = &self.files[file_id.index()];
        assert(file.wf());
        let text = file.source.as_str();
        let ghost b = text.spec_bytes();
        if line_number - 1 >= file.line_starts.len() {
            return None;
        }
        let start = file.line_starts[line_number - 1];
        let end = if line_number < file.line_starts.len() {
            let next = file.line_starts[line_number];
            if next > 0 { next - 1 } else { 0 }
        } else {
            text.as_bytes().len()
        };
        proof {
            encode_utf8_valid_utf8(text@);
            lemma_starts_shape(b, b.len() as int);
            lemma_line_start_boundary(b, line_number - 1);
            if line_number < file.line_starts@.len() {
                lemma_line_start_boundary(b, line_number as int);
            } else {
                vstd::utf8::is_char_boundary_start_end_of_seq(b);
            }
            assert(line_range(b, line_number as int) == (start as int, end as int));
        }
        Some(substr(text, start, end))
    }

    /// The offset at which the line holding `offset` begins.
    pub fn line_start(&self, file_id: FileId, offset: usize) -> (r: Option<usize>)
        requires
            self.wf(),
        ensures
            file_id.id() < self@.len() ==> match r {
                Some(s) => offset <= bytes_of(self@[file_id.id() as int]).len() && s
                    == line_begin(bytes_of(self@[file_id.id() as int]), offset as int),
                None => offset > bytes_of(self@[file_id.id() as int]).len(),
            },
            file_id.id() >= self@.len() ==> r is None,
    {
        if file_id.index() >= self.files.len() {
            return None;
        }
        let file = &self.files[file_id.index()];
        assert(file.wf());
        let text = file.source.as_str();
        if offset > text.as_bytes().len() {
            return None;
        }
        let line_idx = Self::line_index(&file.line_starts, offset, Ghost(text.spec_bytes()));
        Some(file.line_starts[line_idx])
    }

    /// The offset at which 1-based line `line_number` begins.
    pub fn line_start_for_line(&self, file_id: FileId, line_number: usize) -> (r: Option<usize>)
        requires
            self.wf(),
        ensures
            file_id.id() < self@.len() ==> match r {
                Some(s) => 1 <= line_number <= line_starts(
                    bytes_of(self@[file_id.id() as int]),
                ).len() && s == line_starts(bytes_of(self@[file_id.id() as int]))[line_number
                    - 1],
                None => line_number == 0 || line_number > line_starts(
                    bytes_of(self@[file_id.id() as int]),
                ).len(),
            },
            file_id.id() >= self@.len() ==> r is None,
    {
        if line_number == 0 || file_id.index() >= self.files.len() {
            return None;
        }
        let file = &self.files[file_id.index()];
        assert(file.wf());
        if line_number - 1 < file.line_starts.len() {
            Some(file.line_starts[line_number - 1])
        } else {
            None
        }
    }

    fn line_starts(source: &str) -> (r: Vec<usize>)
        ensures
            r@ == line_starts(source.spec_bytes()),
    {
        let bytes = source.as_bytes();
        let ghost b = source.spec_bytes();
        let mut starts = Vec::new();
        starts.push(0);
        let mut i: usize = 0;
        while i < bytes.len()
            invariant
                bytes@ == b,
                i <= bytes@.len(),
                starts@ == starts_upto(b, i as int),
            decreases bytes@.len() - i,
        {
            if bytes[i] == 10u8 {
                starts.push(i + 1);
            }
            i += 1;
        }
        starts
    }
}

} // verus!
