//! A source map over several logically concatenated files.
//!
//! Each registered file is assigned a span of a shared offset space, with
//! one padding position between consecutive files so that no offset belongs
//! to two of them. A span can then be resolved back to its file's name, its
//! source text, and a line and column position.

use vstd::prelude::*;
use crate::cursor::slice_chars;

verus! {

/// A half-open-free pair of offsets into the concatenated space; a valid
/// span has `lo <= hi`.
#[derive(Clone, Copy, PartialEq, Eq, Structural, Debug)]
pub struct Span {
    pub lo: usize,
    pub hi: usize,
}

/// The resolved location of a span's start: the owning file's path, a
/// 1-indexed line and a 0-indexed column.
#[derive(PartialEq, Eq, Debug)]
pub struct LocInfo {
    pub path: String,
    pub line: usize,
    pub col: usize,
}

/// Why a span could not be resolved.
#[derive(Clone, Copy, PartialEq, Eq, Structural, Debug)]
pub enum SpanError {
    NegativeLength,
    NotFound,
}

/// The start offsets of the lines of `s`: offset zero, then one past each
/// newline.
pub open spec fn line_starts(s: Seq<char>) -> Seq<usize>
    decreases s.len(),
{
    if s.len() == 0 {
        seq![0usize]
    } else {
        line_starts(s.drop_last()) + (if s.last() == '\n' {
            seq![s.len() as usize]
        } else {
            Seq::empty()
        })
    }
}

pub proof fn lemma_line_starts_sorted(s: Seq<char>)
    requires
        s.len() <= usize::MAX,
    ensures
        line_starts(s).len() >= 1,
        line_starts(s)[0] == 0,
        forall|k: int| 0 <= k < line_starts(s).len() ==> #[trigger] line_starts(s)[k] <= s.len(),
        forall|a: int, b: int|
            0 <= a < b < line_starts(s).len() ==> #[trigger] line_starts(s)[a]
                < #[trigger] line_starts(s)[b],
    decreases s.len(),
{
    if s.len() > 0 {
        lemma_line_starts_sorted(s.drop_last());
    }
}

/// Computes the line start offsets of `s`.
pub fn lines_offsets(s: &[char]) -> (r: Vec<usize>)
    ensures
        r@ == line_starts(s@),
{
    let n = s.len();
    let mut r: Vec<usize> = Vec::new();
    r.push(0);
    proof {
        assert(r@ =~= line_starts(s@.take(0)));
    }
    let mut i: usize = 0;
    while i < n
        invariant
            0 <= i <= n,
            n == s@.len(),
            r@ == line_starts(s@.take(i as int)),
        decreases n - i,
    {
        if s[i] == '\n' {
            r.push(i + 1);
        }
        proof {
            assert(s@.take(i as int + 1).drop_last() =~= s@.take(i as int));
            assert(r@ =~= line_starts(s@.take(i as int + 1)));
        }
        i = i + 1;
    }
    proof {
        assert(s@.take(n as int) =~= s@);
    }
    r
}

/// Turns a character offset into a position against the line start table
/// `lines`: an offset that begins a line is that line with column zero
/// (lines 1-indexed); any other offset falls on the latest line starting at
/// or before it, with the distance as its column.
pub fn offset_line_col(lines: &Vec<usize>, off: usize) -> (r: (usize, usize))
    requires
        lines@.len() >= 1,
        lines@[0] == 0,
        forall|a: int, b: int|
            0 <= a < b < lines@.len() ==> #[trigger] lines@[a] < #[trigger] lines@[b],
    ensures
        (exists|k: int| 0 <= k < lines@.len() && lines@[k] == off) ==> (1 <= r.0 <= lines@.len()
            && lines@[r.0 - 1] == off && r.1 == 0),
        (forall|k: int| 0 <= k < lines@.len() ==> lines@[k] != off) ==> (1 <= r.0 <= lines@.len()
            && lines@[r.0 - 1] < off && (r.0 == lines@.len() || lines@[r.0 as int] > off) && r.1
            == off - lines@[r.0 - 1]),
{
    let n = lines.len();
    let mut lo: usize = 0;
    let mut hi: usize = n;
    while lo < hi
        invariant
            0 <= lo <= hi <= n,
            n == lines@.len(),
            lines@[0] == 0,
            forall|a: int, b: int|
                0 <= a < b < lines@.len() ==> #[trigger] lines@[a] < #[trigger] lines@[b],
            forall|k: int| 0 <= k < lo ==> #[trigger] lines@[k] < off,
            forall|k: int| hi <= k < n ==> #[trigger] lines@[k] > off,
        decreases hi - lo,
    {
        let mid = lo + (hi - lo) / 2;
        if lines[mid] == off {
            return (mid + 1, 0);
        } else if lines[mid] < off {
            lo = mid + 1;
        } else {
            hi = mid;
        }
    }
    (lo, off - lines[lo - 1])
}

struct FileInfo {
    span: Span,
    path: String,
    src: Vec<char>,
    lines: Vec<usize>,
}

/// Maps spans of a shared offset space back to the files registered in it.
pub struct SourceMap {
    files: Vec<FileInfo>,
    offset: usize,
}

impl SourceMap {
    /// The number of registered files.
    pub closed spec fn file_count(self) -> nat {
        self.files@.len()
    }

    /// The span assigned to file `k`.
    pub closed spec fn file_span(self, k: int) -> Span {
        self.files@[k].span
    }

    /// The path of file `k`.
    pub closed spec fn file_path(self, k: int) -> Seq<char> {
        self.files@[k].path@
    }

    /// The source text of file `k`.
    pub closed spec fn file_src(self, k: int) -> Seq<char> {
        self.files@[k].src@
    }

    /// The offset the next registered file would begin at.
    pub closed spec fn total_offset(self) -> nat {
        self.offset as nat
    }

    /// Every file's span covers exactly its text, its line table is that
    /// text's, and the spans of distinct files are disjoint, in order, with
    /// at least one padding position between them.
    pub closed spec fn wf(self) -> bool {
        &&& forall|k: int|
            0 <= k < self.files@.len() ==> {
                let fi = #[trigger] self.files@[k];
                &&& fi.span.lo <= fi.span.hi
                &&& fi.span.hi - fi.span.lo == fi.src@.len()
                &&& fi.lines@ == line_starts(fi.src@)
            }
        &&& forall|k: int, l: int|
            0 <= k < l < self.files@.len() ==> (#[trigger] self.files@[k]).span.hi
                < (#[trigger] self.files@[l]).span.lo
        &&& (self.files@.len() > 0 ==> self.files@.last().span.hi < self.offset)
    }

    /// Whether `span` lies entirely within file `k`'s span.
    pub open spec fn span_in_file(self, span: Span, k: int) -> bool {
        &&& 0 <= k < self.file_count()
        &&& self.file_span(k).lo <= span.lo <= self.file_span(k).hi
        &&& self.file_span(k).lo <= span.hi <= self.file_span(k).hi
    }

    /// A source map with no files.
    pub fn new() -> (r: SourceMap)
        ensures
            r.wf(),
            r.file_count() == 0,
            r.total_offset() == 0,
    {
        SourceMap { files: Vec::new(), offset: 0 }
    }

    /// Registers one file's text under its path, assigning it the next
    /// span of the offset space and leaving one padding position after it.
    pub fn add_file(&mut self, path: String, src: Vec<char>) -> (r: Span)
        requires
            old(self).wf(),
            old(self).total_offset() + src@.len() + 1 <= usize::MAX,
        ensures
            final(self).wf(),
            final(self).file_count() == old(self).file_count() + 1,
            r == final(self).file_span(old(self).file_count() as int),
            r.lo == old(self).total_offset(),
            r.hi == r.lo + src@.len(),
            final(self).file_path(old(self).file_count() as int) == path@,
            final(self).file_src(old(self).file_count() as int) == src@,
            final(self).total_offset() == old(self).total_offset() + src@.len() + 1,
            forall|k: int|
                0 <= k < old(self).file_count() ==> {
                    &&& final(self).file_span(k) == old(self).file_span(k)
                    &&& final(self).file_path(k) == old(self).file_path(k)
                    &&& final(self).file_src(k) == old(self).file_src(k)
                },
    {
        let lo = self.offset;
        let hi = lo + src.len();
        let span = Span { lo, hi };
        let lines = lines_offsets(src.as_slice());
        self.files.push(FileInfo { span, path, src, lines });
        self.offset = hi + 1;
        span
    }

    /// The first file whose span contains `span` whole, when `span` is not
    /// reversed; by well-formedness at most one file can.
    fn local_fileinfo(&self, span: Span) -> (r: Result<usize, SpanError>)
        requires
            self.wf(),
        ensures
            match r {
                Ok(k) => span.lo <= span.hi && self.span_in_file(span, k as int),
                Err(e) => match e {
                    SpanError::NegativeLength => span.lo > span.hi,
                    SpanError::NotFound => span.lo <= span.hi && forall|k: int|
                        !self.span_in_file(span, k),
                },
            },
    {
        if span.lo > span.hi {
            return Err(SpanError::NegativeLength);
        }
        let n = self.files.len();
        let mut j: usize = 0;
        while j < n
            invariant
                0 <= j <= n,
                n == self.files@.len(),
                self.wf(),
                span.lo <= span.hi,
                forall|k: int| 0 <= k < j ==> !self.span_in_file(span, k),
            decreases n - j,
        {
            let fi = &self.files[j];
            if span.lo >= fi.span.lo && span.lo <= fi.span.hi && span.hi >= fi.span.lo && span.hi
                <= fi.span.hi {
                return Ok(j);
            }
            j = j + 1;
        }
        Err(SpanError::NotFound)
    }

    /// The path of the file containing `span`.
    pub fn filename(&self, span: Span) -> (r: Result<String, SpanError>)
        requires
            self.wf(),
        ensures
            match r {
                Ok(p) => span.lo <= span.hi && (exists|k: int| self.span_in_file(span, k))
                    && forall|k: int| self.span_in_file(span, k) ==> p@ == self.file_path(k),
                Err(e) => match e {
                    SpanError::NegativeLength => span.lo > span.hi,
                    SpanError::NotFound => span.lo <= span.hi && forall|k: int|
                        !self.span_in_file(span, k),
                },
            },
    {
        let k = self.local_fileinfo(span)?;
        proof {
            self.lemma_unique_file(span, k as int);
        }
        Ok(self.files[k].path.clone())
    }

    /// The text that `span` covers within its file.
    pub fn source_text(&self, span: Span) -> (r: Result<Vec<char>, SpanError>)
        requires
            self.wf(),
        ensures
            match r {
                Ok(v) => span.lo <= span.hi && (exists|k: int| self.span_in_file(span, k))
                    && forall|k: int|
                    self.span_in_file(span, k) ==> v@ == self.file_src(k).subrange(
                        span.lo - self.file_span(k).lo,
                        span.hi - self.file_span(k).lo,
                    ),
                Err(e) => match e {
                    SpanError::NegativeLength => span.lo > span.hi,
                    SpanError::NotFound => span.lo <= span.hi && forall|k: int|
                        !self.span_in_file(span, k),
                },
            },
    {
        let k = self.local_fileinfo(span)?;
        proof {
            self.lemma_unique_file(span, k as int);
        }
        let fi = &self.files[k];
        Ok(slice_chars(fi.src.as_slice(), span.lo - fi.span.lo, span.hi - fi.span.lo))
    }

    /// The file, 1-indexed line, and 0-indexed column at which `span`
    /// begins.
    pub fn locinfo(&self, span: Span) -> (r: Result<LocInfo, SpanError>)
        requires
            self.wf(),
        ensures
            match r {
                Ok(li) => span.lo <= span.hi && (exists|k: int| self.span_in_file(span, k))
                    && forall|k: int|
                    self.span_in_file(span, k) ==> {
                        let loff = span.lo - self.file_span(k).lo;
                        let lines = line_starts(self.file_src(k));
                        &&& li.path@ == self.file_path(k)
                        &&& ((exists|m: int| 0 <= m < lines.len() && lines[m] == loff) ==> (1
                            <= li.line <= lines.len() && lines[li.line - 1] == loff && li.col
                            == 0))
                        &&& ((forall|m: int| 0 <= m < lines.len() ==> lines[m] != loff) ==> (1
                            <= li.line <= lines.len() && lines[li.line - 1] < loff && (li.line
                            == lines.len() || lines[li.line as int] > loff) && li.col == loff
                            - lines[li.line - 1]))
                    },
                Err(e) => match e {
                    SpanError::NegativeLength => span.lo > span.hi,
                    SpanError::NotFound => span.lo <= span.hi && forall|k: int|
                        !self.span_in_file(span, k),
                },
            },
    {
        let k = self.local_fileinfo(span)?;
        proof {
            self.lemma_unique_file(span, k as int);
        }
        let fi = &self.files[k];
        let loff = span.lo - fi.span.lo;
        proof {
            lemma_line_starts_sorted(fi.src@);
        }
        let (line, col) = offset_line_col(&fi.lines, loff);
        Ok(LocInfo { path: fi.path.clone(), line, col })
    }

    proof fn lemma_unique_file(self, span: Span, k: int)
        requires
            self.wf(),
            self.span_in_file(span, k),
        ensures
            forall|l: int| self.span_in_file(span, l) ==> l == k,
    {
    }
}

} // verus!
