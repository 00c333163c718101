//! Position-tracking cursor over a scanned text.
//!
//! The text is held once as a slice of characters; a [`Cursor`] is a plain
//! triple of offset, line and column. Every scanning operation returns a new
//! cursor, so backtracking is a matter of keeping the cursor one had before.
//! Well-formedness ties the line and column fields to the number of newlines
//! among the consumed characters.

use vstd::prelude::*;
use vstd::string::*;

verus! {

/// A lexing failure, carrying only the line (0-indexed) where it was found.
/// The caller owns the file name and builds the full diagnostic.
#[derive(Debug)]
pub struct LexError {
    pub line: usize,
}

/// Number of newline characters among the first `p` characters of `s`.
pub open spec fn line_at(s: Seq<char>, p: int) -> nat
    decreases p,
{
    if p <= 0 {
        0
    } else {
        line_at(s, p - 1) + (if 0 <= p - 1 < s.len() && s[p - 1] == '\n' {
            1nat
        } else {
            0nat
        })
    }
}

/// Column of the position after the first `p` characters of `s`: the number
/// of characters since the last newline among them, or `p` if there is none.
pub open spec fn col_at(s: Seq<char>, p: int) -> nat
    decreases p,
{
    if p <= 0 {
        0
    } else if p - 1 < s.len() && s[p - 1] == '\n' {
        0
    } else {
        col_at(s, p - 1) + 1
    }
}

pub proof fn lemma_line_at_le(s: Seq<char>, p: int)
    ensures
        line_at(s, p) <= (if p <= 0 { 0int } else { p }),
    decreases p,
{
    if p > 0 {
        lemma_line_at_le(s, p - 1);
    }
}

pub proof fn lemma_col_at_le(s: Seq<char>, p: int)
    ensures
        col_at(s, p) <= (if p <= 0 { 0int } else { p }),
    decreases p,
{
    if p > 0 {
        lemma_col_at_le(s, p - 1);
    }
}

pub proof fn lemma_line_at_mono(s: Seq<char>, a: int, b: int)
    requires
        a <= b,
    ensures
        line_at(s, a) <= line_at(s, b),
    decreases b - a,
{
    if a < b {
        lemma_line_at_mono(s, a, b - 1);
    }
}

/// Law: advancing across a window with no newline adds the window's length
/// to the column.
pub proof fn lemma_col_no_newline(s: Seq<char>, a: int, b: int)
    requires
        0 <= a <= b <= s.len(),
        forall|j: int| a <= j < b ==> s[j] != '\n',
    ensures
        col_at(s, b) == col_at(s, a) + (b - a),
    decreases b - a,
{
    if a < b {
        lemma_col_no_newline(s, a, b - 1);
    }
}

/// Law: advancing across a window whose last newline stands at `p` leaves
/// the column at the distance from that newline.
pub proof fn lemma_col_after_newline(s: Seq<char>, p: int, b: int)
    requires
        0 <= p < b <= s.len(),
        s[p] == '\n',
        forall|j: int| p < j < b ==> s[j] != '\n',
    ensures
        col_at(s, b) == b - p - 1,
    decreases b - p,
{
    if p + 1 < b {
        lemma_col_after_newline(s, p, b - 1);
    }
}

/// `needle` occurs in `s` starting at position `p`.
pub open spec fn matches_at(s: Seq<char>, needle: Seq<char>, p: int) -> bool {
    &&& 0 <= p
    &&& p + needle.len() <= s.len()
    &&& forall|j: int| 0 <= j < needle.len() ==> s[p + j] == needle[j]
}

/// An immutable view of a position in a text: how many characters were
/// consumed, and the line and column reached. The text itself is passed to
/// each operation alongside the cursor.
#[derive(Clone, Copy, PartialEq, Eq, Structural, Debug)]
pub struct Cursor {
    pub off: usize,
    pub line: usize,
    pub column: usize,
}

impl Cursor {
    /// The cursor lies within `s` and its line and column agree with the
    /// newlines among the consumed characters.
    pub open spec fn wf(self, s: Seq<char>) -> bool {
        &&& self.off <= s.len()
        &&& self.line == line_at(s, self.off as int)
        &&& self.column == col_at(s, self.off as int)
    }

    /// The characters not yet consumed.
    pub open spec fn rest(self, s: Seq<char>) -> Seq<char> {
        s.skip(self.off as int)
    }

    /// Returns a new cursor advanced by `amt` characters, with line and
    /// column recomputed across any newlines in the consumed window.
    pub fn advance(&self, s: &[char], amt: usize) -> (r: Cursor)
        requires
            self.wf(s@),
            self.off + amt <= s@.len(),
        ensures
            r.wf(s@),
            r.off == self.off + amt,
    {
        let slen = s.len();
        let end = self.off + amt;
        let mut line = self.line;
        let mut column = self.column;
        let mut j: usize = self.off;
        while j < end
            invariant
                self.off <= j <= end,
                end <= s@.len(),
                line == line_at(s@, j as int),
                column == col_at(s@, j as int),
            decreases end - j,
        {
            proof {
                lemma_line_at_le(s@, j as int);
                lemma_col_at_le(s@, j as int);
            }
            if s[j] == '\n' {
                line = line + 1;
                column = 0;
            } else {
                column = column + 1;
            }
            j = j + 1;
        }
        Cursor { off: end, line, column }
    }

    /// Index, relative to the remaining text, of the first occurrence of `p`.
    pub fn find(&self, s: &[char], p: char) -> (r: Option<usize>)
        requires
            self.wf(s@),
        ensures
            match r {
                Some(k) => {
                    &&& self.off + k < s@.len()
                    &&& s@[self.off + k] == p
                    &&& forall|m: int| self.off <= m < self.off + k ==> s@[m] != p
                },
                None => forall|m: int| self.off <= m < s@.len() ==> s@[m] != p,
            },
    {
        let mut j: usize = self.off;
        while j < s.len()
            invariant
                self.off <= j <= s@.len(),
                forall|m: int| self.off <= m < j ==> s@[m] != p,
            decreases s@.len() - j,
        {
            if s[j] == p {
                return Some(j - self.off);
            }
            j = j + 1;
        }
        None
    }

    /// Whether the remaining text begins with `needle`.
    pub fn starts_with(&self, s: &[char], needle: &[char]) -> (r: bool)
        requires
            self.wf(s@),
        ensures
            r == matches_at(s@, needle@, self.off as int),
    {
        let slen = s.len();
        if needle.len() > slen - self.off {
            return false;
        }
        let mut j: usize = 0;
        while j < needle.len()
            invariant
                0 <= j <= needle@.len(),
                slen == s@.len(),
                self.off + needle@.len() <= s@.len(),
                forall|m: int| 0 <= m < j ==> s@[self.off + m] == needle@[m],
            decreases needle@.len() - j,
        {
            if s[self.off + j] != needle[j] {
                return false;
            }
            j = j + 1;
        }
        true
    }

    /// Whether the character at the cursor is `c`.
    pub fn at_char(&self, s: &[char], c: char) -> (r: bool)
        requires
            self.wf(s@),
        ensures
            r == (self.off < s@.len() && s@[self.off as int] == c),
    {
        self.off < s.len() && s[self.off] == c
    }

    /// Whether all input has been consumed.
    pub fn is_empty(&self, s: &[char]) -> (r: bool)
        requires
            self.wf(s@),
        ensures
            r == (self.off == s@.len()),
    {
        self.off == s.len()
    }

    /// Number of characters remaining.
    pub fn len(&self, s: &[char]) -> (r: usize)
        requires
            self.wf(s@),
        ensures
            r == s@.len() - self.off,
    {
        s.len() - self.off
    }

    /// A copy of the remaining characters.
    pub fn chars(&self, s: &[char]) -> (r: Vec<char>)
        requires
            self.wf(s@),
        ensures
            r@ == self.rest(s@),
    {
        let r = slice_chars(s, self.off, s.len());
        proof {
            assert(r@ =~= self.rest(s@));
        }
        r
    }

    /// The UTF-8 encoding of the remaining characters.
    pub fn as_bytes(&self, s: &[char]) -> (r: Vec<u8>)
        requires
            self.wf(s@),
        ensures
            r@ == vstd::utf8::encode_utf8(self.rest(s@)),
    {
        let v = self.chars(s);
        let t = crate::strbuild::chars_to_string(&v);
        vstd::slice::slice_to_vec(t.as_str().as_bytes())
    }

    /// The UTF-8 encoding of the remaining characters, byte by byte.
    pub fn bytes(&self, s: &[char]) -> (r: Vec<u8>)
        requires
            self.wf(s@),
        ensures
            r@ == vstd::utf8::encode_utf8(self.rest(s@)),
    {
        self.as_bytes(s)
    }

    /// The remaining characters, each paired with its index relative to the
    /// cursor.
    pub fn char_indices(&self, s: &[char]) -> (r: Vec<(usize, char)>)
        requires
            self.wf(s@),
        ensures
            r@.len() == s@.len() - self.off,
            forall|k: int|
                0 <= k < r@.len() ==> r@[k].0 == k && r@[k].1 == s@[self.off + k],
    {
        let mut r: Vec<(usize, char)> = Vec::new();
        let mut j: usize = self.off;
        while j < s.len()
            invariant
                self.off <= j <= s@.len(),
                r@.len() == j - self.off,
                forall|k: int|
                    0 <= k < r@.len() ==> r@[k].0 == k && r@[k].1 == s@[self.off + k],
            decreases s@.len() - j,
        {
            r.push((j - self.off, s[j]));
            j = j + 1;
        }
        r
    }
}

/// A fresh cursor at the start of `s`.
pub fn new_cursor(s: &[char]) -> (c: Cursor)
    ensures
        c.wf(s@),
        c.off == 0 && c.line == 0 && c.column == 0,
{
    let _ = s;
    Cursor { off: 0, line: 0, column: 0 }
}

/// The characters of a string slice, in order.
pub fn text_of(s: &str) -> (r: Vec<char>)
    ensures
        r@ == s@,
{
    let n = s.unicode_len();
    let mut r: Vec<char> = Vec::new();
    let mut i: usize = 0;
    while i < n
        invariant
            n == s@.len(),
            0 <= i <= n,
            r@ == s@.take(i as int),
        decreases n - i,
    {
        let c = s.get_char(i);
        r.push(c);
        proof {
            assert(r@ =~= s@.take(i as int + 1));
        }
        i = i + 1;
    }
    proof {
        assert(r@ =~= s@);
    }
    r
}

/// A copy of `s[a..b]`.
pub fn slice_chars(s: &[char], a: usize, b: usize) -> (r: Vec<char>)
    requires
        a <= b <= s@.len(),
    ensures
        r@ == s@.subrange(a as int, b as int),
{
    let mut r: Vec<char> = Vec::new();
    let mut j: usize = a;
    while j < b
        invariant
            a <= j <= b <= s@.len(),
            r@ == s@.subrange(a as int, j as int),
        decreases b - j,
    {
        r.push(s[j]);
        proof {
            assert(r@ =~= s@.subrange(a as int, j as int + 1));
        }
        j = j + 1;
    }
    r
}

/// The consumed prefix of the text at cursor `c`.
pub open spec fn consumed_text(s: Seq<char>, c: Cursor) -> Seq<char> {
    s.take(c.off as int)
}

/// The remaining suffix of the text at cursor `c`.
pub open spec fn remaining_text(s: Seq<char>, c: Cursor) -> Seq<char> {
    s.skip(c.off as int)
}

/// Law: at every well-formed cursor, concatenating the consumed prefix with
/// the remaining suffix reconstructs the scanned text exactly; no characters
/// are invented or dropped by moving a cursor.
pub proof fn lemma_scan_round_trip(s: Seq<char>, c: Cursor)
    requires
        c.wf(s),
    ensures
        consumed_text(s, c) + remaining_text(s, c) == s,
{
    assert(consumed_text(s, c) + remaining_text(s, c) =~= s);
}

/// Law: a cursor advanced past `k` leading newlines reports line `k`.
pub proof fn lemma_line_counts_newlines(s: Seq<char>, c: Cursor, k: int)
    requires
        c.wf(s),
        c.off == k,
        0 <= k <= s.len(),
        forall|j: int| 0 <= j < k ==> s[j] == '\n',
    ensures
        c.line == k,
    decreases k,
{
    if k > 0 {
        let c0 = Cursor { off: (k - 1) as usize, line: line_at(s, k - 1) as usize, column: col_at(s, k - 1) as usize };
        lemma_line_at_le(s, k - 1);
        lemma_col_at_le(s, k - 1);
        lemma_line_counts_newlines(s, c0, k - 1);
    }
}

} // verus!
