//! Skipping of whitespace and comments.
//!
//! The scanner skips ASCII whitespace, the additional Unicode whitespace
//! code points (plus the left-to-right and right-to-left marks), `//` line
//! comments through their newline, and `/* ... */` block comments with
//! arbitrary nesting depth. An empty block comment `/**/` is a four-character
//! unit of its own, distinct from the nested-comment path.

use vstd::prelude::*;
use crate::cursor::{Cursor, LexError, line_at};

verus! {

/// Whether `char::is_whitespace` holds of `c`: the Unicode `White_Space`
/// property. The result depends on the character alone.
pub uninterp spec fn unicode_ws(c: char) -> bool;

/// Relies on `char::is_whitespace`: tests the Unicode `White_Space` property;
/// the result depends on the character alone.
#[verifier::external_body]
pub(crate) fn char_is_whitespace(c: char) -> (r: bool)
    ensures
        r == unicode_ws(c),
{
    c.is_whitespace()
}

/// Whitespace as the scanner sees it: Unicode whitespace, plus the
/// left-to-right and right-to-left mark characters, which the host language
/// also treats as whitespace.
pub open spec fn spec_is_whitespace(c: char) -> bool {
    unicode_ws(c) || c == '\u{200e}' || c == '\u{200f}'
}

/// Whether the scanner skips `ch` as whitespace.
pub fn is_whitespace(ch: char) -> (r: bool)
    ensures
        r == spec_is_whitespace(ch),
{
    char_is_whitespace(ch) || ch == '\u{200e}' || ch == '\u{200f}'
}

/// A single character the whitespace skipper consumes: ASCII space and the
/// control whitespace range, or, past ASCII, anything `is_whitespace` admits.
pub open spec fn ws_char(c: char) -> bool {
    c == ' ' || ('\u{09}' <= c && c <= '\u{0d}') || (c > '\u{7f}' && spec_is_whitespace(c))
}

/// First position at or after `i` holding character `c`.
pub open spec fn first_at(s: Seq<char>, c: char, i: int) -> Option<int>
    decreases s.len() - i,
{
    if i < 0 || i >= s.len() {
        None
    } else if s[i] == c {
        Some(i)
    } else {
        first_at(s, c, i + 1)
    }
}

pub proof fn lemma_first_at(s: Seq<char>, c: char, i: int)
    requires
        0 <= i,
    ensures
        match first_at(s, c, i) {
            Some(j) => i <= j < s.len() && s[j] == c && forall|m: int| i <= m < j ==> s[m] != c,
            None => forall|m: int| i <= m < s.len() ==> s[m] != c,
        },
    decreases s.len() - i,
{
    if i < s.len() && s[i] != c {
        lemma_first_at(s, c, i + 1);
    }
}

/// Scan of a block comment: `i` points at `/*`; nesting is tracked in
/// `depth`, and the result is the position just past the `*/` that returns
/// the nesting to zero, or `None` when the input ends first.
pub open spec fn bc_scan(s: Seq<char>, i: int, depth: int) -> Option<int>
    decreases s.len() - i,
{
    if i < 0 || i + 1 >= s.len() {
        None
    } else if s[i] == '/' && s[i + 1] == '*' {
        bc_scan(s, i + 2, depth + 1)
    } else if s[i] == '*' && s[i + 1] == '/' {
        if depth == 1 {
            Some(i + 2)
        } else {
            bc_scan(s, i + 2, depth - 1)
        }
    } else {
        bc_scan(s, i + 1, depth)
    }
}

pub proof fn lemma_bc_scan_bounds(s: Seq<char>, i: int, depth: int)
    ensures
        match bc_scan(s, i, depth) {
            Some(e) => i + 2 <= e <= s.len(),
            None => true,
        },
    decreases s.len() - i,
{
    if 0 <= i && i + 1 < s.len() {
        if s[i] == '/' && s[i + 1] == '*' {
            lemma_bc_scan_bounds(s, i + 2, depth + 1);
        } else if s[i] == '*' && s[i + 1] == '/' {
            if depth != 1 {
                lemma_bc_scan_bounds(s, i + 2, depth - 1);
            }
        } else {
            lemma_bc_scan_bounds(s, i + 1, depth);
        }
    }
}

/// Outcome of the whitespace-and-comment scan started at `i`: either the
/// first position it cannot skip, or the position of a block comment that
/// never closes.
pub enum WsScan {
    Stop { at: int },
    Bad { at: int },
}

/// Start of a `//` line comment at `i`.
pub open spec fn line_comment_at(s: Seq<char>, i: int) -> bool {
    0 <= i && i + 1 < s.len() && s[i] == '/' && s[i + 1] == '/'
}

/// The empty block comment `/**/` at `i`.
pub open spec fn empty_block_at(s: Seq<char>, i: int) -> bool {
    0 <= i && i + 3 < s.len() && s[i] == '/' && s[i + 1] == '*' && s[i + 2] == '*' && s[i + 3]
        == '/'
}

/// Start of a block comment at `i`.
pub open spec fn block_at(s: Seq<char>, i: int) -> bool {
    0 <= i && i + 1 < s.len() && s[i] == '/' && s[i + 1] == '*'
}

/// The whitespace-and-comment scan: from `i`, repeatedly skip whitespace
/// characters, line comments (through their newline, or to the end of input),
/// the empty block comment, and nested block comments, stopping at the first
/// position that is none of these.
pub open spec fn ws_scan(s: Seq<char>, i: int) -> WsScan
    decreases s.len() - i,
    via ws_scan_dec
{
    if i < 0 || i >= s.len() {
        WsScan::Stop { at: if i < 0 { i } else { s.len() as int } }
    } else if line_comment_at(s, i) {
        match first_at(s, '\n', i) {
            Some(j) => ws_scan(s, j + 1),
            None => WsScan::Stop { at: s.len() as int },
        }
    } else if empty_block_at(s, i) {
        ws_scan(s, i + 4)
    } else if block_at(s, i) {
        match bc_scan(s, i, 0) {
            Some(e) => ws_scan(s, e),
            None => WsScan::Bad { at: i },
        }
    } else if ws_char(s[i]) {
        ws_scan(s, i + 1)
    } else {
        WsScan::Stop { at: i }
    }
}

#[via_fn]
proof fn ws_scan_dec(s: Seq<char>, i: int) {
    if 0 <= i < s.len() {
        if line_comment_at(s, i) {
            lemma_first_at(s, '\n', i);
        } else if !empty_block_at(s, i) && block_at(s, i) {
            lemma_bc_scan_bounds(s, i, 0);
        }
    }
}

/// The position the public skip entry point lands on: the scan's stop, or
/// `i` unchanged when the scan fails inside an unterminated block comment.
pub open spec fn ws_pos(s: Seq<char>, i: int) -> int {
    match ws_scan(s, i) {
        WsScan::Stop { at } => at,
        WsScan::Bad { at: _ } => i,
    }
}

pub proof fn lemma_ws_scan_bounds(s: Seq<char>, i: int)
    requires
        0 <= i <= s.len(),
    ensures
        match ws_scan(s, i) {
            WsScan::Stop { at } => i <= at <= s.len(),
            WsScan::Bad { at } => i <= at < s.len(),
        },
        i <= ws_pos(s, i) <= s.len(),
    decreases s.len() - i,
{
    if i < s.len() {
        if line_comment_at(s, i) {
            lemma_first_at(s, '\n', i);
            if let Some(j) = first_at(s, '\n', i) {
                lemma_ws_scan_bounds(s, j + 1);
            }
        } else if empty_block_at(s, i) {
            lemma_ws_scan_bounds(s, i + 4);
        } else if block_at(s, i) {
            lemma_bc_scan_bounds(s, i, 0);
            if let Some(e) = bc_scan(s, i, 0) {
                lemma_ws_scan_bounds(s, e);
            }
        } else if ws_char(s[i]) {
            lemma_ws_scan_bounds(s, i + 1);
        }
    }
}

proof fn lemma_ws_scan_stop_fixed(s: Seq<char>, i: int)
    requires
        0 <= i <= s.len(),
    ensures
        match ws_scan(s, i) {
            WsScan::Stop { at } => ws_scan(s, at) == WsScan::Stop { at },
            WsScan::Bad { at: _ } => true,
        },
    decreases s.len() - i,
{
    if i < s.len() {
        if line_comment_at(s, i) {
            lemma_first_at(s, '\n', i);
            if let Some(j) = first_at(s, '\n', i) {
                lemma_ws_scan_stop_fixed(s, j + 1);
            }
        } else if empty_block_at(s, i) {
            lemma_ws_scan_stop_fixed(s, i + 4);
        } else if block_at(s, i) {
            lemma_bc_scan_bounds(s, i, 0);
            if let Some(e) = bc_scan(s, i, 0) {
                lemma_ws_scan_stop_fixed(s, e);
            }
        } else if ws_char(s[i]) {
            lemma_ws_scan_stop_fixed(s, i + 1);
        }
    }
}

/// Law: skipping whitespace and comments twice in a row is the same as
/// skipping once; the position the skip stops at has nothing more to skip.
pub proof fn lemma_skip_whitespace_idempotent(s: Seq<char>, i: int)
    requires
        0 <= i <= s.len(),
    ensures
        ws_pos(s, ws_pos(s, i)) == ws_pos(s, i),
{
    lemma_ws_scan_bounds(s, i);
    lemma_ws_scan_stop_fixed(s, i);
}

/// Consumes a block comment, with arbitrarily nested `/* */` pairs, returning
/// the cursor past its close and the number of characters consumed. Fails,
/// reporting the line of `input`, when no comment starts here or the comment
/// never closes.
pub fn block_comment(s: &[char], input: Cursor) -> (r: Result<(Cursor, usize), LexError>)
    requires
        input.wf(s@),
    ensures
        match r {
            Ok((c2, n)) => {
                &&& block_at(s@, input.off as int)
                &&& bc_scan(s@, input.off as int, 0) == Some(c2.off as int)
                &&& c2.off == input.off + n
                &&& c2.wf(s@)
            },
            Err(e) => {
                &&& e.line == input.line
                &&& (!block_at(s@, input.off as int) || bc_scan(s@, input.off as int, 0) is None)
            },
        },
{
    let slen = s.len();
    if !(slen - input.off >= 2 && s[input.off] == '/' && s[input.off + 1] == '*') {
        return Err(LexError { line: input.line });
    }
    let ghost i0 = input.off as int;
    let mut depth: usize = 1;
    let mut i: usize = input.off + 2;
    loop
        invariant
            input.wf(s@),
            input.off + 2 <= i <= slen,
            depth >= 1,
            depth <= i,
            slen == s@.len(),
            bc_scan(s@, i as int, depth as int) == bc_scan(s@, i0, 0),
            i0 == input.off as int,
            block_at(s@, i0),
        decreases slen - i,
    {
        if slen - i <= 1 {
            return Err(LexError { line: input.line });
        }
        if s[i] == '/' && s[i + 1] == '*' {
            depth = depth + 1;
            i = i + 2;
        } else if s[i] == '*' && s[i + 1] == '/' {
            if depth == 1 {
                let n = i + 2 - input.off;
                let c2 = input.advance(s, n);
                return Ok((c2, n));
            }
            depth = depth - 1;
            i = i + 2;
        } else {
            i = i + 1;
        }
    }
}

/// Skips whitespace and comments. Fails, and leaves the caller to keep its
/// cursor, when there is nothing to skip or a block comment never closes.
pub fn whitespace(s: &[char], input: Cursor) -> (r: Result<Cursor, LexError>)
    requires
        input.wf(s@),
    ensures
        match r {
            Ok(c2) => {
                &&& ws_scan(s@, input.off as int) == (WsScan::Stop { at: c2.off as int })
                &&& c2.off > input.off
                &&& c2.wf(s@)
            },
            Err(e) => match ws_scan(s@, input.off as int) {
                WsScan::Stop { at } => at == input.off && e.line == input.line,
                WsScan::Bad { at } => e.line == line_at(s@, at),
            },
        },
{
    let slen = s.len();
    let mut cur = input;
    loop
        invariant
            input.wf(s@),
            cur.wf(s@),
            input.off <= cur.off,
            slen == s@.len(),
            ws_scan(s@, cur.off as int) == ws_scan(s@, input.off as int),
        decreases slen - cur.off,
    {
        if cur.off == slen {
            if cur.off == input.off {
                return Err(LexError { line: input.line });
            }
            return Ok(cur);
        }
        let c = s[cur.off];
        if c == '/' && cur.off + 1 < slen && s[cur.off + 1] == '/' {
            match cur.find(s, '\n') {
                Some(k) => {
                    proof {
                        lemma_first_at(s@, '\n', cur.off as int);
                    }
                    cur = cur.advance(s, k + 1);
                },
                None => {
                    proof {
                        lemma_first_at(s@, '\n', cur.off as int);
                    }
                    return Ok(cur.advance(s, slen - cur.off));
                },
            }
        } else if c == '/' && slen - cur.off > 3 && s[cur.off + 1] == '*' && s[cur.off + 2] == '*'
            && s[cur.off + 3] == '/' {
            cur = cur.advance(s, 4);
        } else if c == '/' && cur.off + 1 < slen && s[cur.off + 1] == '*' {
            match block_comment(s, cur) {
                Ok((c2, _n)) => {
                    proof {
                        lemma_bc_scan_bounds(s@, cur.off as int, 0);
                    }
                    cur = c2;
                },
                Err(_e) => {
                    return Err(LexError { line: cur.line });
                },
            }
        } else if c == ' ' || ('\u{09}' <= c && c <= '\u{0d}') {
            cur = cur.advance(s, 1);
        } else if c <= '\u{7f}' {
            if cur.off == input.off {
                return Err(LexError { line: input.line });
            }
            return Ok(cur);
        } else if is_whitespace(c) {
            cur = cur.advance(s, 1);
        } else {
            if cur.off == input.off {
                return Err(LexError { line: input.line });
            }
            return Ok(cur);
        }
    }
}

/// Skips whitespace and comments; returns the input unchanged when there is
/// nothing to skip or a block comment never closes.
pub fn skip_whitespace(s: &[char], input: Cursor) -> (r: Cursor)
    requires
        input.wf(s@),
    ensures
        r.wf(s@),
        input.off <= r.off,
        r.off == ws_pos(s@, input.off as int),
{
    match whitespace(s, input) {
        Ok(rest) => rest,
        Err(_) => input,
    }
}

} // verus!
