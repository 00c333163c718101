//! Scanning of string, byte-string, raw-string, character and byte literals.
//!
//! Each scanner is given the position just past the literal's opening
//! delimiter and consumes through the content; the caller accounts for the
//! closing delimiter. A literal that runs to the end of input without
//! closing is a lexing error reported at the line where its scan began.

use vstd::prelude::*;
use crate::cursor::{Cursor, LexError, line_at};
use crate::ws::{unicode_ws, char_is_whitespace};

verus! {

/// A hexadecimal digit.
pub open spec fn hexd(c: char) -> bool {
    ('0' <= c && c <= '9') || ('a' <= c && c <= 'f') || ('A' <= c && c <= 'F')
}

/// One of the single-character escapes `\n \r \t \\ \' \" \0`.
pub open spec fn esc_char(c: char) -> bool {
    c == 'n' || c == 'r' || c == 't' || c == '\\' || c == '\'' || c == '"' || c == '0'
}

/// The two digits of a `\x` escape in character context: the first is
/// restricted to the octal range so the value stays in ASCII.
pub open spec fn bx_char_at(s: Seq<char>, i: int) -> bool {
    0 <= i && i + 1 < s.len() && ('0' <= s[i] && s[i] <= '7') && hexd(s[i + 1])
}

/// The two digits of a `\x` escape in byte context.
pub open spec fn bx_byte_at(s: Seq<char>, i: int) -> bool {
    0 <= i && i + 1 < s.len() && hexd(s[i]) && hexd(s[i + 1])
}

/// Digits of a `\u{...}` escape after its opening brace: one to six
/// hexadecimal digits, underscores allowed after the first digit, closed by
/// `}`. `count` digits were already read; the result is the position after
/// the closing brace.
pub open spec fn bu_digits(s: Seq<char>, j: int, count: int) -> Option<int>
    decreases s.len() - j,
{
    if j < 0 || j >= s.len() {
        None
    } else if hexd(s[j]) {
        if count >= 6 {
            None
        } else {
            bu_digits(s, j + 1, count + 1)
        }
    } else if s[j] == '_' {
        if count == 0 {
            None
        } else {
            bu_digits(s, j + 1, count)
        }
    } else if s[j] == '}' {
        if count >= 1 {
            Some(j + 1)
        } else {
            None
        }
    } else {
        None
    }
}

/// A whole `\u{...}` escape at `i` (pointing at the brace); the result is
/// the position after the closing brace.
pub open spec fn bu_scan(s: Seq<char>, i: int) -> Option<int> {
    if 0 <= i < s.len() && s[i] == '{' {
        bu_digits(s, i + 1, 0)
    } else {
        None
    }
}

pub proof fn lemma_bu_digits_bounds(s: Seq<char>, j: int, count: int)
    ensures
        match bu_digits(s, j, count) {
            Some(e) => j < e <= s.len(),
            None => true,
        },
    decreases s.len() - j,
{
    if 0 <= j < s.len() {
        if hexd(s[j]) && count < 6 {
            lemma_bu_digits_bounds(s, j + 1, count + 1);
        } else if s[j] == '_' && count != 0 {
            lemma_bu_digits_bounds(s, j + 1, count);
        }
    }
}

pub proof fn lemma_bu_scan_bounds(s: Seq<char>, i: int)
    ensures
        match bu_scan(s, i) {
            Some(e) => i + 1 < e <= s.len(),
            None => true,
        },
{
    if 0 <= i < s.len() && s[i] == '{' {
        lemma_bu_digits_bounds(s, i + 1, 0);
    }
}

/// First position at or after `j` that is not Unicode whitespace, or the
/// end of input.
pub open spec fn uni_ws_end(s: Seq<char>, j: int) -> int
    decreases s.len() - j,
{
    if j < 0 || j >= s.len() {
        s.len() as int
    } else if unicode_ws(s[j]) {
        uni_ws_end(s, j + 1)
    } else {
        j
    }
}

pub proof fn lemma_uni_ws_end_bounds(s: Seq<char>, j: int)
    requires
        0 <= j <= s.len(),
    ensures
        j <= uni_ws_end(s, j) <= s.len(),
    decreases s.len() - j,
{
    if j < s.len() && unicode_ws(s[j]) {
        lemma_uni_ws_end_bounds(s, j + 1);
    }
}

/// Scan of a double-quoted string's content from `i`: the result is the
/// index of the closing quote. Backslash escapes, `\x` and `\u{...}`
/// escapes, a `\r\n` pair, and backslash-newline line continuation (which
/// also consumes the following whitespace) are stepped over; anything else
/// after a backslash, or the end of input, fails the scan.
pub open spec fn cooked_string_scan(s: Seq<char>, i: int) -> Option<int>
    decreases s.len() - i,
    via cooked_string_scan_dec
{
    if i < 0 || i >= s.len() {
        None
    } else if s[i] == '"' {
        Some(i)
    } else if s[i] == '\r' {
        if i + 1 < s.len() && s[i + 1] == '\n' {
            cooked_string_scan(s, i + 2)
        } else {
            None
        }
    } else if s[i] == '\\' {
        if i + 1 >= s.len() {
            None
        } else {
            let d = s[i + 1];
            if d == 'x' {
                if bx_char_at(s, i + 2) {
                    cooked_string_scan(s, i + 4)
                } else {
                    None
                }
            } else if d == 'u' {
                match bu_scan(s, i + 2) {
                    Some(j) => cooked_string_scan(s, j),
                    None => None,
                }
            } else if esc_char(d) {
                cooked_string_scan(s, i + 2)
            } else if d == '\n' || d == '\r' {
                cooked_string_scan(s, uni_ws_end(s, i + 2))
            } else {
                None
            }
        }
    } else {
        cooked_string_scan(s, i + 1)
    }
}

#[via_fn]
proof fn cooked_string_scan_dec(s: Seq<char>, i: int) {
    if 0 <= i < s.len() && s[i] == '\\' && i + 1 < s.len() {
        lemma_bu_scan_bounds(s, i + 2);
        if i + 2 <= s.len() {
            lemma_uni_ws_end_bounds(s, i + 2);
        }
    }
}

/// Outcome of a byte-string scan: the index of the closing quote, or a
/// failure carrying the position whose line is reported.
pub enum BsScan {
    Hit { end: int },
    Fail { at: int },
}

/// Scan of a byte string's content from `i`. Like the string scan but with
/// no `\u` escape and with plain characters restricted to ASCII; a line
/// continuation moves the reported error position to where scanning resumed.
pub open spec fn byte_string_scan(s: Seq<char>, i: int, ep: int) -> BsScan
    decreases s.len() - i,
    via byte_string_scan_dec
{
    if i < 0 || i >= s.len() {
        BsScan::Fail { at: ep }
    } else if s[i] == '"' {
        BsScan::Hit { end: i }
    } else if s[i] == '\r' {
        if i + 1 < s.len() && s[i + 1] == '\n' {
            byte_string_scan(s, i + 2, ep)
        } else {
            BsScan::Fail { at: ep }
        }
    } else if s[i] == '\\' {
        if i + 1 >= s.len() {
            BsScan::Fail { at: ep }
        } else {
            let d = s[i + 1];
            if d == 'x' {
                if bx_byte_at(s, i + 2) {
                    byte_string_scan(s, i + 4, ep)
                } else {
                    BsScan::Fail { at: ep }
                }
            } else if esc_char(d) {
                byte_string_scan(s, i + 2, ep)
            } else if d == '\n' || d == '\r' {
                let k = uni_ws_end(s, i + 2);
                if k >= s.len() {
                    BsScan::Fail { at: ep }
                } else {
                    byte_string_scan(s, k, k)
                }
            } else {
                BsScan::Fail { at: ep }
            }
        }
    } else if s[i] <= '\u{7f}' {
        byte_string_scan(s, i + 1, ep)
    } else {
        BsScan::Fail { at: ep }
    }
}

#[via_fn]
proof fn byte_string_scan_dec(s: Seq<char>, i: int, ep: int) {
    if 0 <= i < s.len() && s[i] == '\\' && i + 1 < s.len() {
        if i + 2 <= s.len() {
            lemma_uni_ws_end_bounds(s, i + 2);
        }
    }
}

/// `n` hash characters at position `p`.
pub open spec fn hashes_at(s: Seq<char>, p: int, n: int) -> bool {
    &&& 0 <= p
    &&& 0 <= n
    &&& p + n <= s.len()
    &&& forall|m: int| 0 <= m < n ==> #[trigger] s[p + m] == '#'
}

/// First position at or after `i` that is not `#`, or the end of input.
pub open spec fn hash_end(s: Seq<char>, i: int) -> int
    decreases s.len() - i,
{
    if i < 0 || i >= s.len() {
        s.len() as int
    } else if s[i] == '#' {
        hash_end(s, i + 1)
    } else {
        i
    }
}

pub proof fn lemma_hash_end_bounds(s: Seq<char>, i: int)
    requires
        0 <= i <= s.len(),
    ensures
        i <= hash_end(s, i) <= s.len(),
        forall|m: int| i <= m < hash_end(s, i) ==> s[m] == '#',
    decreases s.len() - i,
{
    if i < s.len() && s[i] == '#' {
        lemma_hash_end_bounds(s, i + 1);
    }
}

/// Search for the close of a raw string: the first `"` at or after `j` that
/// is followed by `n` hashes; the result is the position after those hashes.
pub open spec fn raw_close(s: Seq<char>, j: int, n: int) -> Option<int>
    decreases s.len() - j,
{
    if j < 0 || j >= s.len() {
        None
    } else if s[j] == '"' && hashes_at(s, j + 1, n) {
        Some(j + 1 + n)
    } else {
        raw_close(s, j + 1, n)
    }
}

/// Scan of a raw string from `i`, which points at the first `#` (or the
/// opening quote): the hashes are counted, the opening quote consumed, and
/// the content runs to the first quote followed by the same number of
/// hashes. The result is the position after the closing hashes.
pub open spec fn raw_string_scan(s: Seq<char>, i: int) -> Option<int> {
    let h = hash_end(s, i);
    if h < s.len() && s[h] == '"' {
        raw_close(s, h + 1, h - i)
    } else {
        None
    }
}

/// Scan of the content of a byte literal `b'...'` from `i`: a `\x` escape
/// with two hex digits, a single-character escape, or one ASCII character.
pub open spec fn cooked_byte_scan(s: Seq<char>, i: int) -> Option<int> {
    if i < 0 || i >= s.len() {
        None
    } else if s[i] == '\\' {
        if i + 1 >= s.len() {
            None
        } else {
            let d = s[i + 1];
            if d == 'x' {
                if bx_byte_at(s, i + 2) {
                    Some(i + 4)
                } else {
                    None
                }
            } else if esc_char(d) {
                Some(i + 2)
            } else {
                None
            }
        }
    } else if s[i] <= '\u{7f}' {
        Some(i + 1)
    } else {
        None
    }
}

/// Scan of the content of a character literal `'...'` from `i`: a `\x`
/// escape (ASCII range), a `\u{...}` escape, a single-character escape, or
/// any one character.
pub open spec fn cooked_char_scan(s: Seq<char>, i: int) -> Option<int> {
    if i < 0 || i >= s.len() {
        None
    } else if s[i] == '\\' {
        if i + 1 >= s.len() {
            None
        } else {
            let d = s[i + 1];
            if d == 'x' {
                if bx_char_at(s, i + 2) {
                    Some(i + 4)
                } else {
                    None
                }
            } else if d == 'u' {
                bu_scan(s, i + 2)
            } else if esc_char(d) {
                Some(i + 2)
            } else {
                None
            }
        }
    } else {
        Some(i + 1)
    }
}

pub proof fn lemma_cooked_string_scan_bounds(s: Seq<char>, i: int)
    requires
        0 <= i,
    ensures
        match cooked_string_scan(s, i) {
            Some(q) => i <= q < s.len() && s[q] == '"',
            None => true,
        },
    decreases s.len() - i,
{
    if 0 <= i < s.len() && s[i] != '"' {
        if s[i] == '\r' {
            if i + 1 < s.len() && s[i + 1] == '\n' {
                lemma_cooked_string_scan_bounds(s, i + 2);
            }
        } else if s[i] == '\\' && i + 1 < s.len() {
            let d = s[i + 1];
            if d == 'x' {
                if bx_char_at(s, i + 2) {
                    lemma_cooked_string_scan_bounds(s, i + 4);
                }
            } else if d == 'u' {
                lemma_bu_scan_bounds(s, i + 2);
                if let Some(j) = bu_scan(s, i + 2) {
                    lemma_cooked_string_scan_bounds(s, j);
                }
            } else if esc_char(d) {
                lemma_cooked_string_scan_bounds(s, i + 2);
            } else if d == '\n' || d == '\r' {
                lemma_uni_ws_end_bounds(s, i + 2);
                lemma_cooked_string_scan_bounds(s, uni_ws_end(s, i + 2));
            }
        } else if s[i] != '\\' {
            lemma_cooked_string_scan_bounds(s, i + 1);
        }
    }
}

pub proof fn lemma_byte_string_scan_bounds(s: Seq<char>, i: int, ep: int)
    requires
        0 <= i,
    ensures
        match byte_string_scan(s, i, ep) {
            BsScan::Hit { end } => i <= end < s.len() && s[end] == '"',
            BsScan::Fail { at: _ } => true,
        },
    decreases s.len() - i,
{
    if 0 <= i < s.len() && s[i] != '"' {
        if s[i] == '\r' {
            if i + 1 < s.len() && s[i + 1] == '\n' {
                lemma_byte_string_scan_bounds(s, i + 2, ep);
            }
        } else if s[i] == '\\' && i + 1 < s.len() {
            let d = s[i + 1];
            if d == 'x' {
                if bx_byte_at(s, i + 2) {
                    lemma_byte_string_scan_bounds(s, i + 4, ep);
                }
            } else if esc_char(d) {
                lemma_byte_string_scan_bounds(s, i + 2, ep);
            } else if d == '\n' || d == '\r' {
                lemma_uni_ws_end_bounds(s, i + 2);
                let k = uni_ws_end(s, i + 2);
                if k < s.len() {
                    lemma_byte_string_scan_bounds(s, k, k);
                }
            }
        } else if s[i] != '\\' && s[i] <= '\u{7f}' {
            lemma_byte_string_scan_bounds(s, i + 1, ep);
        }
    }
}

pub proof fn lemma_raw_close_bounds(s: Seq<char>, j: int, n: int)
    requires
        0 <= j,
    ensures
        match raw_close(s, j, n) {
            Some(e) => j < e <= s.len(),
            None => true,
        },
    decreases s.len() - j,
{
    if 0 <= j < s.len() && !(s[j] == '"' && hashes_at(s, j + 1, n)) {
        lemma_raw_close_bounds(s, j + 1, n);
    }
}

pub proof fn lemma_raw_string_scan_bounds(s: Seq<char>, i: int)
    requires
        0 <= i,
    ensures
        match raw_string_scan(s, i) {
            Some(e) => i < e <= s.len(),
            None => true,
        },
{
    if i <= s.len() {
        lemma_hash_end_bounds(s, i);
        let h = hash_end(s, i);
        if h < s.len() && s[h] == '"' {
            lemma_raw_close_bounds(s, h + 1, h - i);
        }
    }
}

pub(crate) fn is_hexd(c: char) -> (r: bool)
    ensures
        r == hexd(c),
{
    ('0' <= c && c <= '9') || ('a' <= c && c <= 'f') || ('A' <= c && c <= 'F')
}

pub(crate) fn is_esc_char(c: char) -> (r: bool)
    ensures
        r == esc_char(c),
{
    c == 'n' || c == 'r' || c == 't' || c == '\\' || c == '\'' || c == '"' || c == '0'
}

/// Whether the two digits of a `\x` escape in character context stand at `j`.
pub fn backslash_x_char(s: &[char], j: usize) -> (r: bool)
    ensures
        r == bx_char_at(s@, j as int),
{
    let slen = s.len();
    j < slen && slen - j >= 2 && ('0' <= s[j] && s[j] <= '7') && is_hexd(s[j + 1])
}

/// Whether the two digits of a `\x` escape in byte context stand at `j`.
pub fn backslash_x_byte(s: &[char], j: usize) -> (r: bool)
    ensures
        r == bx_byte_at(s@, j as int),
{
    let slen = s.len();
    j < slen && slen - j >= 2 && is_hexd(s[j]) && is_hexd(s[j + 1])
}

/// Consumes a `\u{...}` escape starting at the brace position `j`,
/// returning the position after its closing brace.
pub fn backslash_u(s: &[char], j: usize) -> (r: Option<usize>)
    ensures
        match r {
            Some(e) => bu_scan(s@, j as int) == Some(e as int) && j < e <= s@.len(),
            None => bu_scan(s@, j as int) is None,
        },
{
    let slen = s.len();
    if !(j < slen && s[j] == '{') {
        return None;
    }
    let mut k = j + 1;
    let mut count: usize = 0;
    loop
        invariant
            j + 1 <= k <= slen,
            j < slen,
            s@[j as int] == '{',
            slen == s@.len(),
            count <= 6,
            bu_digits(s@, k as int, count as int) == bu_digits(s@, j + 1, 0),
        decreases slen - k,
    {
        if k >= slen {
            return None;
        }
        let c = s[k];
        if is_hexd(c) {
            if count >= 6 {
                return None;
            }
            count = count + 1;
            k = k + 1;
        } else if c == '_' {
            if count == 0 {
                return None;
            }
            k = k + 1;
        } else if c == '}' {
            if count >= 1 {
                return Some(k + 1);
            }
            return None;
        } else {
            return None;
        }
    }
}

/// Consumes the content of a double-quoted string, returning a cursor at
/// the closing quote. Fails, at the line of `input`, when the string never
/// closes or an escape is malformed.
pub fn cooked_string(s: &[char], input: Cursor) -> (r: Result<Cursor, LexError>)
    requires
        input.wf(s@),
    ensures
        match r {
            Ok(c2) => {
                &&& cooked_string_scan(s@, input.off as int) == Some(c2.off as int)
                &&& c2.wf(s@)
                &&& input.off <= c2.off
            },
            Err(e) => cooked_string_scan(s@, input.off as int) is None && e.line == input.line,
        },
{
    let slen = s.len();
    let mut i = input.off;
    loop
        invariant
            input.wf(s@),
            input.off <= i <= slen,
            slen == s@.len(),
            cooked_string_scan(s@, i as int) == cooked_string_scan(s@, input.off as int),
        decreases slen - i,
    {
        if i >= slen {
            return Err(LexError { line: input.line });
        }
        let c = s[i];
        if c == '"' {
            return Ok(input.advance(s, i - input.off));
        } else if c == '\r' {
            if slen - i >= 2 && s[i + 1] == '\n' {
                i = i + 2;
            } else {
                return Err(LexError { line: input.line });
            }
        } else if c == '\\' {
            if slen - i < 2 {
                return Err(LexError { line: input.line });
            }
            let d = s[i + 1];
            if d == 'x' {
                if backslash_x_char(s, i + 2) {
                    i = i + 4;
                } else {
                    return Err(LexError { line: input.line });
                }
            } else if d == 'u' {
                match backslash_u(s, i + 2) {
                    Some(e) => {
                        i = e;
                    },
                    None => {
                        return Err(LexError { line: input.line });
                    },
                }
            } else if is_esc_char(d) {
                i = i + 2;
            } else if d == '\n' || d == '\r' {
                let mut k = i + 2;
                loop
                    invariant
                        i + 2 <= k <= slen,
                        slen == s@.len(),
                        uni_ws_end(s@, k as int) == uni_ws_end(s@, i + 2),
                    ensures
                        i + 2 <= k <= slen,
                        k == uni_ws_end(s@, i + 2),
                    decreases slen - k,
                {
                    if k >= slen {
                        break ;
                    }
                    if !char_is_whitespace(s[k]) {
                        break ;
                    }
                    k = k + 1;
                }
                i = k;
            } else {
                return Err(LexError { line: input.line });
            }
        } else {
            i = i + 1;
        }
    }
}

/// Consumes the content of a byte string `b"..."`, returning a cursor at
/// the closing quote. Fails when the string never closes, an escape is
/// malformed, or a character is outside ASCII; the line reported is that of
/// `input` or, after a line continuation, of the position where scanning
/// resumed.
pub fn cooked_byte_string(s: &[char], input: Cursor) -> (r: Result<Cursor, LexError>)
    requires
        input.wf(s@),
    ensures
        match r {
            Ok(c2) => {
                &&& byte_string_scan(s@, input.off as int, input.off as int) == (BsScan::Hit {
                    end: c2.off as int,
                })
                &&& c2.wf(s@)
                &&& input.off <= c2.off
            },
            Err(e) => byte_string_scan(s@, input.off as int, input.off as int) matches BsScan::Fail {
                at,
            } && e.line == line_at(s@, at),
        },
{
    let slen = s.len();
    let mut i = input.off;
    let mut ec = input;
    loop
        invariant
            input.wf(s@),
            ec.wf(s@),
            input.off <= i <= slen,
            ec.off <= i,
            slen == s@.len(),
            byte_string_scan(s@, i as int, ec.off as int) == byte_string_scan(
                s@,
                input.off as int,
                input.off as int,
            ),
        decreases slen - i,
    {
        if i >= slen {
            return Err(LexError { line: ec.line });
        }
        let c = s[i];
        if c == '"' {
            return Ok(input.advance(s, i - input.off));
        } else if c == '\r' {
            if slen - i >= 2 && s[i + 1] == '\n' {
                i = i + 2;
            } else {
                return Err(LexError { line: ec.line });
            }
        } else if c == '\\' {
            if slen - i < 2 {
                return Err(LexError { line: ec.line });
            }
            let d = s[i + 1];
            if d == 'x' {
                if backslash_x_byte(s, i + 2) {
                    i = i + 4;
                } else {
                    return Err(LexError { line: ec.line });
                }
            } else if is_esc_char(d) {
                i = i + 2;
            } else if d == '\n' || d == '\r' {
                let mut k = i + 2;
                loop
                    invariant
                        i + 2 <= k <= slen,
                        slen == s@.len(),
                        uni_ws_end(s@, k as int) == uni_ws_end(s@, i + 2),
                    ensures
                        i + 2 <= k <= slen,
                        k == uni_ws_end(s@, i + 2),
                    decreases slen - k,
                {
                    if k >= slen {
                        break ;
                    }
                    if !char_is_whitespace(s[k]) {
                        break ;
                    }
                    k = k + 1;
                }
                if k >= slen {
                    return Err(LexError { line: ec.line });
                }
                ec = input.advance(s, k - input.off);
                i = k;
            } else {
                return Err(LexError { line: ec.line });
            }
        } else if c <= '\u{7f}' {
            i = i + 1;
        } else {
            return Err(LexError { line: ec.line });
        }
    }
}

/// Whether `n` hash characters stand at `p`.
fn all_hashes(s: &[char], p: usize, n: usize) -> (r: bool)
    requires
        p <= s@.len(),
    ensures
        r == hashes_at(s@, p as int, n as int),
{
    let slen = s.len();
    if n > slen - p {
        return false;
    }
    let mut m: usize = 0;
    while m < n
        invariant
            0 <= m <= n,
            p + n <= slen,
            slen == s@.len(),
            forall|q: int| 0 <= q < m ==> #[trigger] s@[p + q] == '#',
        decreases n - m,
    {
        if s[p + m] != '#' {
            return false;
        }
        m = m + 1;
    }
    true
}

/// Consumes a raw string from the position of its first hash (or of its
/// opening quote when it has no hashes), returning the cursor past the
/// closing quote and hashes. Fails at the line of `input` when the opening
/// is malformed or no matching close exists.
pub fn raw_string(s: &[char], input: Cursor) -> (r: Result<Cursor, LexError>)
    requires
        input.wf(s@),
    ensures
        match r {
            Ok(c2) => {
                &&& raw_string_scan(s@, input.off as int) == Some(c2.off as int)
                &&& c2.wf(s@)
                &&& input.off <= c2.off
            },
            Err(e) => raw_string_scan(s@, input.off as int) is None && e.line == input.line,
        },
{
    let slen = s.len();
    let mut h = input.off;
    loop
        invariant
            input.off <= h <= slen,
            slen == s@.len(),
            hash_end(s@, h as int) == hash_end(s@, input.off as int),
        ensures
            input.off <= h <= slen,
            h == hash_end(s@, input.off as int),
        decreases slen - h,
    {
        if h >= slen {
            break ;
        }
        if s[h] != '#' {
            break ;
        }
        h = h + 1;
    }
    if !(h < slen && s[h] == '"') {
        return Err(LexError { line: input.line });
    }
    let n = h - input.off;
    let mut j = h + 1;
    loop
        invariant
            h + 1 <= j <= slen,
            h < slen,
            h == hash_end(s@, input.off as int),
            s@[h as int] == '"',
            n == h - input.off,
            input.off <= h,
            input.wf(s@),
            slen == s@.len(),
            raw_close(s@, j as int, n as int) == raw_close(s@, h + 1, n as int),
        decreases slen - j,
    {
        if j >= slen {
            return Err(LexError { line: input.line });
        }
        if s[j] == '"' && all_hashes(s, j + 1, n) {
            return Ok(input.advance(s, j + 1 + n - input.off));
        }
        j = j + 1;
    }
}

/// Consumes the content of a byte literal `b'...'`, returning the cursor
/// past it; the closing quote is the caller's to check. Fails at the line
/// of `input` on an empty, malformed, or non-ASCII content.
pub fn cooked_byte(s: &[char], input: Cursor) -> (r: Result<Cursor, LexError>)
    requires
        input.wf(s@),
    ensures
        match r {
            Ok(c2) => {
                &&& cooked_byte_scan(s@, input.off as int) == Some(c2.off as int)
                &&& c2.wf(s@)
                &&& input.off <= c2.off
            },
            Err(e) => cooked_byte_scan(s@, input.off as int) is None && e.line == input.line,
        },
{
    let slen = s.len();
    if input.off >= slen {
        return Err(LexError { line: input.line });
    }
    let c = s[input.off];
    if c == '\\' {
        if slen - input.off < 2 {
            return Err(LexError { line: input.line });
        }
        let d = s[input.off + 1];
        if d == 'x' {
            if backslash_x_byte(s, input.off + 2) {
                Ok(input.advance(s, 4))
            } else {
                Err(LexError { line: input.line })
            }
        } else if is_esc_char(d) {
            Ok(input.advance(s, 2))
        } else {
            Err(LexError { line: input.line })
        }
    } else if c <= '\u{7f}' {
        Ok(input.advance(s, 1))
    } else {
        Err(LexError { line: input.line })
    }
}

/// Consumes the content of a character literal `'...'`, returning the
/// cursor past it; the closing quote is the caller's to check. Fails at the
/// line of `input` on an empty or malformed content.
pub fn cooked_char(s: &[char], input: Cursor) -> (r: Result<Cursor, LexError>)
    requires
        input.wf(s@),
    ensures
        match r {
            Ok(c2) => {
                &&& cooked_char_scan(s@, input.off as int) == Some(c2.off as int)
                &&& c2.wf(s@)
                &&& input.off <= c2.off
            },
            Err(e) => cooked_char_scan(s@, input.off as int) is None && e.line == input.line,
        },
{
    let slen = s.len();
    if input.off >= slen {
        return Err(LexError { line: input.line });
    }
    let c = s[input.off];
    if c == '\\' {
        if slen - input.off < 2 {
            return Err(LexError { line: input.line });
        }
        let d = s[input.off + 1];
        if d == 'x' {
            if backslash_x_char(s, input.off + 2) {
                Ok(input.advance(s, 4))
            } else {
                Err(LexError { line: input.line })
            }
        } else if d == 'u' {
            match backslash_u(s, input.off + 2) {
                Some(e) => Ok(input.advance(s, e - input.off)),
                None => Err(LexError { line: input.line }),
            }
        } else if is_esc_char(d) {
            Ok(input.advance(s, 2))
        } else {
            Err(LexError { line: input.line })
        }
    } else {
        Ok(input.advance(s, 1))
    }
}

} // verus!
