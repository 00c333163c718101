//! Identifier scanning.
//!
//! Identifiers start with an ASCII letter, an underscore, or a Unicode
//! `XID_Start` code point, and continue with ASCII letters, digits,
//! underscores, or Unicode `XID_Continue` code points. A raw identifier is
//! written with an `r#` prefix, which is consumed but excluded from the
//! returned text; the reserved form `r#_` is rejected.

use vstd::prelude::*;
use crate::cursor::{Cursor, LexError, matches_at, slice_chars};

verus! {

/// Whether `c` has the Unicode `XID_Start` property. The result depends on
/// the character alone.
pub uninterp spec fn xid_start(c: char) -> bool;

/// Whether `c` has the Unicode `XID_Continue` property. The result depends
/// on the character alone.
pub uninterp spec fn xid_continue(c: char) -> bool;

/// Relies on unicode_xid's `is_xid_start`: the `XID_Start` table of the
/// Unicode character database.
#[verifier::external_body]
fn uxid_start(c: char) -> (r: bool)
    ensures
        r == xid_start(c),
{
    unicode_xid::UnicodeXID::is_xid_start(c)
}

/// Relies on unicode_xid's `is_xid_continue`: the `XID_Continue` table of
/// the Unicode character database.
#[verifier::external_body]
fn uxid_continue(c: char) -> (r: bool)
    ensures
        r == xid_continue(c),
{
    unicode_xid::UnicodeXID::is_xid_continue(c)
}

/// A character that may begin an identifier.
pub open spec fn ident_start_char(c: char) -> bool {
    ('a' <= c && c <= 'z') || ('A' <= c && c <= 'Z') || c == '_' || (c > '\u{7f}' && xid_start(c))
}

/// A character that may continue an identifier.
pub open spec fn ident_continue_char(c: char) -> bool {
    ('a' <= c && c <= 'z') || ('A' <= c && c <= 'Z') || ('0' <= c && c <= '9') || c == '_' || (c
        > '\u{7f}' && xid_continue(c))
}

pub(crate) fn is_ident_start(c: char) -> (r: bool)
    ensures
        r == ident_start_char(c),
{
    ('a' <= c && c <= 'z') || ('A' <= c && c <= 'Z') || c == '_' || (c > '\u{7f}' && uxid_start(c))
}

pub(crate) fn is_ident_continue(c: char) -> (r: bool)
    ensures
        r == ident_continue_char(c),
{
    ('a' <= c && c <= 'z') || ('A' <= c && c <= 'Z') || ('0' <= c && c <= '9') || c == '_' || (c
        > '\u{7f}' && uxid_continue(c))
}

/// First position at or after `j` whose character does not continue an
/// identifier, or the end of input.
pub open spec fn ident_end(s: Seq<char>, j: int) -> int
    decreases s.len() - j,
{
    if j < 0 || j >= s.len() {
        s.len() as int
    } else if ident_continue_char(s[j]) {
        ident_end(s, j + 1)
    } else {
        j
    }
}

pub proof fn lemma_ident_end_bounds(s: Seq<char>, j: int)
    requires
        0 <= j <= s.len(),
    ensures
        j <= ident_end(s, j) <= s.len(),
    decreases s.len() - j,
{
    if j < s.len() && ident_continue_char(s[j]) {
        lemma_ident_end_bounds(s, j + 1);
    }
}

/// Scan of one identifier at `i`: `Some((st, e))` gives the span of the
/// returned text (past any `r#` prefix), `None` a position that starts no
/// identifier or the reserved raw form `r#_`.
pub open spec fn symbol_scan(s: Seq<char>, i: int) -> Option<(int, int)> {
    let raw = matches_at(s, seq!['r', '#'], i);
    let st = if raw {
        i + 2
    } else {
        i
    };
    if 0 <= st < s.len() && ident_start_char(s[st]) {
        let e = ident_end(s, st + 1);
        if raw && e == i + 3 && s[i + 2] == '_' {
            None
        } else {
            Some((st, e))
        }
    } else {
        None
    }
}

pub proof fn lemma_symbol_scan_bounds(s: Seq<char>, i: int)
    requires
        0 <= i,
    ensures
        match symbol_scan(s, i) {
            Some((st, e)) => i <= st < e <= s.len() && st <= i + 2,
            None => true,
        },
{
    if let Some((st, _e)) = symbol_scan(s, i) {
        lemma_ident_end_bounds(s, st + 1);
    }
}

/// Consumes one identifier, returning the cursor past it and its text
/// without any `r#` prefix. Fails, reporting the line of `input`, when the
/// position does not start an identifier.
pub fn symbol(s: &[char], input: Cursor) -> (r: Result<(Cursor, Vec<char>), LexError>)
    requires
        input.wf(s@),
    ensures
        match r {
            Ok((c2, id)) => {
                &&& symbol_scan(s@, input.off as int) == Some((c2.off - id@.len(), c2.off as int))
                &&& id@ == s@.subrange(c2.off - id@.len(), c2.off as int)
                &&& c2.wf(s@)
                &&& input.off < c2.off
            },
            Err(e) => symbol_scan(s@, input.off as int) is None && e.line == input.line,
        },
{
    let slen = s.len();
    let raw = slen - input.off >= 2 && s[input.off] == 'r' && s[input.off + 1] == '#';
    proof {
        if raw {
            assert(matches_at(s@, seq!['r', '#'], input.off as int));
        } else if input.off + 2 <= s@.len() {
            assert(!matches_at(s@, seq!['r', '#'], input.off as int)) by {
                if matches_at(s@, seq!['r', '#'], input.off as int) {
                    assert(s@[input.off as int] == seq!['r', '#'][0]);
                    assert(s@[input.off + 1] == seq!['r', '#'][1]);
                }
            }
        }
    }
    let st = if raw {
        input.off + 2
    } else {
        input.off
    };
    if !(st < slen && is_ident_start(s[st])) {
        return Err(LexError { line: input.line });
    }
    let mut e = st + 1;
    loop
        invariant
            st + 1 <= e <= slen,
            slen == s@.len(),
            ident_end(s@, e as int) == ident_end(s@, st + 1),
        ensures
            st + 1 <= e <= slen,
            ident_end(s@, st + 1) == e,
        decreases slen - e,
    {
        if e >= slen {
            break ;
        }
        if !is_ident_continue(s[e]) {
            break ;
        }
        e = e + 1;
    }
    if raw && e == st + 1 && s[st] == '_' {
        return Err(LexError { line: input.line });
    }
    let id = slice_chars(s, st, e);
    let c2 = input.advance(s, e - input.off);
    Ok((c2, id))
}

} // verus!
