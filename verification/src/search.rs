//! Literal skipping and balanced-delimiter search.
//!
//! [`skip_literal`] recognizes, at a cursor, any of the host language's
//! string, byte-string, character, byte and raw-string literals and steps
//! past it, backtracking to an identifier when a quote turns out to open a
//! lifetime rather than a character literal. [`find_delimited`] scans
//! forward — skipping whitespace, comments and literals — for a needle that
//! stands outside every delimiter opened since the search began.

use vstd::prelude::*;
use crate::cursor::{Cursor, LexError, line_at, matches_at};
use crate::ws::{ws_pos, skip_whitespace, lemma_ws_scan_bounds};
use crate::ident::{symbol, symbol_scan, lemma_symbol_scan_bounds};
use crate::lit::{
    cooked_string, cooked_byte_string, cooked_byte, cooked_char, raw_string, cooked_string_scan,
    byte_string_scan, cooked_byte_scan, cooked_char_scan, raw_string_scan, hash_end, BsScan,
    lemma_cooked_string_scan_bounds, lemma_byte_string_scan_bounds, lemma_raw_string_scan_bounds,
    lemma_bu_scan_bounds,
};

verus! {

/// Two given characters at `i`.
pub open spec fn pair_at(s: Seq<char>, i: int, a: char, b: char) -> bool {
    0 <= i && i + 1 < s.len() && s[i] == a && s[i + 1] == b
}

/// Position of the `r` of a raw-string opener at `i`: one later when a `b`
/// prefix stands first.
pub open spec fn raw_r_pos(s: Seq<char>, i: int) -> int {
    if 0 <= i < s.len() && s[i] == 'b' {
        i + 1
    } else {
        i
    }
}

/// A raw-string literal opens at `i`: an optional `b`, an `r`, any number
/// of hashes, then a double quote.
pub open spec fn raw_lit_at(s: Seq<char>, i: int) -> bool {
    let p = raw_r_pos(s, i);
    &&& 0 <= p < s.len()
    &&& s[p] == 'r'
    &&& hash_end(s, p + 1) < s.len()
    &&& s[hash_end(s, p + 1)] == '"'
}

/// Outcome of trying a literal at a position: a literal was consumed up to
/// `end`, no literal starts here, or the position looks like a literal but
/// is malformed (the line of `at` is reported).
pub enum LitScan {
    Lit { end: int },
    NoLit,
    Bad { at: int },
}

/// The literal scan at `i`, trying in order: a string, a byte string, a
/// character literal (falling back to an identifier when the quote opens a
/// lifetime), a byte literal, and a raw or raw-byte string.
pub open spec fn lit_scan(s: Seq<char>, i: int) -> LitScan {
    if 0 <= i < s.len() && s[i] == '"' {
        match cooked_string_scan(s, i + 1) {
            Some(q) => LitScan::Lit { end: q + 1 },
            None => LitScan::Bad { at: i + 1 },
        }
    } else if pair_at(s, i, 'b', '"') {
        match byte_string_scan(s, i + 2, i + 2) {
            BsScan::Hit { end } => LitScan::Lit { end: end + 1 },
            BsScan::Fail { at } => LitScan::Bad { at },
        }
    } else if 0 <= i < s.len() && s[i] == '\'' {
        match cooked_char_scan(s, i + 1) {
            Some(e) => if e < s.len() && s[e] == '\'' {
                LitScan::Lit { end: e + 1 }
            } else {
                match symbol_scan(s, i + 1) {
                    Some((_st, se)) => LitScan::Lit { end: se },
                    None => LitScan::Bad { at: i + 1 },
                }
            },
            None => LitScan::Bad { at: i + 1 },
        }
    } else if pair_at(s, i, 'b', '\'') {
        match cooked_byte_scan(s, i + 2) {
            Some(e) => if e < s.len() && s[e] == '\'' {
                LitScan::Lit { end: e + 1 }
            } else {
                LitScan::Bad { at: e }
            },
            None => LitScan::Bad { at: i + 2 },
        }
    } else if raw_lit_at(s, i) {
        match raw_string_scan(s, raw_r_pos(s, i) + 1) {
            Some(e) => LitScan::Lit { end: e },
            None => LitScan::Bad { at: raw_r_pos(s, i) + 1 },
        }
    } else {
        LitScan::NoLit
    }
}

pub proof fn lemma_lit_scan_bounds(s: Seq<char>, i: int)
    requires
        0 <= i,
    ensures
        match lit_scan(s, i) {
            LitScan::Lit { end } => i < end <= s.len(),
            _ => true,
        },
{
    lemma_cooked_string_scan_bounds(s, i + 1);
    lemma_byte_string_scan_bounds(s, i + 2, i + 2);
    lemma_symbol_scan_bounds(s, i + 1);
    if 0 <= i < s.len() && s[i] == '\'' {
        if let Some(e) = cooked_char_scan(s, i + 1) {
            lemma_bu_scan_bounds(s, i + 3);
        }
    }
    if raw_lit_at(s, i) {
        lemma_raw_string_scan_bounds(s, raw_r_pos(s, i) + 1);
    }
}

/// Steps past one literal if one starts at the cursor: returns the cursor
/// past it and `true`; returns the cursor unchanged and `false` when no
/// literal starts here; fails on a malformed literal, at the line where its
/// scan began.
pub fn skip_literal(s: &[char], input: Cursor) -> (r: Result<(Cursor, bool), LexError>)
    requires
        input.wf(s@),
    ensures
        match r {
            Ok((c2, true)) => {
                &&& lit_scan(s@, input.off as int) == (LitScan::Lit { end: c2.off as int })
                &&& c2.wf(s@)
                &&& input.off < c2.off
            },
            Ok((c2, false)) => lit_scan(s@, input.off as int) == LitScan::NoLit && c2 == input,
            Err(e) => lit_scan(s@, input.off as int) matches LitScan::Bad { at } && e.line
                == line_at(s@, at),
        },
{
    let slen = s.len();
    proof {
        lemma_lit_scan_bounds(s@, input.off as int);
    }
    if input.off < slen && s[input.off] == '"' {
        let c2 = cooked_string(s, input.advance(s, 1))?;
        proof {
            lemma_cooked_string_scan_bounds(s@, input.off + 1);
        }
        return Ok((c2.advance(s, 1), true));
    }
    if slen - input.off >= 2 && s[input.off] == 'b' && s[input.off + 1] == '"' {
        let c2 = cooked_byte_string(s, input.advance(s, 2))?;
        proof {
            lemma_byte_string_scan_bounds(s@, input.off + 2, input.off + 2);
        }
        return Ok((c2.advance(s, 1), true));
    }
    if input.off < slen && s[input.off] == '\'' {
        let inner = input.advance(s, 1);
        let cur = cooked_char(s, inner)?;
        if !(cur.off < slen && s[cur.off] == '\'') {
            let (c2, _id) = symbol(s, inner)?;
            return Ok((c2, true));
        }
        return Ok((cur.advance(s, 1), true));
    }
    if slen - input.off >= 2 && s[input.off] == 'b' && s[input.off + 1] == '\'' {
        let cur = cooked_byte(s, input.advance(s, 2))?;
        if !(cur.off < slen && s[cur.off] == '\'') {
            return Err(LexError { line: cur.line });
        }
        return Ok((cur.advance(s, 1), true));
    }
    let p = if input.off < slen && s[input.off] == 'b' {
        input.off + 1
    } else {
        input.off
    };
    if p < slen && s[p] == 'r' {
        let mut h = p + 1;
        loop
            invariant
                p + 1 <= h <= slen,
                slen == s@.len(),
                hash_end(s@, h as int) == hash_end(s@, p + 1),
            ensures
                p + 1 <= h <= slen,
                h == hash_end(s@, p + 1),
            decreases slen - h,
        {
            if h >= slen {
                break ;
            }
            if s[h] != '#' {
                break ;
            }
            h = h + 1;
        }
        if h < slen && s[h] == '"' {
            let c2 = raw_string(s, input.advance(s, p + 1 - input.off))?;
            return Ok((c2, true));
        }
    }
    Ok((input, false))
}

/// Outcome of the balanced search: the position of the needle, or a failure
/// carrying the position whose line is reported.
pub enum FdScan {
    Hit { at: int },
    Fail { at: int },
}

/// The balanced-delimiter search from `i` with pending closers `stack`: on
/// each step whitespace, comments and one literal are skipped; the needle
/// matches only when the stack is empty; an opening delimiter pushes its
/// closer; the expected closer pops; any other closing delimiter, a
/// malformed literal, or the end of input fails the search.
pub open spec fn fd_scan(s: Seq<char>, needle: Seq<char>, i: int, stack: Seq<char>) -> FdScan
    decreases s.len() - i,
    via fd_scan_dec
{
    if i < 0 || i >= s.len() {
        FdScan::Fail { at: s.len() as int }
    } else {
        let j = ws_pos(s, i);
        match lit_scan(s, j) {
            LitScan::Bad { at } => FdScan::Fail { at },
            _ => {
                let k = match lit_scan(s, j) {
                    LitScan::Lit { end } => end,
                    _ => j,
                };
                if k >= s.len() {
                    FdScan::Fail { at: s.len() as int }
                } else if stack.len() == 0 && matches_at(s, needle, k) {
                    FdScan::Hit { at: k }
                } else if stack.len() > 0 && s[k] == stack.last() {
                    fd_scan(s, needle, k + 1, stack.drop_last())
                } else if s[k] == '(' {
                    fd_scan(s, needle, k + 1, stack.push(')'))
                } else if s[k] == '[' {
                    fd_scan(s, needle, k + 1, stack.push(']'))
                } else if s[k] == '{' {
                    fd_scan(s, needle, k + 1, stack.push('}'))
                } else if s[k] == ')' || s[k] == ']' || s[k] == '}' {
                    FdScan::Fail { at: k }
                } else {
                    fd_scan(s, needle, k + 1, stack)
                }
            },
        }
    }
}

#[via_fn]
proof fn fd_scan_dec(s: Seq<char>, needle: Seq<char>, i: int, stack: Seq<char>) {
    if 0 <= i < s.len() {
        lemma_ws_scan_bounds(s, i);
        lemma_lit_scan_bounds(s, ws_pos(s, i));
    }
}

/// Law: the balanced search reports a needle position only where the needle
/// truly stands; a reported match never lies inside a literal or a comment
/// (those are skipped whole) and never inside a delimiter left unclosed
/// since the search began, since a match is only accepted while the stack
/// of pending closers is empty.
pub proof fn lemma_find_delimited_needle(s: Seq<char>, needle: Seq<char>, i: int, stack: Seq<char>)
    requires
        0 <= i,
    ensures
        fd_scan(s, needle, i, stack) matches FdScan::Hit { at } ==> matches_at(s, needle, at),
    decreases s.len() - i,
{
    if 0 <= i < s.len() {
        lemma_ws_scan_bounds(s, i);
        let j = ws_pos(s, i);
        lemma_lit_scan_bounds(s, j);
        match lit_scan(s, j) {
            LitScan::Bad { at: _ } => {},
            _ => {
                let k = match lit_scan(s, j) {
                    LitScan::Lit { end } => end,
                    _ => j,
                };
                if k < s.len() {
                    if stack.len() == 0 && matches_at(s, needle, k) {
                    } else if stack.len() > 0 && s[k] == stack.last() {
                        lemma_find_delimited_needle(s, needle, k + 1, stack.drop_last());
                    } else if s[k] == '(' {
                        lemma_find_delimited_needle(s, needle, k + 1, stack.push(')'));
                    } else if s[k] == '[' {
                        lemma_find_delimited_needle(s, needle, k + 1, stack.push(']'));
                    } else if s[k] == '{' {
                        lemma_find_delimited_needle(s, needle, k + 1, stack.push('}'));
                    } else if !(s[k] == ')' || s[k] == ']' || s[k] == '}') {
                        lemma_find_delimited_needle(s, needle, k + 1, stack);
                    }
                }
            },
        }
    }
}

/// Law: whatever the balanced search reports while closing delimiters are
/// still pending, it reports only after the next pending delimiter has
/// closed: a hit under a nonempty stack lies past a position holding the
/// expected closer, from which the same hit is reached with that closer
/// popped.
pub proof fn lemma_find_hit_closes_pending(s: Seq<char>, needle: Seq<char>, i: int, stack: Seq<
    char,
>)
    requires
        0 <= i,
        stack.len() > 0,
    ensures
        fd_scan(s, needle, i, stack) matches FdScan::Hit { at } ==> exists|c: int|
            i <= c < at && s[c] == stack.last() && fd_scan(s, needle, c + 1, stack.drop_last())
                == (FdScan::Hit { at }),
    decreases s.len() - i,
{
    if 0 <= i < s.len() {
        lemma_ws_scan_bounds(s, i);
        let j = ws_pos(s, i);
        lemma_lit_scan_bounds(s, j);
        match lit_scan(s, j) {
            LitScan::Bad { at: _ } => {},
            _ => {
                let k = match lit_scan(s, j) {
                    LitScan::Lit { end } => end,
                    _ => j,
                };
                if k < s.len() {
                    if stack.len() > 0 && s[k] == stack.last() {
                        if let FdScan::Hit { at } = fd_scan(s, needle, k + 1, stack.drop_last()) {
                            lemma_fd_scan_hit_bounds(s, needle, k + 1, stack.drop_last());
                            assert(i <= k < at && s[k] == stack.last() && fd_scan(
                                s,
                                needle,
                                k + 1,
                                stack.drop_last(),
                            ) == (FdScan::Hit { at }));
                        }
                    } else if s[k] == '(' || s[k] == '[' || s[k] == '{' {
                        let cl = if s[k] == '(' {
                            ')'
                        } else if s[k] == '[' {
                            ']'
                        } else {
                            '}'
                        };
                        lemma_find_hit_closes_pending(s, needle, k + 1, stack.push(cl));
                        if let FdScan::Hit { at } = fd_scan(s, needle, k + 1, stack.push(cl)) {
                            let c1 = choose|c1: int|
                                k + 1 <= c1 < at && s[c1] == stack.push(cl).last() && fd_scan(
                                    s,
                                    needle,
                                    c1 + 1,
                                    stack.push(cl).drop_last(),
                                ) == (FdScan::Hit { at });
                            assert(stack.push(cl).drop_last() =~= stack);
                            lemma_find_hit_closes_pending(s, needle, c1 + 1, stack);
                        }
                    } else if !(s[k] == ')' || s[k] == ']' || s[k] == '}') && !(stack.len() == 0
                        && matches_at(s, needle, k)) {
                        lemma_find_hit_closes_pending(s, needle, k + 1, stack);
                        if let FdScan::Hit { at } = fd_scan(s, needle, k + 1, stack) {
                            let c1 = choose|c1: int|
                                k + 1 <= c1 < at && s[c1] == stack.last() && fd_scan(
                                    s,
                                    needle,
                                    c1 + 1,
                                    stack.drop_last(),
                                ) == (FdScan::Hit { at });
                            assert(i <= c1);
                        }
                    }
                }
            },
        }
    }
}

/// Law: a reported match never lies inside an unmatched open delimiter.
/// When the search's scan front stands at an opening parenthesis, bracket
/// or brace that is not itself the needle position, any hit lies beyond a
/// matching closing delimiter, from which the search reaches the same hit.
pub proof fn lemma_find_delimited_skips_nested(s: Seq<char>, needle: Seq<char>, i: int, k: int)
    requires
        0 <= i < s.len(),
        k == (match lit_scan(s, ws_pos(s, i)) {
            LitScan::Lit { end } => end,
            _ => ws_pos(s, i),
        }),
        lit_scan(s, ws_pos(s, i)) is Bad == false,
        0 <= k < s.len(),
        s[k] == '(' || s[k] == '[' || s[k] == '{',
        !matches_at(s, needle, k),
    ensures
        fd_scan(s, needle, i, Seq::<char>::empty()) matches FdScan::Hit { at } ==> exists|c: int|
            k < c < at && s[c] == (if s[k] == '(' {
                ')'
            } else if s[k] == '[' {
                ']'
            } else {
                '}'
            }) && fd_scan(s, needle, c + 1, Seq::<char>::empty()) == (FdScan::Hit { at }),
{
    let cl = if s[k] == '(' {
        ')'
    } else if s[k] == '[' {
        ']'
    } else {
        '}'
    };
    lemma_find_hit_closes_pending(s, needle, k + 1, Seq::<char>::empty().push(cl));
    if let FdScan::Hit { at } = fd_scan(s, needle, i, Seq::<char>::empty()) {
        assert(fd_scan(s, needle, k + 1, Seq::<char>::empty().push(cl)) == (FdScan::Hit { at }));
        let c = choose|c: int|
            k + 1 <= c < at && s[c] == Seq::<char>::empty().push(cl).last() && fd_scan(
                s,
                needle,
                c + 1,
                Seq::<char>::empty().push(cl).drop_last(),
            ) == (FdScan::Hit { at });
        assert(Seq::<char>::empty().push(cl).drop_last() =~= Seq::<char>::empty());
        assert(s[c] == cl && fd_scan(s, needle, c + 1, Seq::<char>::empty()) == (FdScan::Hit {
            at,
        }));
    }
}

/// Law: when the needle stands at exactly one position of the text, a
/// successful balanced search returns exactly that position.
pub proof fn lemma_find_delimited_unique_occurrence(
    s: Seq<char>,
    needle: Seq<char>,
    i: int,
    p: int,
)
    requires
        0 <= i,
        matches_at(s, needle, p),
        forall|q: int| matches_at(s, needle, q) ==> q == p,
    ensures
        fd_scan(s, needle, i, Seq::<char>::empty()) matches FdScan::Hit { at } ==> at == p,
{
    lemma_find_delimited_needle(s, needle, i, Seq::<char>::empty());
}

pub proof fn lemma_fd_scan_hit_bounds(s: Seq<char>, needle: Seq<char>, i: int, stack: Seq<char>)
    requires
        0 <= i,
    ensures
        fd_scan(s, needle, i, stack) matches FdScan::Hit { at } ==> i <= at < s.len(),
    decreases s.len() - i,
{
    if 0 <= i < s.len() {
        lemma_ws_scan_bounds(s, i);
        let j = ws_pos(s, i);
        lemma_lit_scan_bounds(s, j);
        match lit_scan(s, j) {
            LitScan::Bad { at: _ } => {},
            _ => {
                let k = match lit_scan(s, j) {
                    LitScan::Lit { end } => end,
                    _ => j,
                };
                if k < s.len() {
                    if stack.len() == 0 && matches_at(s, needle, k) {
                    } else if stack.len() > 0 && s[k] == stack.last() {
                        lemma_fd_scan_hit_bounds(s, needle, k + 1, stack.drop_last());
                    } else if s[k] == '(' {
                        lemma_fd_scan_hit_bounds(s, needle, k + 1, stack.push(')'));
                    } else if s[k] == '[' {
                        lemma_fd_scan_hit_bounds(s, needle, k + 1, stack.push(']'));
                    } else if s[k] == '{' {
                        lemma_fd_scan_hit_bounds(s, needle, k + 1, stack.push('}'));
                    } else if !(s[k] == ')' || s[k] == ']' || s[k] == '}') {
                        lemma_fd_scan_hit_bounds(s, needle, k + 1, stack);
                    }
                }
            },
        }
    }
}

/// Advances until `needle` is found outside every delimiter opened since
/// the start of the search, returning a cursor at the needle. Fails on a
/// malformed literal, an unmatched closing delimiter, or exhausted input.
pub fn find_delimited(s: &[char], input: Cursor, needle: &[char]) -> (r: Result<Cursor, LexError>)
    requires
        input.wf(s@),
    ensures
        match r {
            Ok(c2) => {
                &&& fd_scan(s@, needle@, input.off as int, Seq::<char>::empty()) == (FdScan::Hit {
                    at: c2.off as int,
                })
                &&& c2.wf(s@)
                &&& input.off <= c2.off
            },
            Err(e) => fd_scan(s@, needle@, input.off as int, Seq::<char>::empty())
                matches FdScan::Fail { at } && e.line == line_at(s@, at),
        },
{
    let slen = s.len();
    let mut cur = input;
    let mut stack: Vec<char> = Vec::new();
    loop
        invariant
            input.wf(s@),
            cur.wf(s@),
            input.off <= cur.off,
            slen == s@.len(),
            fd_scan(s@, needle@, cur.off as int, stack@) == fd_scan(
                s@,
                needle@,
                input.off as int,
                Seq::<char>::empty(),
            ),
        decreases slen - cur.off,
    {
        if cur.off >= slen {
            return Err(LexError { line: cur.line });
        }
        let cw = skip_whitespace(s, cur);
        let (cl, _matched) = skip_literal(s, cw)?;
        proof {
            lemma_ws_scan_bounds(s@, cur.off as int);
            lemma_lit_scan_bounds(s@, cw.off as int);
        }
        if cl.off >= slen {
            return Err(LexError { line: cl.line });
        }
        if stack.len() == 0 && cl.starts_with(s, needle) {
            return Ok(cl);
        }
        let ch = s[cl.off];
        if stack.len() > 0 && ch == stack[stack.len() - 1] {
            stack.pop();
        } else if ch == '(' {
            stack.push(')');
        } else if ch == '[' {
            stack.push(']');
        } else if ch == '{' {
            stack.push('}');
        } else if ch == ')' || ch == ']' || ch == '}' {
            return Err(LexError { line: cl.line });
        }
        cur = cl.advance(s, 1);
    }
}

} // verus!
