//! Parsing of one `rust!` escape-hatch invocation.
//!
//! The accepted shape is `rust ! ( id [ name : type as "cpp-type", ... ]
//! -> type as "cpp-type" body )`, where the bracketed capture list may be
//! empty or carry a trailing comma, the return clause is optional, and the
//! body is one token tree: a delimited group, a literal, an identifier, or
//! a single other character. A capture's host-language type is not kept; it
//! is skipped up to the `as` keyword standing outside any nested brackets.
//! The quoted C++ type is unescaped as a cooked string literal.

use vstd::prelude::*;
use crate::cursor::{Cursor, new_cursor};
use crate::ws::{ws_pos, skip_whitespace, lemma_ws_scan_bounds, char_is_whitespace};
use crate::ident::{symbol, symbol_scan, lemma_symbol_scan_bounds};
use crate::search::{skip_literal, lit_scan, LitScan, fd_scan, FdScan, find_delimited,
    lemma_lit_scan_bounds, lemma_fd_scan_hit_bounds};
use crate::lit::{cooked_string, cooked_string_scan, bu_scan, bu_digits, bx_char_at, hexd,
    uni_ws_end, lemma_uni_ws_end_bounds, lemma_cooked_string_scan_bounds, lemma_bu_scan_bounds,
    backslash_x_char, backslash_u, is_esc_char};
use crate::strbuild::chars_to_string;

verus! {

broadcast use vstd::utf8::char_u32_cast;

/// The characters of the `rust` trigger keyword.
pub open spec fn kw_rust() -> Seq<char> {
    seq!['r', 'u', 's', 't']
}

pub(crate) fn is_kw_rust(v: &[char]) -> (r: bool)
    ensures
        r == (v@ == kw_rust()),
{
    if v.len() == 4 && v[0] == 'r' && v[1] == 'u' && v[2] == 's' && v[3] == 't' {
        proof {
            assert(v@ =~= kw_rust());
        }
        true
    } else {
        proof {
            assert(v@ != kw_rust());
        }
        false
    }
}

/// The characters of the `as` keyword.
pub open spec fn kw_as() -> Seq<char> {
    seq!['a', 's']
}

/// A well-formed cursor standing at offset `j`.
pub(crate) fn cursor_at(s: &[char], j: usize) -> (c: Cursor)
    requires
        j <= s@.len(),
    ensures
        c.wf(s@),
        c.off == j,
{
    new_cursor(s).advance(s, j)
}

/// The position after skipping whitespace and comments from `j`.
pub(crate) fn ws_from(s: &[char], j: usize) -> (r: usize)
    requires
        j <= s@.len(),
    ensures
        r == ws_pos(s@, j as int),
        j <= r <= s@.len(),
{
    proof {
        lemma_ws_scan_bounds(s@, j as int);
    }
    let c = cursor_at(s, j);
    skip_whitespace(s, c).off
}

/// The value of a hexadecimal digit.
pub open spec fn hexv(c: char) -> int {
    if '0' <= c && c <= '9' {
        (c as u32) - 48
    } else if 'a' <= c && c <= 'f' {
        (c as u32) - 87
    } else if 'A' <= c && c <= 'F' {
        (c as u32) - 55
    } else {
        0
    }
}

fn hex_val(c: char) -> (r: u32)
    requires
        hexd(c),
    ensures
        r == hexv(c),
        r < 16,
{
    let v = c as u32;
    if v >= 97 {
        v - 87
    } else if v >= 65 {
        v - 55
    } else {
        v - 48
    }
}

/// Sixteen to the power `k`.
pub open spec fn pow16(k: nat) -> nat
    decreases k,
{
    if k == 0 {
        1
    } else {
        16 * pow16((k - 1) as nat)
    }
}

proof fn lemma_pow16_le(a: nat, b: nat)
    requires
        a <= b,
    ensures
        1 <= pow16(a) <= pow16(b),
    decreases b,
{
    if a == b {
        if a > 0 {
            lemma_pow16_le((a - 1) as nat, (a - 1) as nat);
        }
    } else {
        lemma_pow16_le(a, (b - 1) as nat);
    }
}

/// The numeric value of the digits of a `\u{...}` escape between `j` and
/// the closing brace at `e - 1`, underscores skipped, accumulated on `acc`.
pub open spec fn bu_val(s: Seq<char>, j: int, e: int, acc: int) -> int
    decreases e - j,
{
    if j >= e - 1 {
        acc
    } else if 0 <= j < s.len() && hexd(s[j]) {
        bu_val(s, j + 1, e, acc * 16 + hexv(s[j]))
    } else {
        bu_val(s, j + 1, e, acc)
    }
}

/// Whether `v` is a Unicode scalar value.
pub open spec fn valid_scalar(v: int) -> bool {
    (0 <= v < 0xD800) || (0xE000 <= v <= 0x10FFFF)
}

/// Relies on `char::from_u32`: it returns `Some` exactly for Unicode scalar
/// values, and the resulting character has the given scalar value.
#[verifier::external_body]
fn char_of_u32(v: u32) -> (r: char)
    requires
        valid_scalar(v as int),
    ensures
        r as u32 == v,
{
    char::from_u32(v).unwrap()
}

/// The unescaped value of the cooked-string content standing between `i`
/// and the closing quote at `q`, or `None` when an escape is malformed or
/// names no Unicode scalar.
pub open spec fn unescape(s: Seq<char>, i: int, q: int) -> Option<Seq<char>>
    decreases q - i,
    via unescape_dec
{
    if i >= q {
        if i == q {
            Some(Seq::empty())
        } else {
            None
        }
    } else if i < 0 || q > s.len() {
        None
    } else if s[i] == '\\' {
        if i + 1 >= q {
            None
        } else {
            let d = s[i + 1];
            if d == 'x' {
                if bx_char_at(s, i + 2) && i + 4 <= q {
                    let v = hexv(s[i + 2]) * 16 + hexv(s[i + 3]);
                    match unescape(s, i + 4, q) {
                        Some(r) => Some(seq![((v as u32) as char)] + r),
                        None => None,
                    }
                } else {
                    None
                }
            } else if d == 'u' {
                match bu_scan(s, i + 2) {
                    Some(e) => if e <= q {
                        let v = bu_val(s, i + 3, e, 0);
                        if valid_scalar(v) {
                            match unescape(s, e, q) {
                                Some(r) => Some(seq![((v as u32) as char)] + r),
                                None => None,
                            }
                        } else {
                            None
                        }
                    } else {
                        None
                    },
                    None => None,
                }
            } else if d == 'n' || d == 'r' || d == 't' || d == '\\' || d == '\'' || d == '"' || d
                == '0' {
                let c = if d == 'n' {
                    '\n'
                } else if d == 'r' {
                    '\r'
                } else if d == 't' {
                    '\t'
                } else if d == '0' {
                    '\0'
                } else {
                    d
                };
                match unescape(s, i + 2, q) {
                    Some(r) => Some(seq![c] + r),
                    None => None,
                }
            } else if d == '\n' || d == '\r' {
                let k = uni_ws_end(s, i + 2);
                if k <= q {
                    unescape(s, k, q)
                } else {
                    None
                }
            } else {
                None
            }
        }
    } else {
        match unescape(s, i + 1, q) {
            Some(r) => Some(seq![s[i]] + r),
            None => None,
        }
    }
}

#[via_fn]
proof fn unescape_dec(s: Seq<char>, i: int, q: int) {
    if 0 <= i < q && q <= s.len() && s[i] == '\\' && i + 1 < q {
        lemma_bu_scan_bounds(s, i + 2);
        lemma_uni_ws_end_bounds(s, i + 2);
    }
}

/// Unescapes the cooked-string content between `i0` and the closing quote
/// at `q`.
fn unescape_range(s: &[char], i0: usize, q: usize) -> (r: Result<Vec<char>, ()>)
    requires
        q <= s@.len(),
        i0 <= q,
    ensures
        match r {
            Ok(v) => unescape(s@, i0 as int, q as int) == Some(v@),
            Err(_) => unescape(s@, i0 as int, q as int) is None,
        },
{
    let slen = s.len();
    let mut buf: Vec<char> = Vec::new();
    let mut i = i0;
    loop
        invariant
            i0 <= i,
            q <= slen,
            slen == s@.len(),
            match unescape(s@, i as int, q as int) {
                Some(rest) => unescape(s@, i0 as int, q as int) == Some(buf@ + rest),
                None => unescape(s@, i0 as int, q as int) is None,
            },
        decreases q - i,
    {
        if i >= q {
            if i == q {
                proof {
                    assert(buf@ + Seq::<char>::empty() =~= buf@);
                }
                return Ok(buf);
            }
            return Err(());
        }
        let c = s[i];
        if c == '\\' {
            if q - i < 2 {
                return Err(());
            }
            let d = s[i + 1];
            if d == 'x' {
                if backslash_x_char(s, i + 2) && q - i >= 4 {
                    let v = hex_val(s[i + 2]) * 16 + hex_val(s[i + 3]);
                    let ch = char_of_u32(v);
                    buf.push(ch);
                    proof {
                        if let Some(rest) = unescape(s@, i + 4, q as int) {
                            assert(buf@ + rest =~= buf@.drop_last() + (seq![ch] + rest));
                        }
                    }
                    i = i + 4;
                } else {
                    return Err(());
                }
            } else if d == 'u' {
                match backslash_u(s, i + 2) {
                    Some(e) => {
                        if !(e <= q) {
                            return Err(());
                        }
                        let mut acc: u32 = 0;
                        let mut k = i + 3;
                        proof {
                            assert(bu_digits(s@, i + 3, 0) == Some(e as int));
                            assert(pow16(0) == 1) by {
                                reveal_with_fuel(pow16, 1);
                            }
                        }
                        let mut gcount: Ghost<int> = Ghost(0);
                        loop
                            invariant
                                i + 3 <= k <= e,
                                e <= slen,
                                slen == s@.len(),
                                0 <= gcount@ <= 6,
                                bu_digits(s@, k as int, gcount@) == Some(e as int),
                                acc < pow16(gcount@ as nat),
                                bu_val(s@, k as int, e as int, acc as int) == bu_val(
                                    s@,
                                    i + 3,
                                    e as int,
                                    0,
                                ),
                            ensures
                                acc as int == bu_val(s@, i + 3, e as int, 0),
                                0 <= acc < 0x1000000,
                            decreases e - k,
                        {
                            if k >= e - 1 {
                                proof {
                                    lemma_pow16_le(gcount@ as nat, 6);
                                    assert(pow16(6) == 0x1000000) by {
                                        reveal_with_fuel(pow16, 7);
                                    }
                                }
                                break ;
                            }
                            let c2 = s[k];
                            if is_hexd_exec(c2) {
                                proof {
                                    assert(gcount@ < 6);
                                    assert(pow16((gcount@ + 1) as nat) == 16 * pow16(
                                        gcount@ as nat,
                                    ));
                                    assert((acc as int) * 16 <= (pow16(gcount@ as nat) - 1) * 16)
                                        by (nonlinear_arith)
                                        requires
                                            acc as int <= pow16(gcount@ as nat) - 1,
                                    ;
                                    lemma_pow16_le((gcount@ + 1) as nat, 6);
                                    assert(pow16(6) == 0x1000000) by {
                                        reveal_with_fuel(pow16, 7);
                                    }
                                }
                                acc = acc * 16 + hex_val(c2);
                                proof {
                                    gcount@ = gcount@ + 1;
                                }
                                k = k + 1;
                            } else {
                                k = k + 1;
                            }
                        }
                        if !(acc < 0xD800 || (0xE000 <= acc && acc <= 0x10FFFF)) {
                            return Err(());
                        }
                        let ch = char_of_u32(acc);
                        buf.push(ch);
                        proof {
                            if let Some(rest) = unescape(s@, e as int, q as int) {
                                assert(buf@ + rest =~= buf@.drop_last() + (seq![ch] + rest));
                            }
                        }
                        i = e;
                    },
                    None => {
                        return Err(());
                    },
                }
            } else if is_esc_char(d) {
                let ch = if d == 'n' {
                    '\n'
                } else if d == 'r' {
                    '\r'
                } else if d == 't' {
                    '\t'
                } else if d == '0' {
                    '\0'
                } else {
                    d
                };
                buf.push(ch);
                proof {
                    if let Some(rest) = unescape(s@, i + 2, q as int) {
                        assert(buf@ + rest =~= buf@.drop_last() + (seq![ch] + rest));
                    }
                }
                i = i + 2;
            } else if d == '\n' || d == '\r' {
                let mut k = i + 2;
                loop
                    invariant
                        i + 2 <= k <= slen,
                        slen == s@.len(),
                        uni_ws_end(s@, k as int) == uni_ws_end(s@, i + 2),
                    ensures
                        i + 2 <= k <= slen,
                        k == uni_ws_end(s@, i + 2),
                    decreases slen - k,
                {
                    if k >= slen {
                        break ;
                    }
                    if !char_is_whitespace(s[k]) {
                        break ;
                    }
                    k = k + 1;
                }
                if k > q {
                    return Err(());
                }
                i = k;
            } else {
                return Err(());
            }
        } else {
            buf.push(c);
            proof {
                if let Some(rest) = unescape(s@, i + 1, q as int) {
                    assert(buf@ + rest =~= buf@.drop_last() + (seq![c] + rest));
                }
            }
            i = i + 1;
        }
    }
}

fn is_hexd_exec(c: char) -> (r: bool)
    ensures
        r == hexd(c),
{
    ('0' <= c && c <= '9') || ('a' <= c && c <= 'f') || ('A' <= c && c <= 'F')
}

/// Skips a capture's host-language type: tokens are stepped over — with
/// whitespace, comments, literals and lifetimes skipped, and `()`, `[]`,
/// `{}`, `<>` tracked as one nesting depth — until the identifier `as`
/// stands at depth zero; the result is the position after that `as`. The
/// scan never passes `rp`.
pub open spec fn skip_to_as(s: Seq<char>, j: int, rp: int, depth: int) -> Option<int>
    decreases rp - j,
    via skip_to_as_dec
{
    if j < 0 || j >= rp || rp > s.len() {
        None
    } else {
        let w = ws_pos(s, j);
        if w >= rp {
            None
        } else {
            match lit_scan(s, w) {
                LitScan::Bad { at: _ } => None,
                LitScan::Lit { end } => if end <= rp {
                    skip_to_as(s, end, rp, depth)
                } else {
                    None
                },
                LitScan::NoLit => match symbol_scan(s, w) {
                    Some((st, se)) => if se <= rp {
                        if depth == 0 && s.subrange(st, se) == kw_as() {
                            Some(se)
                        } else {
                            skip_to_as(s, se, rp, depth)
                        }
                    } else {
                        None
                    },
                    None => {
                        let c = s[w];
                        if c == '(' || c == '[' || c == '{' || c == '<' {
                            skip_to_as(s, w + 1, rp, depth + 1)
                        } else if c == ')' || c == ']' || c == '}' || c == '>' {
                            if depth == 0 {
                                None
                            } else {
                                skip_to_as(s, w + 1, rp, depth - 1)
                            }
                        } else {
                            skip_to_as(s, w + 1, rp, depth)
                        }
                    },
                },
            }
        }
    }
}

#[via_fn]
proof fn skip_to_as_dec(s: Seq<char>, j: int, rp: int, depth: int) {
    if 0 <= j < rp && rp <= s.len() {
        lemma_ws_scan_bounds(s, j);
        let w = ws_pos(s, j);
        lemma_lit_scan_bounds(s, w);
        lemma_symbol_scan_bounds(s, w);
    }
}

pub proof fn lemma_skip_to_as_bounds(s: Seq<char>, j: int, rp: int, depth: int)
    ensures
        match skip_to_as(s, j, rp, depth) {
            Some(pa) => j < pa <= rp,
            None => true,
        },
    decreases rp - j,
{
    if 0 <= j < rp && rp <= s.len() {
        lemma_ws_scan_bounds(s, j);
        let w = ws_pos(s, j);
        lemma_lit_scan_bounds(s, w);
        lemma_symbol_scan_bounds(s, w);
        if w < rp {
            match lit_scan(s, w) {
                LitScan::Bad { at: _ } => {},
                LitScan::Lit { end } => {
                    if end <= rp {
                        lemma_skip_to_as_bounds(s, end, rp, depth);
                    }
                },
                LitScan::NoLit => match symbol_scan(s, w) {
                    Some((st, se)) => {
                        if se <= rp && !(depth == 0 && s.subrange(st, se) == kw_as()) {
                            lemma_skip_to_as_bounds(s, se, rp, depth);
                        }
                    },
                    None => {
                        let c = s[w];
                        if c == '(' || c == '[' || c == '{' || c == '<' {
                            lemma_skip_to_as_bounds(s, w + 1, rp, depth + 1);
                        } else if c == ')' || c == ']' || c == '}' || c == '>' {
                            if depth != 0 {
                                lemma_skip_to_as_bounds(s, w + 1, rp, depth - 1);
                            }
                        } else {
                            lemma_skip_to_as_bounds(s, w + 1, rp, depth);
                        }
                    },
                },
            }
        }
    }
}

fn skip_to_as_exec(s: &[char], j0: usize, rp: usize) -> (r: Result<usize, ()>)
    requires
        rp <= s@.len(),
        j0 <= rp,
    ensures
        match r {
            Ok(pa) => skip_to_as(s@, j0 as int, rp as int, 0) == Some(pa as int) && j0 < pa <= rp,
            Err(_) => skip_to_as(s@, j0 as int, rp as int, 0) is None,
        },
{
    let slen = s.len();
    let mut j = j0;
    let mut depth: usize = 0;
    proof {
        lemma_skip_to_as_bounds(s@, j0 as int, rp as int, 0);
    }
    loop
        invariant
            rp <= slen,
            slen == s@.len(),
            j0 <= j <= rp,
            depth <= j,
            skip_to_as(s@, j as int, rp as int, depth as int) == skip_to_as(
                s@,
                j0 as int,
                rp as int,
                0,
            ),
        decreases rp - j,
    {
        if j >= rp {
            return Err(());
        }
        let w = ws_from(s, j);
        proof {
            lemma_lit_scan_bounds(s@, w as int);
            lemma_symbol_scan_bounds(s@, w as int);
        }
        if w >= rp {
            return Err(());
        }
        let cw = cursor_at(s, w);
        let lr = match skip_literal(s, cw) {
            Ok(x) => x,
            Err(_) => {
                return Err(());
            },
        };
        if lr.1 {
            if lr.0.off > rp {
                return Err(());
            }
            j = lr.0.off;
            continue ;
        }
        match symbol(s, cw) {
            Ok((cs, id)) => {
                if cs.off > rp {
                    return Err(());
                }
                if depth == 0 && id.len() == 2 && id[0] == 'a' && id[1] == 's' {
                    proof {
                        assert(id@ =~= kw_as());
                    }
                    return Ok(cs.off);
                }
                proof {
                    if !(depth == 0) {
                    } else {
                        assert(id@ != kw_as());
                    }
                }
                j = cs.off;
            },
            Err(_) => {
                let c = s[w];
                if c == '(' || c == '[' || c == '{' || c == '<' {
                    depth = depth + 1;
                    j = w + 1;
                } else if c == ')' || c == ']' || c == '}' || c == '>' {
                    if depth == 0 {
                        return Err(());
                    }
                    depth = depth - 1;
                    j = w + 1;
                } else {
                    j = w + 1;
                }
            },
        }
    }
}

/// A cooked string literal standing at `i`, its closing quote before `rp`:
/// the unescaped value and the position after the closing quote.
pub open spec fn str_lit_at(s: Seq<char>, i: int, rp: int) -> Option<(Seq<char>, int)> {
    if 0 <= i < rp <= s.len() && s[i] == '"' {
        match cooked_string_scan(s, i + 1) {
            Some(q) => if q < rp {
                match unescape(s, i + 1, q) {
                    Some(v) => Some((v, q + 1)),
                    None => None,
                }
            } else {
                None
            },
            None => None,
        }
    } else {
        None
    }
}

pub proof fn lemma_str_lit_at_bounds(s: Seq<char>, i: int, rp: int)
    ensures
        match str_lit_at(s, i, rp) {
            Some((_v, pe)) => i < pe <= rp,
            None => true,
        },
{
    if 0 <= i < rp && rp <= s.len() && s[i] == '"' {
        lemma_cooked_string_scan_bounds(s, i + 1);
    }
}

fn str_lit_exec(s: &[char], i: usize, rp: usize) -> (r: Result<(Vec<char>, usize), ()>)
    requires
        rp <= s@.len(),
    ensures
        match r {
            Ok((v, pe)) => str_lit_at(s@, i as int, rp as int) == Some((v@, pe as int)) && i < pe
                <= rp,
            Err(_) => str_lit_at(s@, i as int, rp as int) is None,
        },
{
    let slen = s.len();
    if !(i < rp && s[i] == '"') {
        return Err(());
    }
    let inner = cursor_at(s, i + 1);
    let qcur = match cooked_string(s, inner) {
        Ok(x) => x,
        Err(_) => {
            return Err(());
        },
    };
    proof {
        lemma_cooked_string_scan_bounds(s@, i + 1);
    }
    let q = qcur.off;
    if !(q < rp) {
        return Err(());
    }
    match unescape_range(s, i + 1, q) {
        Ok(v) => Ok((v, q + 1)),
        Err(_) => Err(()),
    }
}

/// The capture list of an invocation, between the opening bracket and the
/// list's closing bracket: `name : type as "cpp-type"` entries separated
/// by commas, a trailing comma allowed; the result carries the pairs of
/// capture name and C++ type, and the position after the closing bracket.
pub open spec fn parse_args(s: Seq<char>, j: int, rp: int) -> Option<
    (Seq<(Seq<char>, Seq<char>)>, int),
>
    decreases rp - j,
    via parse_args_dec
{
    if j < 0 || rp > s.len() || j > rp {
        None
    } else {
        let w = ws_pos(s, j);
        if w >= rp {
            None
        } else if s[w] == ']' {
            Some((Seq::empty(), w + 1))
        } else {
            match symbol_scan(s, w) {
                None => None,
                Some((st, se)) => {
                    let name = s.subrange(st, se);
                    if se > rp {
                        None
                    } else {
                        let wc = ws_pos(s, se);
                        if !(wc < rp && s[wc] == ':') {
                            None
                        } else {
                            match skip_to_as(s, wc + 1, rp, 0) {
                                None => None,
                                Some(pa) => {
                                    let wv = ws_pos(s, pa);
                                    match str_lit_at(s, wv, rp) {
                                        None => None,
                                        Some((val, pe)) => {
                                            let wn = ws_pos(s, pe);
                                            if wn < rp && s[wn] == ',' {
                                                match parse_args(s, wn + 1, rp) {
                                                    Some((rest, e)) => Some(
                                                        (seq![(name, val)] + rest, e),
                                                    ),
                                                    None => None,
                                                }
                                            } else if wn < rp && s[wn] == ']' {
                                                Some((seq![(name, val)], wn + 1))
                                            } else {
                                                None
                                            }
                                        },
                                    }
                                },
                            }
                        }
                    }
                },
            }
        }
    }
}

#[via_fn]
proof fn parse_args_dec(s: Seq<char>, j: int, rp: int) {
    if 0 <= j <= rp && rp <= s.len() {
        lemma_ws_scan_bounds(s, j);
        let w = ws_pos(s, j);
        if w < rp && s[w] != ']' {
            lemma_symbol_scan_bounds(s, w);
            if let Some((_st, se)) = symbol_scan(s, w) {
                if se <= rp {
                    lemma_ws_scan_bounds(s, se);
                    let wc = ws_pos(s, se);
                    if wc < rp && s[wc] == ':' {
                        lemma_skip_to_as_bounds(s, wc + 1, rp, 0);
                        if let Some(pa) = skip_to_as(s, wc + 1, rp, 0) {
                            lemma_ws_scan_bounds(s, pa);
                            let wv = ws_pos(s, pa);
                            lemma_str_lit_at_bounds(s, wv, rp);
                            if let Some((_val, pe)) = str_lit_at(s, wv, rp) {
                                lemma_ws_scan_bounds(s, pe);
                            }
                        }
                    }
                }
            }
        }
    }
}

pub proof fn lemma_parse_args_bounds(s: Seq<char>, j: int, rp: int)
    ensures
        match parse_args(s, j, rp) {
            Some((_a, pe)) => j < pe <= rp,
            None => true,
        },
    decreases rp - j,
{
    if 0 <= j <= rp && rp <= s.len() {
        lemma_ws_scan_bounds(s, j);
        let w = ws_pos(s, j);
        if w < rp && s[w] != ']' {
            lemma_symbol_scan_bounds(s, w);
            if let Some((_st, se)) = symbol_scan(s, w) {
                if se <= rp {
                    lemma_ws_scan_bounds(s, se);
                    let wc = ws_pos(s, se);
                    if wc < rp && s[wc] == ':' {
                        lemma_skip_to_as_bounds(s, wc + 1, rp, 0);
                        if let Some(pa) = skip_to_as(s, wc + 1, rp, 0) {
                            lemma_ws_scan_bounds(s, pa);
                            let wv = ws_pos(s, pa);
                            lemma_str_lit_at_bounds(s, wv, rp);
                            if let Some((_val, pe)) = str_lit_at(s, wv, rp) {
                                lemma_ws_scan_bounds(s, pe);
                                let wn = ws_pos(s, pe);
                                if wn < rp && s[wn] == ',' {
                                    lemma_parse_args_bounds(s, wn + 1, rp);
                                }
                            }
                        }
                    }
                }
            }
        }
    }
}

/// Joins already-parsed captures with the parse of the remaining list.
pub open spec fn args_prepend(
    acc: Seq<(Seq<char>, Seq<char>)>,
    r: Option<(Seq<(Seq<char>, Seq<char>)>, int)>,
) -> Option<(Seq<(Seq<char>, Seq<char>)>, int)> {
    match r {
        Some((rest, e)) => Some((acc + rest, e)),
        None => None,
    }
}

fn parse_args_exec(s: &[char], j0: usize, rp: usize) -> (r: Result<(Vec<(String, String)>, usize), ()>)
    requires
        rp <= s@.len(),
        j0 <= rp,
    ensures
        match r {
            Ok((args, pe)) => ({
                &&& parse_args(s@, j0 as int, rp as int) matches Some((aspec, pes)) && pes
                    == pe as int && args@.len() == aspec.len() && (forall|k: int|
                    0 <= k < aspec.len() ==> (#[trigger] args@[k]).0@ == aspec[k].0
                        && args@[k].1@ == aspec[k].1)
                &&& pe <= rp
            }),
            Err(_) => parse_args(s@, j0 as int, rp as int) is None,
        },
{
    let slen = s.len();
    let mut j = j0;
    let mut out: Vec<(String, String)> = Vec::new();
    let ghost mut acc: Seq<(Seq<char>, Seq<char>)> = Seq::empty();
    proof {
        lemma_parse_args_bounds(s@, j0 as int, rp as int);
    }
    loop
        invariant
            rp <= slen,
            slen == s@.len(),
            j <= rp,
            out@.len() == acc.len(),
            forall|k: int|
                0 <= k < acc.len() ==> (#[trigger] out@[k]).0@ == acc[k].0 && out@[k].1@
                    == acc[k].1,
            args_prepend(acc, parse_args(s@, j as int, rp as int)) == parse_args(
                s@,
                j0 as int,
                rp as int,
            ),
        decreases rp - j,
    {
        let w = ws_from(s, j);
        if w >= rp {
            return Err(());
        }
        if s[w] == ']' {
            proof {
                assert(acc + Seq::<(Seq<char>, Seq<char>)>::empty() =~= acc);
            }
            return Ok((out, w + 1));
        }
        let cw = cursor_at(s, w);
        match symbol(s, cw) {
            Err(_) => {
                return Err(());
            },
            Ok((cs, name_chars)) => {
                proof {
                    lemma_symbol_scan_bounds(s@, w as int);
                }
                if cs.off > rp {
                    return Err(());
                }
                let wc = ws_from(s, cs.off);
                if !(wc < rp && s[wc] == ':') {
                    return Err(());
                }
                let pa = match skip_to_as_exec(s, wc + 1, rp) {
                    Ok(x) => x,
                    Err(_) => {
                        return Err(());
                    },
                };
                let wv = ws_from(s, pa);
                let (val_chars, pe) = match str_lit_exec(s, wv, rp) {
                    Ok(x) => x,
                    Err(_) => {
                        return Err(());
                    },
                };
                let wn = ws_from(s, pe);
                let name = chars_to_string(&name_chars);
                let val = chars_to_string(&val_chars);
                let ghost pair = (name_chars@, val_chars@);
                if wn < rp && s[wn] == ',' {
                    out.push((name, val));
                    proof {
                        let ghost acc2 = acc + seq![pair];
                        if let Some((rest2, _e2)) = parse_args(s@, wn + 1, rp as int) {
                            assert(acc + (seq![pair] + rest2) =~= acc2 + rest2);
                        }
                        acc = acc2;
                    }
                    j = wn + 1;
                } else if wn < rp && s[wn] == ']' {
                    out.push((name, val));
                    proof {
                        assert(acc + seq![pair] =~= acc + seq![pair]);
                    }
                    return Ok((out, wn + 1));
                } else {
                    return Err(());
                }
            },
        }
    }
}

/// One token tree standing at `w`: a delimited group scanned to its
/// matching close with the balanced search, a literal, an identifier, or a
/// single character that is not a closing delimiter. The result is the
/// position after the tree, never past `rp`.
pub open spec fn body_end(s: Seq<char>, w: int, rp: int) -> Option<int> {
    if !(0 <= w < rp <= s.len()) {
        None
    } else {
        let c = s[w];
        if c == '{' || c == '(' || c == '[' {
            let closer = if c == '{' {
                '}'
            } else if c == '(' {
                ')'
            } else {
                ']'
            };
            match fd_scan(s, seq![closer], w + 1, Seq::<char>::empty()) {
                FdScan::Hit { at } => if at < rp {
                    Some(at + 1)
                } else {
                    None
                },
                FdScan::Fail { at: _ } => None,
            }
        } else {
            match lit_scan(s, w) {
                LitScan::Bad { at: _ } => None,
                LitScan::Lit { end } => if end <= rp {
                    Some(end)
                } else {
                    None
                },
                LitScan::NoLit => match symbol_scan(s, w) {
                    Some((_st, se)) => if se <= rp {
                        Some(se)
                    } else {
                        None
                    },
                    None => if c == ')' || c == ']' || c == '}' {
                        None
                    } else {
                        Some(w + 1)
                    },
                },
            }
        }
    }
}

pub proof fn lemma_body_end_bounds(s: Seq<char>, w: int, rp: int)
    ensures
        match body_end(s, w, rp) {
            Some(be) => w < be <= rp,
            None => true,
        },
{
    if 0 <= w < rp && rp <= s.len() {
        let c = s[w];
        if c == '{' || c == '(' || c == '[' {
            let closer = if c == '{' {
                '}'
            } else if c == '(' {
                ')'
            } else {
                ']'
            };
            lemma_fd_scan_hit_bounds(s, seq![closer], w + 1, Seq::<char>::empty());
        } else {
            lemma_lit_scan_bounds(s, w);
            lemma_symbol_scan_bounds(s, w);
        }
    }
}

fn body_end_exec(s: &[char], w: usize, rp: usize) -> (r: Result<usize, ()>)
    requires
        rp <= s@.len(),
    ensures
        match r {
            Ok(be) => body_end(s@, w as int, rp as int) == Some(be as int) && w < be <= rp,
            Err(_) => body_end(s@, w as int, rp as int) is None,
        },
{
    proof {
        lemma_body_end_bounds(s@, w as int, rp as int);
    }
    if !(w < rp) {
        return Err(());
    }
    let c = s[w];
    if c == '{' || c == '(' || c == '[' {
        let closer: char = if c == '{' {
            '}'
        } else if c == '(' {
            ')'
        } else {
            ']'
        };
        let mut needle: Vec<char> = Vec::new();
        needle.push(closer);
        proof {
            assert(needle@ =~= seq![closer]);
        }
        let inner = cursor_at(s, w + 1);
        match find_delimited(s, inner, needle.as_slice()) {
            Ok(cend) => {
                if cend.off < rp {
                    Ok(cend.off + 1)
                } else {
                    Err(())
                }
            },
            Err(_) => Err(()),
        }
    } else {
        let cw = cursor_at(s, w);
        let lr = match skip_literal(s, cw) {
            Ok(x) => x,
            Err(_) => {
                return Err(());
            },
        };
        if lr.1 {
            if lr.0.off <= rp {
                return Ok(lr.0.off);
            }
            return Err(());
        }
        match symbol(s, cw) {
            Ok((cs, _id)) => {
                if cs.off <= rp {
                    Ok(cs.off)
                } else {
                    Err(())
                }
            },
            Err(_) => {
                if c == ')' || c == ']' || c == '}' {
                    Err(())
                } else {
                    Ok(w + 1)
                }
            },
        }
    }
}

/// The parsed shape of one invocation: the callback identifier, the capture
/// name / C++ type pairs in order, and the C++ return type when a return
/// clause is present.
pub struct RustInvSpec {
    pub id: Seq<char>,
    pub args: Seq<(Seq<char>, Seq<char>)>,
    pub ret: Option<Seq<char>>,
}

/// Parse of a whole invocation spanning `begin` (at the `rust` keyword)
/// through the opening parenthesis at `lp` to its matching close at `rp`:
/// the keyword, `!`, the parenthesis, the callback identifier, the
/// bracketed capture list, the optional `-> type as "cpp-type"` clause and
/// the body token tree, with nothing but whitespace and comments left
/// before `rp`.
pub open spec fn parse_invocation(s: Seq<char>, begin: int, lp: int, rp: int) -> Option<
    RustInvSpec,
> {
    if !(0 <= begin && begin <= lp && lp < rp && rp <= s.len()) {
        None
    } else {
        match symbol_scan(s, begin) {
            None => None,
            Some((st, se)) => if s.subrange(st, se) != kw_rust() {
                None
            } else {
                let w1 = ws_pos(s, se);
                if !(w1 < s.len() && s[w1] == '!' && ws_pos(s, w1 + 1) == lp && s[lp] == '(') {
                    None
                } else {
                    let wi = ws_pos(s, lp + 1);
                    match symbol_scan(s, wi) {
                        None => None,
                        Some((ist, ise)) => if ise > rp {
                            None
                        } else {
                            let id = s.subrange(ist, ise);
                            let wb = ws_pos(s, ise);
                            if !(wb < rp && s[wb] == '[') {
                                None
                            } else {
                                match parse_args(s, wb + 1, rp) {
                                    None => None,
                                    Some((args, pe)) => {
                                        let wr = ws_pos(s, pe);
                                        if wr < rp && s[wr] == '-' && wr + 1 < rp && s[wr + 1] == '>' {
                                            match skip_to_as(s, wr + 2, rp, 0) {
                                                None => None,
                                                Some(pa) => {
                                                    let wv = ws_pos(s, pa);
                                                    match str_lit_at(s, wv, rp) {
                                                        None => None,
                                                        Some((rv, pe2)) => {
                                                            match body_end(s, ws_pos(s, pe2), rp) {
                                                                None => None,
                                                                Some(be) => if ws_pos(s, be)
                                                                    == rp {
                                                                    Some(
                                                                        RustInvSpec {
                                                                            id,
                                                                            args,
                                                                            ret: Some(rv),
                                                                        },
                                                                    )
                                                                } else {
                                                                    None
                                                                },
                                                            }
                                                        },
                                                    }
                                                },
                                            }
                                        } else {
                                            match body_end(s, ws_pos(s, pe), rp) {
                                                None => None,
                                                Some(be) => if ws_pos(s, be) == rp {
                                                    Some(RustInvSpec { id, args, ret: None })
                                                } else {
                                                    None
                                                },
                                            }
                                        }
                                    },
                                }
                            }
                        },
                    }
                }
            },
        }
    }
}

/// One `rust!` escape-hatch call site: the span it occupies in the scanned
/// text, the callback identifier, the captured arguments as name / C++
/// type pairs, and the C++ return type when one is given.
pub struct RustInvocation {
    pub begin: usize,
    pub end: usize,
    pub id: String,
    pub arguments: Vec<(String, String)>,
    pub return_type: Option<String>,
}

/// The exec record `inv` carries exactly the parsed shape `ispec`.
pub open spec fn inv_matches(inv: RustInvocation, ispec: RustInvSpec) -> bool {
    &&& inv.id@ == ispec.id
    &&& inv.arguments@.len() == ispec.args.len()
    &&& forall|k: int|
        0 <= k < ispec.args.len() ==> (#[trigger] inv.arguments@[k]).0@ == ispec.args[k].0
            && inv.arguments@[k].1@ == ispec.args[k].1
    &&& match (inv.return_type, ispec.ret) {
        (Some(a), Some(b)) => a@ == b,
        (None, None) => true,
        _ => false,
    }
}

/// Parses the invocation standing between `begin` and the closing
/// parenthesis at `rp`, `lp` being its opening parenthesis; the record's
/// span runs from `begin` to just past `rp`.
#[verifier::rlimit(60)]
pub fn parse_rust_invocation(s: &[char], begin: usize, lp: usize, rp: usize) -> (r: Result<
    RustInvocation,
    (),
>)
    requires
        begin <= lp < rp,
        rp < s@.len(),
    ensures
        match r {
            Ok(inv) => ({
                &&& parse_invocation(s@, begin as int, lp as int, rp as int) matches Some(ispec)
                    && inv_matches(inv, ispec)
                &&& inv.begin == begin
                &&& inv.end == rp + 1
            }),
            Err(_) => parse_invocation(s@, begin as int, lp as int, rp as int) is None,
        },
{
    let slen = s.len();
    let cb = cursor_at(s, begin);
    let (cs, kw) = match symbol(s, cb) {
        Ok(x) => x,
        Err(_) => {
            return Err(());
        },
    };
    if !is_kw_rust(kw.as_slice()) {
        return Err(());
    }
    let w1 = ws_from(s, cs.off);
    if !(w1 < slen && s[w1] == '!') {
        return Err(());
    }
    let w2 = ws_from(s, w1 + 1);
    if !(w2 == lp && s[lp] == '(') {
        return Err(());
    }
    let wi = ws_from(s, lp + 1);
    let ci = cursor_at(s, wi);
    let (cid, idc) = match symbol(s, ci) {
        Ok(x) => x,
        Err(_) => {
            return Err(());
        },
    };
    proof {
        lemma_symbol_scan_bounds(s@, wi as int);
    }
    if cid.off > rp {
        return Err(());
    }
    let wb = ws_from(s, cid.off);
    if !(wb < rp && s[wb] == '[') {
        return Err(());
    }
    let (args, pe) = match parse_args_exec(s, wb + 1, rp) {
        Ok(x) => x,
        Err(_) => {
            return Err(());
        },
    };
    let wr = ws_from(s, pe);
    let id = chars_to_string(&idc);
    if wr < rp && s[wr] == '-' && wr + 1 < rp && s[wr + 1] == '>' {
        let pa = match skip_to_as_exec(s, wr + 2, rp) {
            Ok(x) => x,
            Err(_) => {
                return Err(());
            },
        };
        let wv = ws_from(s, pa);
        let (rv, pe2) = match str_lit_exec(s, wv, rp) {
            Ok(x) => x,
            Err(_) => {
                return Err(());
            },
        };
        let wb2 = ws_from(s, pe2);
        let be = match body_end_exec(s, wb2, rp) {
            Ok(x) => x,
            Err(_) => {
                return Err(());
            },
        };
        let wend = ws_from(s, be);
        if wend != rp {
            return Err(());
        }
        let ret = chars_to_string(&rv);
        Ok(
            RustInvocation {
                begin,
                end: rp + 1,
                id,
                arguments: args,
                return_type: Some(ret),
            },
        )
    } else {
        let wb2 = ws_from(s, pe);
        let be = match body_end_exec(s, wb2, rp) {
            Ok(x) => x,
            Err(_) => {
                return Err(());
            },
        };
        let wend = ws_from(s, be);
        if wend != rp {
            return Err(());
        }
        Ok(RustInvocation { begin, end: rp + 1, id, arguments: args, return_type: None })
    }
}

} // verus!
