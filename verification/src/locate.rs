//! The fragment locator.
//!
//! A whole file's text is scanned for the two trigger forms — `cpp ! <open
//! delimiter>` and `cpp_class ! <open delimiter>` — with literals and
//! comments skipped so that trigger text inside them is never mistaken for
//! a form. On a match, the balanced-delimiter search extracts the exact
//! span between the opening delimiter and its matching close, and scanning
//! continues after the form. A `#line` directive can be generated for a
//! fragment's starting cursor so downstream diagnostics map back to the
//! original file.

use vstd::prelude::*;
use crate::cursor::{Cursor, LexError, line_at, new_cursor};
use crate::ws::{ws_pos, skip_whitespace, lemma_ws_scan_bounds};
use crate::ident::{symbol, symbol_scan, lemma_symbol_scan_bounds};
use crate::search::{
    find_delimited, skip_literal, lit_scan, LitScan, fd_scan, FdScan, lemma_lit_scan_bounds,
    lemma_fd_scan_hit_bounds,
};
use crate::strbuild::{append_str, append_dec, append_repeat, append_escaped_bs, chars_to_string,
    dec_digits, escape_bs, repeat_char};

verus! {

/// The characters of the `cpp` trigger keyword.
pub open spec fn kw_cpp() -> Seq<char> {
    seq!['c', 'p', 'p']
}

/// The characters of the `cpp_class` trigger keyword.
pub open spec fn kw_cpp_class() -> Seq<char> {
    seq!['c', 'p', 'p', '_', 'c', 'l', 'a', 's', 's']
}

pub(crate) fn is_kw_cpp(v: &[char]) -> (r: bool)
    ensures
        r == (v@ == kw_cpp()),
{
    if v.len() == 3 && v[0] == 'c' && v[1] == 'p' && v[2] == 'p' {
        proof {
            assert(v@ =~= kw_cpp());
        }
        true
    } else {
        proof {
            assert(v@ != kw_cpp());
        }
        false
    }
}

pub(crate) fn is_kw_cpp_class(v: &[char]) -> (r: bool)
    ensures
        r == (v@ == kw_cpp_class()),
{
    if v.len() == 9 && v[0] == 'c' && v[1] == 'p' && v[2] == 'p' && v[3] == '_' && v[4] == 'c'
        && v[5] == 'l' && v[6] == 'a' && v[7] == 's' && v[8] == 's' {
        proof {
            assert(v@ =~= kw_cpp_class());
        }
        true
    } else {
        proof {
            assert(v@ != kw_cpp_class());
        }
        false
    }
}

/// One located form, in the scan's ghost model: which trigger it was and
/// the span of its delimited contents.
pub struct FoundSpec {
    pub is_class: bool,
    pub begin: int,
    pub end: int,
}

/// Result of the locator scan: the located forms in order, or the position
/// of a lexing failure.
pub enum FcmRes {
    Done { found: Seq<FoundSpec> },
    Failed { at: int },
}

/// The locator scan from `i`: skip whitespace, comments and literals; at an
/// identifier equal to a trigger keyword, followed (after whitespace) by
/// `!` and an opening delimiter, extract the span up to the matching close
/// with the balanced search and continue from the close; otherwise step on.
pub open spec fn fcm_scan(s: Seq<char>, i: int) -> FcmRes
    decreases s.len() - i,
    via fcm_scan_dec
{
    if i < 0 || i >= s.len() {
        FcmRes::Done { found: Seq::empty() }
    } else {
        let j = ws_pos(s, i);
        match lit_scan(s, j) {
            LitScan::Bad { at } => FcmRes::Failed { at },
            LitScan::Lit { end } => fcm_scan(s, end),
            LitScan::NoLit => match symbol_scan(s, j) {
                None => if j >= s.len() {
                    FcmRes::Done { found: Seq::empty() }
                } else {
                    fcm_scan(s, j + 1)
                },
                Some((st, se)) => {
                    let id = s.subrange(st, se);
                    if id == kw_cpp() || id == kw_cpp_class() {
                        let p = ws_pos(s, se);
                        if !(p < s.len() && s[p] == '!') {
                            fcm_scan(s, p)
                        } else {
                            let q = ws_pos(s, p + 1);
                            if q < s.len() && (s[q] == '(' || s[q] == '[' || s[q] == '{') {
                                let closer = if s[q] == '(' {
                                    ')'
                                } else if s[q] == '[' {
                                    ']'
                                } else {
                                    '}'
                                };
                                match fd_scan(s, seq![closer], q + 1, Seq::<char>::empty()) {
                                    FdScan::Hit { at } => match fcm_scan(s, at) {
                                        FcmRes::Done { found } => FcmRes::Done {
                                            found: seq![
                                                FoundSpec {
                                                    is_class: id == kw_cpp_class(),
                                                    begin: q + 1,
                                                    end: at,
                                                },
                                            ] + found,
                                        },
                                        FcmRes::Failed { at: f } => FcmRes::Failed { at: f },
                                    },
                                    FdScan::Fail { at } => FcmRes::Failed { at },
                                }
                            } else {
                                fcm_scan(s, q)
                            }
                        }
                    } else {
                        fcm_scan(s, se)
                    }
                },
            },
        }
    }
}

#[via_fn]
proof fn fcm_scan_dec(s: Seq<char>, i: int) {
    if 0 <= i < s.len() {
        lemma_ws_scan_bounds(s, i);
        let j = ws_pos(s, i);
        lemma_lit_scan_bounds(s, j);
        lemma_symbol_scan_bounds(s, j);
        if let Some((_st, se)) = symbol_scan(s, j) {
            lemma_ws_scan_bounds(s, se);
            let p = ws_pos(s, se);
            if p < s.len() && s[p] == '!' {
                lemma_ws_scan_bounds(s, p + 1);
                let q = ws_pos(s, p + 1);
                if q < s.len() {
                    lemma_fd_scan_hit_bounds(
                        s,
                        seq![if s[q] == '(' {
                                ')'
                            } else if s[q] == '[' {
                                ']'
                            } else {
                                '}'
                            }],
                        q + 1,
                        Seq::<char>::empty(),
                    );
                }
            }
        }
    }
}

/// Joins a partial list of located forms with the scan of the remaining
/// text.
pub open spec fn fcm_prepend(acc: Seq<FoundSpec>, r: FcmRes) -> FcmRes {
    match r {
        FcmRes::Done { found } => FcmRes::Done { found: acc + found },
        FcmRes::Failed { at } => FcmRes::Failed { at },
    }
}

/// One located form: which trigger it was, a cursor at the first character
/// of its delimited contents (line and column included, for diagnostics and
/// the `#line` directive), and the offset of the matching close.
#[derive(Debug)]
pub struct FoundMacro {
    pub is_class: bool,
    pub begin: Cursor,
    pub end: usize,
}

/// The exec record `m` carries exactly the located form `f`.
pub open spec fn found_matches(s: Seq<char>, m: FoundMacro, f: FoundSpec) -> bool {
    &&& m.is_class == f.is_class
    &&& m.begin.off == f.begin
    &&& m.begin.wf(s)
    &&& m.end == f.end
}

/// Scans a whole file's text for `cpp!` and `cpp_class!` forms, returning
/// one record per form in source order, each with the exact span of its
/// delimited contents. Fails, with the offending line, on a malformed
/// literal or unbalanced delimiters inside a form.
pub fn find_cpp_macros(s: &[char]) -> (r: Result<Vec<FoundMacro>, LexError>)
    ensures
        match r {
            Ok(ms) => fcm_scan(s@, 0) matches FcmRes::Done { found } && ms@.len() == found.len()
                && (forall|k: int|
                0 <= k < found.len() ==> found_matches(s@, #[trigger] ms@[k], found[k])),
            Err(e) => fcm_scan(s@, 0) matches FcmRes::Failed { at } && e.line == line_at(s@, at),
        },
{
    let slen = s.len();
    let mut cur = new_cursor(s);
    let mut out: Vec<FoundMacro> = Vec::new();
    let ghost mut acc: Seq<FoundSpec> = Seq::empty();
    loop
        invariant
            cur.wf(s@),
            slen == s@.len(),
            out@.len() == acc.len(),
            forall|k: int| 0 <= k < acc.len() ==> found_matches(s@, #[trigger] out@[k], acc[k]),
            fcm_prepend(acc, fcm_scan(s@, cur.off as int)) == fcm_scan(s@, 0),
        decreases slen - cur.off,
    {
        if cur.off >= slen {
            proof {
                assert(acc + Seq::<FoundSpec>::empty() =~= acc);
            }
            return Ok(out);
        }
        let cw = skip_whitespace(s, cur);
        proof {
            lemma_ws_scan_bounds(s@, cur.off as int);
            lemma_lit_scan_bounds(s@, cw.off as int);
        }
        let lr = skip_literal(s, cw)?;
        if lr.1 {
            cur = lr.0;
            continue ;
        }
        match symbol(s, cw) {
            Err(_) => {
                if cw.off >= slen {
                    proof {
                        assert(acc + Seq::<FoundSpec>::empty() =~= acc);
                    }
                    return Ok(out);
                }
                cur = cw.advance(s, 1);
            },
            Ok((cs, id)) => {
                proof {
                    lemma_symbol_scan_bounds(s@, cw.off as int);
                }
                let class = is_kw_cpp_class(id.as_slice());
                if !(is_kw_cpp(id.as_slice()) || class) {
                    cur = cs;
                    continue ;
                }
                let cp = skip_whitespace(s, cs);
                proof {
                    lemma_ws_scan_bounds(s@, cs.off as int);
                }
                if !cp.at_char(s, '!') {
                    cur = cp;
                    continue ;
                }
                let cq = skip_whitespace(s, cp.advance(s, 1));
                proof {
                    lemma_ws_scan_bounds(s@, cp.off + 1);
                }
                if cq.off < slen && (s[cq.off] == '(' || s[cq.off] == '[' || s[cq.off] == '{') {
                    let closer: char = if s[cq.off] == '(' {
                        ')'
                    } else if s[cq.off] == '[' {
                        ']'
                    } else {
                        '}'
                    };
                    let mut needle: Vec<char> = Vec::new();
                    needle.push(closer);
                    proof {
                        assert(needle@ =~= seq![closer]);
                        lemma_fd_scan_hit_bounds(
                            s@,
                            seq![closer],
                            cq.off + 1,
                            Seq::<char>::empty(),
                        );
                    }
                    let cbegin = cq.advance(s, 1);
                    match find_delimited(s, cbegin, needle.as_slice()) {
                        Ok(cend) => {
                            let m = FoundMacro { is_class: class, begin: cbegin, end: cend.off };
                            out.push(m);
                            proof {
                                let f = FoundSpec {
                                    is_class: class,
                                    begin: cbegin.off as int,
                                    end: cend.off as int,
                                };
                                let acc2 = acc + seq![f];
                                assert(seq![f] + (match fcm_scan(s@, cend.off as int) {
                                    FcmRes::Done { found } => found,
                                    FcmRes::Failed { at: _ } => Seq::empty(),
                                }) =~= seq![f] + (match fcm_scan(s@, cend.off as int) {
                                    FcmRes::Done { found } => found,
                                    FcmRes::Failed { at: _ } => Seq::empty(),
                                }));
                                if fcm_scan(s@, cend.off as int) is Done {
                                    let found2 = fcm_scan(s@, cend.off as int)->Done_found;
                                    assert(acc + (seq![f] + found2) =~= acc2 + found2);
                                }
                                acc = acc2;
                            }
                            cur = cend;
                        },
                        Err(e) => {
                            return Err(e);
                        },
                    }
                } else {
                    cur = cq;
                }
            },
        }
    }
}

/// The text of a `#line` directive for the cursor `cur` in the file at
/// `path`: the 1-indexed line, the path with backslashes doubled, and one
/// space per column so that what follows keeps its column too.
pub open spec fn line_directive_spec(path: Seq<char>, cur: Cursor) -> Seq<char> {
    "#line "@ + dec_digits((cur.line + 1) as nat) + " \""@ + escape_bs(path) + "\"\n"@
        + repeat_char(' ', cur.column as nat)
}

/// Builds the `#line` directive prefix for a fragment beginning at `cur`.
pub fn line_directive(path: &str, cur: Cursor) -> (r: String)
    requires
        cur.line < usize::MAX,
    ensures
        r@ == line_directive_spec(path@, cur),
{
    let p = crate::cursor::text_of(path);
    let mut buf: Vec<char> = Vec::new();
    append_str(&mut buf, "#line ");
    append_dec(&mut buf, (cur.line + 1) as u64);
    append_str(&mut buf, " \"");
    append_escaped_bs(&mut buf, p.as_slice());
    append_str(&mut buf, "\"\n");
    append_repeat(&mut buf, ' ', cur.column);
    chars_to_string(&buf)
}

} // verus!
