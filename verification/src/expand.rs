//! Expansion of `rust!` escape-hatch invocations inside a fragment body.
//!
//! The body text is scanned — with literals and comments skipped — for the
//! `rust` keyword followed by `!`; each invocation found is parsed and
//! replaced in place by a generated extern-call expression, padded with as
//! many newlines as the replaced span held so that later line-directive
//! arithmetic stays correct. In literal mode each invocation also
//! contributes an `extern "C"` declaration, collected in front of the
//! result; in closure mode the call goes through a callback table indexed
//! by a running offset.

use vstd::prelude::*;
use vstd::string::*;
use crate::cursor::{Cursor, LexError, line_at, lemma_line_at_mono, new_cursor, text_of,
    slice_chars};
use crate::ws::{ws_pos, skip_whitespace, lemma_ws_scan_bounds};
use crate::ident::{symbol, symbol_scan, lemma_symbol_scan_bounds};
use crate::search::{skip_literal, lit_scan, LitScan, fd_scan, FdScan, find_delimited,
    lemma_lit_scan_bounds, lemma_fd_scan_hit_bounds};
use crate::rustinv::{RustInvocation, RustInvSpec, parse_invocation, parse_rust_invocation,
    inv_matches, kw_rust, is_kw_rust};
use crate::strbuild::{append_str, append_chars, append_dec, append_repeat, chars_to_string,
    dec_digits, repeat_char};

verus! {

/// A failure bound to a line of the text being expanded, with its message.
#[derive(Debug)]
pub struct LineError(pub usize, pub String);

impl LineError {
    /// Shifts the error by `a` lines, for reporting relative spans against
    /// their position in the enclosing file.
    pub fn add_line(self, a: usize) -> (r: LineError)
        requires
            self.0 + a <= usize::MAX,
        ensures
            r.0 == self.0 + a,
            r.1@ == self.1@,
    {
        LineError(self.0 + a, self.1)
    }
}

/// How `rust!` invocations are rewritten: as direct extern calls declared
/// alongside (a literal fragment), or as calls through the callback table
/// of the file identified by `file_hash`, starting at slot `offset`.
#[derive(Debug)]
pub enum ExpandSubMacroType {
    Lit,
    Closure { file_hash: u64, offset: u32 },
}

/// Outcome of the search for the next `rust` keyword followed by `!`.
pub enum RbRes {
    NotFound,
    Found { begin: int, bang: int },
    ScanFail { at: int },
}

/// Search from `i` for the identifier `rust` followed, after whitespace
/// and comments, by `!`; literals and comments on the way are skipped
/// whole, so trigger text inside them is never matched.
pub open spec fn rb_scan(s: Seq<char>, i: int) -> RbRes
    decreases s.len() - i,
    via rb_scan_dec
{
    if i < 0 || i >= s.len() {
        RbRes::NotFound
    } else {
        let j = ws_pos(s, i);
        match lit_scan(s, j) {
            LitScan::Bad { at } => RbRes::ScanFail { at },
            LitScan::Lit { end } => rb_scan(s, end),
            LitScan::NoLit => if j >= s.len() {
                RbRes::NotFound
            } else {
                match symbol_scan(s, j) {
                    None => rb_scan(s, j + 1),
                    Some((st, se)) => if s.subrange(st, se) == kw_rust() {
                        let p = ws_pos(s, se);
                        if p < s.len() && s[p] == '!' {
                            RbRes::Found { begin: j, bang: p }
                        } else {
                            rb_scan(s, p)
                        }
                    } else {
                        rb_scan(s, se)
                    },
                }
            },
        }
    }
}

#[via_fn]
proof fn rb_scan_dec(s: Seq<char>, i: int) {
    if 0 <= i < s.len() {
        lemma_ws_scan_bounds(s, i);
        let j = ws_pos(s, i);
        lemma_lit_scan_bounds(s, j);
        lemma_symbol_scan_bounds(s, j);
        if let Some((_st, se)) = symbol_scan(s, j) {
            if se <= s.len() {
                lemma_ws_scan_bounds(s, se);
            }
        }
    }
}

pub proof fn lemma_rb_scan_bounds(s: Seq<char>, i: int)
    requires
        0 <= i,
    ensures
        match rb_scan(s, i) {
            RbRes::Found { begin, bang } => i <= begin < bang < s.len() && s[bang] == '!',
            _ => true,
        },
    decreases s.len() - i,
{
    if 0 <= i < s.len() {
        lemma_ws_scan_bounds(s, i);
        let j = ws_pos(s, i);
        lemma_lit_scan_bounds(s, j);
        lemma_symbol_scan_bounds(s, j);
        match lit_scan(s, j) {
            LitScan::Bad { at: _ } => {},
            LitScan::Lit { end } => {
                lemma_rb_scan_bounds(s, end);
            },
            LitScan::NoLit => {
                if j < s.len() {
                    match symbol_scan(s, j) {
                        None => {
                            lemma_rb_scan_bounds(s, j + 1);
                        },
                        Some((st, se)) => {
                            lemma_ws_scan_bounds(s, se);
                            if s.subrange(st, se) == kw_rust() {
                                let p = ws_pos(s, se);
                                if !(p < s.len() && s[p] == '!') {
                                    lemma_rb_scan_bounds(s, p);
                                }
                            } else {
                                lemma_rb_scan_bounds(s, se);
                            }
                        },
                    }
                }
            },
        }
    }
}

/// Finds the next `rust !` occurrence at or after `i`: the keyword's
/// offset and a cursor at the `!` (whose line names the invocation in
/// diagnostics), or nothing, or a lexing failure.
fn find_rust_bang(s: &[char], i: usize) -> (r: Result<Option<(usize, Cursor)>, LexError>)
    ensures
        match r {
            Ok(Some((begin, bang))) => rb_scan(s@, i as int) == (RbRes::Found {
                begin: begin as int,
                bang: bang.off as int,
            }) && bang.wf(s@) && i <= begin < bang.off < s@.len(),
            Ok(None) => rb_scan(s@, i as int) == RbRes::NotFound,
            Err(e) => rb_scan(s@, i as int) matches RbRes::ScanFail { at } && e.line == line_at(
                s@,
                at,
            ),
        },
{
    let slen = s.len();
    if i > slen {
        return Ok(None);
    }
    let mut cur = new_cursor(s).advance(s, i);
    loop
        invariant
            cur.wf(s@),
            i <= cur.off,
            slen == s@.len(),
            rb_scan(s@, cur.off as int) == rb_scan(s@, i as int),
        decreases slen - cur.off,
    {
        proof {
            lemma_rb_scan_bounds(s@, cur.off as int);
        }
        if cur.off >= slen {
            return Ok(None);
        }
        let cw = skip_whitespace(s, cur);
        proof {
            lemma_ws_scan_bounds(s@, cur.off as int);
            lemma_lit_scan_bounds(s@, cw.off as int);
        }
        let lr = skip_literal(s, cw)?;
        if lr.1 {
            cur = lr.0;
            continue ;
        }
        if cw.off >= slen {
            return Ok(None);
        }
        match symbol(s, cw) {
            Err(_) => {
                cur = cw.advance(s, 1);
            },
            Ok((cs, id)) => {
                proof {
                    lemma_symbol_scan_bounds(s@, cw.off as int);
                }
                if is_kw_rust(id.as_slice()) {
                    let cp = skip_whitespace(s, cs);
                    proof {
                        lemma_ws_scan_bounds(s@, cs.off as int);
                    }
                    if cp.at_char(s, '!') {
                        return Ok(Some((cw.off, cp)));
                    }
                    cur = cp;
                } else {
                    cur = cs;
                }
            },
        }
    }
}

/// One located invocation in the scan's ghost model: its parsed shape and
/// the span it occupies.
pub struct FoundInv {
    pub inv: RustInvSpec,
    pub begin: int,
    pub end: int,
}

/// Result of collecting every invocation of a text: the records in order,
/// or the position of a lexing failure.
pub enum FarRes {
    Done { found: Seq<FoundInv> },
    Fail { at: int },
}

/// The collection scan: find each `rust !` occurrence, locate its
/// parenthesized span, and record the invocations that parse, skipping
/// those that do not; a lexing failure while searching is fatal.
#[verifier::opaque]
pub open spec fn far_scan(s: Seq<char>, i: int) -> FarRes
    decreases s.len() - i,
    via far_scan_dec
{
    match rb_scan(s, i) {
        RbRes::NotFound => FarRes::Done { found: Seq::empty() },
        RbRes::ScanFail { at } => FarRes::Fail { at },
        RbRes::Found { begin, bang } => match fd_scan(s, seq!['('], bang, Seq::<char>::empty()) {
            FdScan::Fail { at } => FarRes::Fail { at },
            FdScan::Hit { at: lp } => match fd_scan(s, seq![')'], lp + 1, Seq::<char>::empty()) {
                FdScan::Fail { at } => FarRes::Fail { at },
                FdScan::Hit { at: rp } => match parse_invocation(s, begin, lp, rp) {
                    Some(inv) => match far_scan(s, rp + 1) {
                        FarRes::Done { found } => FarRes::Done {
                            found: seq![FoundInv { inv, begin, end: rp + 1 }] + found,
                        },
                        FarRes::Fail { at } => FarRes::Fail { at },
                    },
                    None => far_scan(s, rp + 1),
                },
            },
        },
    }
}

#[via_fn]
proof fn far_scan_dec(s: Seq<char>, i: int) {
    if 0 <= i {
        lemma_rb_scan_bounds(s, i);
        if let RbRes::Found { begin: _, bang } = rb_scan(s, i) {
            lemma_fd_scan_hit_bounds(s, seq!['('], bang, Seq::<char>::empty());
            if let FdScan::Hit { at: lp } = fd_scan(s, seq!['('], bang, Seq::<char>::empty()) {
                lemma_fd_scan_hit_bounds(s, seq![')'], lp + 1, Seq::<char>::empty());
            }
        }
    } else {
        assert(rb_scan(s, i) == RbRes::NotFound);
    }
}

/// Joins already-collected invocations with the scan of the remaining text.
pub open spec fn far_prepend(acc: Seq<FoundInv>, r: FarRes) -> FarRes {
    match r {
        FarRes::Done { found } => FarRes::Done { found: acc + found },
        FarRes::Fail { at } => FarRes::Fail { at },
    }
}

/// The exec record `v` carries exactly the located invocation `f`.
pub open spec fn found_inv_matches(v: RustInvocation, f: FoundInv) -> bool {
    &&& inv_matches(v, f.inv)
    &&& v.begin == f.begin
    &&& v.end == f.end
}

/// One unfolding of the collection scan at a located `rust !` occurrence.
proof fn lemma_far_step(s: Seq<char>, i: int, begin: int, bang: int, lp: int, rp: int)
    requires
        rb_scan(s, i) == (RbRes::Found { begin, bang }),
        fd_scan(s, seq!['('], bang, Seq::<char>::empty()) == (FdScan::Hit { at: lp }),
        fd_scan(s, seq![')'], lp + 1, Seq::<char>::empty()) == (FdScan::Hit { at: rp }),
    ensures
        far_scan(s, i) == (match parse_invocation(s, begin, lp, rp) {
            Some(inv) => far_prepend(
                seq![FoundInv { inv, begin, end: rp + 1 }],
                far_scan(s, rp + 1),
            ),
            None => far_scan(s, rp + 1),
        }),
{
    reveal(far_scan);
}

/// One unfolding of the collection scan where no further occurrence or a
/// lexing failure ends it.
proof fn lemma_far_end(s: Seq<char>, i: int)
    ensures
        rb_scan(s, i) == RbRes::NotFound ==> far_scan(s, i) == (FarRes::Done {
            found: Seq::<FoundInv>::empty(),
        }),
        rb_scan(s, i) matches RbRes::ScanFail { at } ==> far_scan(s, i) == (FarRes::Fail { at }),
{
    reveal(far_scan);
}

/// Locates and parses the invocation whose `rust` keyword stands at
/// `begin` with its `!` at `bang`: the parsed record when its interior is
/// well formed, nothing when it is not, and in both cases the position
/// after its closing parenthesis.
#[verifier::rlimit(100)]
fn collect_step(s: &[char], i: Ghost<int>, begin: usize, bang: Cursor) -> (r: Result<
    (Option<RustInvocation>, usize, Ghost<Seq<FoundInv>>),
    LexError,
>)
    requires
        bang.wf(s@),
        rb_scan(s@, i@) == (RbRes::Found { begin: begin as int, bang: bang.off as int }),
        0 <= i@ <= begin,
        begin < bang.off < s@.len(),
    ensures
        match r {
            Ok((oinv, next, stepacc)) => {
                &&& i@ < next <= s@.len()
                &&& far_scan(s@, i@) == far_prepend(stepacc@, far_scan(s@, next as int))
                &&& match oinv {
                    Some(v) => stepacc@.len() == 1 && found_inv_matches(v, stepacc@[0]),
                    None => stepacc@ == Seq::<FoundInv>::empty(),
                }
            },
            Err(e) => far_scan(s@, i@) matches FarRes::Fail { at } && e.line == line_at(s@, at),
        },
{
    let slen = s.len();
    let mut paren: Vec<char> = Vec::new();
    paren.push('(');
    proof {
        assert(paren@ =~= seq!['(']);
        lemma_fd_scan_hit_bounds(s@, seq!['('], bang.off as int, Seq::<char>::empty());
        if fd_scan(s@, seq!['('], bang.off as int, Seq::<char>::empty()) is Fail {
            lemma_far_end(s@, i@);
            reveal(far_scan);
        }
    }
    let lpc = find_delimited(s, bang, paren.as_slice())?;
    let mut cparen: Vec<char> = Vec::new();
    cparen.push(')');
    proof {
        assert(cparen@ =~= seq![')']);
        lemma_fd_scan_hit_bounds(s@, seq![')'], lpc.off + 1, Seq::<char>::empty());
        if fd_scan(s@, seq![')'], lpc.off + 1, Seq::<char>::empty()) is Fail {
            reveal(far_scan);
        }
    }
    let rpc = find_delimited(s, lpc.advance(s, 1), cparen.as_slice())?;
    proof {
        lemma_far_step(s@, i@, begin as int, bang.off as int, lpc.off as int, rpc.off as int);
    }
    match parse_rust_invocation(s, begin, lpc.off, rpc.off) {
        Ok(inv) => {
            let ghost f = FoundInv {
                inv: parse_invocation(s@, begin as int, lpc.off as int, rpc.off as int)->0,
                begin: begin as int,
                end: rpc.off + 1,
            };
            let ghost sacc = seq![f];
            Ok((Some(inv), rpc.off + 1, Ghost(sacc)))
        },
        Err(_) => {
            let ghost sacc = Seq::<FoundInv>::empty();
            Ok((None, rpc.off + 1, Ghost(sacc)))
        },
    }
}

/// Collects every `rust!` invocation of a fragment body, in source order,
/// each with its span; an occurrence whose interior does not parse is
/// passed over. Fails only on a lexing error, with its line.
pub fn find_all_rust_macro(s: &[char]) -> (r: Result<Vec<RustInvocation>, LexError>)
    ensures
        match r {
            Ok(rs) => far_scan(s@, 0) matches FarRes::Done { found } && rs@.len() == found.len()
                && (forall|k: int|
                0 <= k < found.len() ==> found_inv_matches(#[trigger] rs@[k], found[k])),
            Err(e) => far_scan(s@, 0) matches FarRes::Fail { at } && e.line == line_at(s@, at),
        },
{
    let slen = s.len();
    let mut out: Vec<RustInvocation> = Vec::new();
    let ghost mut acc: Seq<FoundInv> = Seq::empty();
    let mut i: usize = 0;
    loop
        invariant
            i <= slen,
            slen == s@.len(),
            out@.len() == acc.len(),
            forall|k: int|
                0 <= k < acc.len() ==> found_inv_matches(#[trigger] out@[k], acc[k]),
            far_prepend(acc, far_scan(s@, i as int)) == far_scan(s@, 0),
        decreases slen - i,
    {
        let (begin, bang) = match find_rust_bang(s, i) {
            Ok(Some(x)) => x,
            Ok(None) => {
                proof {
                    lemma_far_end(s@, i as int);
                    assert(acc + Seq::<FoundInv>::empty() =~= acc);
                }
                return Ok(out);
            },
            Err(e) => {
                proof {
                    lemma_far_end(s@, i as int);
                }
                return Err(e);
            },
        };
        let (oinv, next, stepacc) = collect_step(s, Ghost(i as int), begin, bang)?;
        match oinv {
            Some(v) => {
                out.push(v);
            },
            None => {},
        }
        proof {
            if let FarRes::Done { found: rest } = far_scan(s@, next as int) {
                assert(acc + (stepacc@ + rest) =~= (acc + stepacc@) + rest);
            }
            acc = acc + stepacc@;
        }
        i = next;
    }
}

/// The generated argument-conversion type for a captured C++ type.
pub open spec fn arg_helper(t: Seq<char>) -> Seq<char> {
    "rustcpp::argument_helper<"@ + t + ">::type"@
}

/// The generated return-slot type for a C++ return type.
pub open spec fn ret_helper(t: Seq<char>) -> Seq<char> {
    "rustcpp::return_helper<"@ + t + ">"@
}

/// The pieces joined with a comma and a space.
pub open spec fn join_comma(xs: Seq<Seq<char>>) -> Seq<char>
    decreases xs.len(),
{
    if xs.len() == 0 {
        Seq::empty()
    } else if xs.len() == 1 {
        xs[0]
    } else {
        join_comma(xs.drop_last()) + ", "@ + xs.last()
    }
}

/// The call expression generated for one parsed invocation, calling
/// `fn_name`: a cast of the callback to the right function-pointer type
/// applied to the captured names, wrapped in `std::move` of the returned
/// slot when the invocation returns a value.
pub open spec fn call_text(inv: RustInvSpec, fn_name: Seq<char>) -> Seq<char> {
    let types = inv.args.map_values(|a: (Seq<char>, Seq<char>)| arg_helper(a.1));
    let names = inv.args.map_values(|a: (Seq<char>, Seq<char>)| a.0);
    match inv.ret {
        None => "reinterpret_cast<void (*)("@ + join_comma(types) + ")>("@ + fn_name + ")("@
            + join_comma(names) + ")"@,
        Some(rty) => "std::move(*reinterpret_cast<"@ + rty + "*(*)("@ + join_comma(
            types.push(ret_helper(rty)),
        ) + ")>("@ + fn_name + ")("@ + join_comma(names.push("0"@)) + "))"@,
    }
}

/// The extern declaration emitted, in literal mode, for the invocation's
/// callback identifier.
pub open spec fn extern_decl(id: Seq<char>) -> Seq<char> {
    "extern \"C\" void "@ + id + "();\n"@
}

/// The callback-table entry used as the call target in closure mode.
pub open spec fn cb_name(hash: u64, offset: nat) -> Seq<char> {
    "rust_cpp_callbacks"@ + dec_digits(hash as nat) + "["@ + dec_digits(offset) + "]"@
}

/// Outcome of the whole expansion: the rewritten text with the collected
/// extra declarations and the callback offset after the last invocation,
/// or a lexing or invocation-parse failure at a line, with the offset
/// reached when it was found.
pub enum ExpandRes {
    Done { text: Seq<char>, extra: Seq<char>, offset: nat },
    LexFail { at_line: nat, offset: nat },
    ParseFail { at_line: nat, offset: nat },
}

/// The expansion scan: find the next `rust !` at or after `search`, find
/// the parenthesized span after it, parse the invocation, and splice the
/// generated call — padded with the replaced span's newlines — in its
/// place, continuing after the splice. `lit_mode` selects literal mode;
/// `hash` and `offset` drive closure-mode naming.
#[verifier::opaque]
pub open spec fn expand_scan(
    s: Seq<char>,
    lit_mode: bool,
    hash: u64,
    offset: nat,
    search: int,
    extra: Seq<char>,
) -> ExpandRes
    decreases s.len() - search,
    via expand_scan_dec
{
    match rb_scan(s, search) {
        RbRes::NotFound => ExpandRes::Done { text: s, extra, offset },
        RbRes::ScanFail { at } => ExpandRes::LexFail { at_line: line_at(s, at), offset },
        RbRes::Found { begin, bang } => match fd_scan(s, seq!['('], bang, Seq::<char>::empty()) {
            FdScan::Fail { at } => ExpandRes::LexFail { at_line: line_at(s, at), offset },
            FdScan::Hit { at: lp } => match fd_scan(s, seq![')'], lp + 1, Seq::<char>::empty()) {
                FdScan::Fail { at } => ExpandRes::LexFail { at_line: line_at(s, at), offset },
                FdScan::Hit { at: rp } => match parse_invocation(s, begin, lp, rp) {
                    None => ExpandRes::ParseFail { at_line: line_at(s, bang), offset },
                    Some(inv) => {
                        let fname = if lit_mode {
                            inv.id
                        } else {
                            cb_name(hash, offset)
                        };
                        let extra2 = if lit_mode {
                            extra + extern_decl(inv.id)
                        } else {
                            extra
                        };
                        let offset2 = if lit_mode {
                            offset
                        } else {
                            offset + 1
                        };
                        let nl = (line_at(s, rp + 1) - line_at(s, begin)) as nat;
                        let call = call_text(inv, fname) + repeat_char('\n', nl);
                        let s2 = s.take(begin) + call + s.skip(rp + 1);
                        expand_scan(s2, lit_mode, hash, offset2, begin + call.len(), extra2)
                    },
                },
            },
        },
    }
}

#[via_fn]
proof fn expand_scan_dec(
    s: Seq<char>,
    lit_mode: bool,
    hash: u64,
    offset: nat,
    search: int,
    extra: Seq<char>,
) {
    if 0 <= search < s.len() {
        lemma_rb_scan_bounds(s, search);
        if let RbRes::Found { begin, bang } = rb_scan(s, search) {
            lemma_fd_scan_hit_bounds(s, seq!['('], bang, Seq::<char>::empty());
            if let FdScan::Hit { at: lp } = fd_scan(s, seq!['('], bang, Seq::<char>::empty()) {
                lemma_fd_scan_hit_bounds(s, seq![')'], lp + 1, Seq::<char>::empty());
            }
        }
    }
}

/// Counts the newlines among `s[a..b]`.
fn count_nl_between(s: &[char], a: usize, b: usize) -> (cnt: usize)
    requires
        a <= b <= s@.len(),
    ensures
        cnt as nat == line_at(s@, b as int) - line_at(s@, a as int),
        cnt <= b - a,
{
    proof {
        lemma_line_at_mono(s@, a as int, b as int);
    }
    let mut cnt: usize = 0;
    let mut j = a;
    while j < b
        invariant
            a <= j <= b <= s@.len(),
            cnt as nat == line_at(s@, j as int) - line_at(s@, a as int),
            cnt <= j - a,
            line_at(s@, a as int) <= line_at(s@, j as int),
        decreases b - j,
    {
        proof {
            lemma_line_at_mono(s@, a as int, j as int + 1);
        }
        if s[j] == '\n' {
            cnt = cnt + 1;
        }
        j = j + 1;
    }
    cnt
}

/// Builds the generated call expression for `inv`, calling `fname`.
fn build_call(inv: &RustInvocation, fname: &[char], Ghost(ispec): Ghost<RustInvSpec>) -> (v: Vec<
    char,
>)
    requires
        inv_matches(*inv, ispec),
    ensures
        v@ == call_text(ispec, fname@),
{
    let ghost types = ispec.args.map_values(|a: (Seq<char>, Seq<char>)| arg_helper(a.1));
    let ghost names = ispec.args.map_values(|a: (Seq<char>, Seq<char>)| a.0);
    let n = inv.arguments.len();
    let mut jt: Vec<char> = Vec::new();
    let mut jn: Vec<char> = Vec::new();
    let mut k: usize = 0;
    while k < n
        invariant
            n == inv.arguments@.len(),
            inv_matches(*inv, ispec),
            types == ispec.args.map_values(|a: (Seq<char>, Seq<char>)| arg_helper(a.1)),
            names == ispec.args.map_values(|a: (Seq<char>, Seq<char>)| a.0),
            0 <= k <= n,
            jt@ == join_comma(types.take(k as int)),
            jn@ == join_comma(names.take(k as int)),
        decreases n - k,
    {
        if k > 0 {
            append_str(&mut jt, ", ");
            append_str(&mut jn, ", ");
        }
        append_str(&mut jt, "rustcpp::argument_helper<");
        let pair = &inv.arguments[k];
        append_str(&mut jt, pair.1.as_str());
        append_str(&mut jt, ">::type");
        append_str(&mut jn, pair.0.as_str());
        proof {
            assert(types.take(k as int + 1).drop_last() =~= types.take(k as int));
            assert(names.take(k as int + 1).drop_last() =~= names.take(k as int));
            assert(types[k as int] == arg_helper(ispec.args[k as int].1));
            assert(names[k as int] == ispec.args[k as int].0);
            if k == 0 {
                assert(jt@ =~= join_comma(types.take(k as int + 1)));
                assert(jn@ =~= join_comma(names.take(k as int + 1)));
            } else {
                assert(jt@ =~= join_comma(types.take(k as int + 1)));
                assert(jn@ =~= join_comma(names.take(k as int + 1)));
            }
        }
        k = k + 1;
    }
    proof {
        assert(types.take(n as int) =~= types);
        assert(names.take(n as int) =~= names);
    }
    let mut v: Vec<char> = Vec::new();
    match &inv.return_type {
        None => {
            append_str(&mut v, "reinterpret_cast<void (*)(");
            append_chars(&mut v, jt.as_slice());
            append_str(&mut v, ")>(");
            append_chars(&mut v, fname);
            append_str(&mut v, ")(");
            append_chars(&mut v, jn.as_slice());
            append_str(&mut v, ")");
            proof {
                assert(v@ =~= call_text(ispec, fname@));
            }
        },
        Some(rty) => {
            append_str(&mut v, "std::move(*reinterpret_cast<");
            append_str(&mut v, rty.as_str());
            append_str(&mut v, "*(*)(");
            append_chars(&mut v, jt.as_slice());
            if n > 0 {
                append_str(&mut v, ", ");
            }
            append_str(&mut v, "rustcpp::return_helper<");
            append_str(&mut v, rty.as_str());
            append_str(&mut v, ">");
            append_str(&mut v, ")>(");
            append_chars(&mut v, fname);
            append_str(&mut v, ")(");
            append_chars(&mut v, jn.as_slice());
            if n > 0 {
                append_str(&mut v, ", ");
            }
            append_str(&mut v, "0");
            append_str(&mut v, "))");
            proof {
                let rt = ispec.ret->0;
                assert(types.push(ret_helper(rt)).drop_last() =~= types);
                assert(names.push("0"@).drop_last() =~= names);
                if n == 0 {
                    assert(join_comma(types.push(ret_helper(rt))) =~= ret_helper(rt));
                    assert(join_comma(names.push("0"@)) =~= "0"@);
                }
                assert(v@ =~= call_text(ispec, fname@));
            }
        },
    }
    v
}

/// Rewrites every `rust!` invocation in `input` into a generated call
/// expression, preserving the newline count of each replaced span. In
/// literal mode the matching `extern "C"` declarations are prepended to
/// the result; in closure mode the callback offset in `t` is advanced once
/// per invocation. Fails with the offending line on a lexing error or a
/// malformed invocation.
#[verifier::rlimit(100)]
pub fn expand_sub_rust_macro(input: &str, t: &mut ExpandSubMacroType) -> (r: Result<
    String,
    LineError,
>)
    requires
        match *old(t) {
            ExpandSubMacroType::Lit => true,
            ExpandSubMacroType::Closure { file_hash: _, offset } => offset + input@.len()
                <= u32::MAX,
        },
    ensures
        ({
            let lm = (*old(t)) is Lit;
            let h = match *old(t) {
                ExpandSubMacroType::Lit => 0u64,
                ExpandSubMacroType::Closure { file_hash, offset: _ } => file_hash,
            };
            let o0 = match *old(t) {
                ExpandSubMacroType::Lit => 0nat,
                ExpandSubMacroType::Closure { file_hash: _, offset } => offset as nat,
            };
            let res = expand_scan(input@, lm, h, o0, 0, Seq::<char>::empty());
            match r {
                Ok(out) => {
                    &&& res matches ExpandRes::Done { text, extra, offset: o2 } && out@ == extra
                        + text && (*final(t) == (if lm {
                        ExpandSubMacroType::Lit
                    } else {
                        ExpandSubMacroType::Closure { file_hash: h, offset: o2 as u32 }
                    })) && o2 <= u32::MAX
                },
                Err(e) => match res {
                    ExpandRes::Done { .. } => false,
                    ExpandRes::LexFail { at_line, offset: o2 } => e.0 == at_line && e.1@
                        == "Lexing error"@ && (*final(t) == (if lm {
                        ExpandSubMacroType::Lit
                    } else {
                        ExpandSubMacroType::Closure { file_hash: h, offset: o2 as u32 }
                    })) && o2 <= u32::MAX,
                    ExpandRes::ParseFail { at_line, offset: o2 } => e.0 == at_line && e.1@
                        == "TokenStream parse error"@ && (*final(t) == (if lm {
                        ExpandSubMacroType::Lit
                    } else {
                        ExpandSubMacroType::Closure { file_hash: h, offset: o2 as u32 }
                    })) && o2 <= u32::MAX,
                },
            }
        }),
{
    let lit_mode = match t {
        ExpandSubMacroType::Lit => true,
        ExpandSubMacroType::Closure { .. } => false,
    };
    let hash: u64 = match t {
        ExpandSubMacroType::Lit => 0,
        ExpandSubMacroType::Closure { file_hash, .. } => *file_hash,
    };
    let mut offset: u32 = match t {
        ExpandSubMacroType::Lit => 0,
        ExpandSubMacroType::Closure { offset, .. } => *offset,
    };
    let ghost o0 = offset as nat;
    let ghost len0 = input@.len();
    let mut buf = text_of(input);
    let mut extra: Vec<char> = Vec::new();
    let mut search: usize = 0;
    loop
        invariant
            search <= buf@.len(),
            o0 <= offset as nat,
            (offset as nat - o0) + (buf@.len() - search) <= len0,
            len0 == input@.len(),
            lit_mode ==> offset as nat == o0,
            !lit_mode ==> o0 + len0 <= u32::MAX,
            lit_mode == ((*old(t)) is Lit),
            hash == (match *old(t) {
                ExpandSubMacroType::Lit => 0u64,
                ExpandSubMacroType::Closure { file_hash, offset: _ } => file_hash,
            }),
            o0 == (match *old(t) {
                ExpandSubMacroType::Lit => 0nat,
                ExpandSubMacroType::Closure { file_hash: _, offset } => offset as nat,
            }),
            expand_scan(buf@, lit_mode, hash, offset as nat, search as int, extra@) == expand_scan(
                input@,
                lit_mode,
                hash,
                o0,
                0,
                Seq::<char>::empty(),
            ),
        decreases buf@.len() - search,
    {
        let (begin, bang) = match find_rust_bang(buf.as_slice(), search) {
            Ok(Some(x)) => x,
            Ok(None) => {
                proof {
                    reveal(expand_scan);
                }
                let mut out = extra;
                append_chars(&mut out, buf.as_slice());
                *t = if lit_mode {
                    ExpandSubMacroType::Lit
                } else {
                    ExpandSubMacroType::Closure { file_hash: hash, offset }
                };
                return Ok(chars_to_string(&out));
            },
            Err(e) => {
                proof {
                    reveal(expand_scan);
                }
                *t = if lit_mode {
                    ExpandSubMacroType::Lit
                } else {
                    ExpandSubMacroType::Closure { file_hash: hash, offset }
                };
                return Err(LineError(e.line, String::from_str("Lexing error")));
            },
        };
        match expand_step(&buf, Ghost(search as int), begin, bang, lit_mode, hash, offset, &mut extra) {
            Ok((nbuf, nsearch, noffset)) => {
                buf = nbuf;
                search = nsearch;
                offset = noffset;
            },
            Err(e) => {
                *t = if lit_mode {
                    ExpandSubMacroType::Lit
                } else {
                    ExpandSubMacroType::Closure { file_hash: hash, offset }
                };
                return Err(e);
            },
        }
    }
}

/// Performs one expansion: the invocation whose `rust` keyword stands at
/// `begin` with its `!` at `bang` is located to its closing parenthesis,
/// parsed, and replaced by the generated call; the returned text, resume
/// position and callback offset continue the scan.
#[verifier::rlimit(100)]
fn expand_step(
    buf: &Vec<char>,
    search: Ghost<int>,
    begin: usize,
    bang: Cursor,
    lit_mode: bool,
    hash: u64,
    offset: u32,
    extra: &mut Vec<char>,
) -> (r: Result<(Vec<char>, usize, u32), LineError>)
    requires
        bang.wf(buf@),
        rb_scan(buf@, search@) == (RbRes::Found { begin: begin as int, bang: bang.off as int }),
        0 <= search@ <= begin,
        begin < bang.off < buf@.len(),
        !lit_mode ==> offset < u32::MAX,
    ensures
        ({
            let pre = expand_scan(buf@, lit_mode, hash, offset as nat, search@, old(extra)@);
            match r {
                Ok((nbuf, nsearch, noffset)) => {
                    &&& pre == expand_scan(
                        nbuf@,
                        lit_mode,
                        hash,
                        noffset as nat,
                        nsearch as int,
                        final(extra)@,
                    )
                    &&& nsearch <= nbuf@.len()
                    &&& nbuf@.len() - nsearch + 2 <= buf@.len() - search@
                    &&& (if lit_mode {
                        noffset == offset
                    } else {
                        noffset == offset + 1
                    })
                },
                Err(e) => match pre {
                    ExpandRes::Done { .. } => false,
                    ExpandRes::LexFail { at_line, offset: o2 } => e.0 == at_line && e.1@
                        == "Lexing error"@ && o2 == offset as nat && final(extra)@ == old(extra)@,
                    ExpandRes::ParseFail { at_line, offset: o2 } => e.0 == at_line && e.1@
                        == "TokenStream parse error"@ && o2 == offset as nat && final(extra)@
                        == old(extra)@,
                },
            }
        }),
{
    proof {
        reveal(expand_scan);
    }
    let mut paren: Vec<char> = Vec::new();
    paren.push('(');
        proof {
            assert(paren@ =~= seq!['(']);
            lemma_fd_scan_hit_bounds(buf@, seq!['('], bang.off as int, Seq::<char>::empty());
        }
        let lpc = match find_delimited(buf.as_slice(), bang, paren.as_slice()) {
            Ok(x) => x,
            Err(e) => {
                return Err(LineError(e.line, String::from_str("Lexing error")));
            },
        };
        let mut cparen: Vec<char> = Vec::new();
        cparen.push(')');
        proof {
            assert(cparen@ =~= seq![')']);
            lemma_fd_scan_hit_bounds(buf@, seq![')'], lpc.off + 1, Seq::<char>::empty());
        }
        let rpc = match find_delimited(buf.as_slice(), lpc.advance(buf.as_slice(), 1), cparen.as_slice()) {
            Ok(x) => x,
            Err(e) => {
                return Err(LineError(e.line, String::from_str("Lexing error")));
            },
        };
        let lp = lpc.off;
        let rp = rpc.off;
        let inv = match parse_rust_invocation(buf.as_slice(), begin, lp, rp) {
            Ok(x) => x,
            Err(_) => {
                return Err(LineError(bang.line, String::from_str("TokenStream parse error")));
            },
        };
        let ghost ispec = parse_invocation(buf@, begin as int, lp as int, rp as int)->0;
        let ghost extra0 = extra@;
        let fname: Vec<char> = if lit_mode {
            append_str(extra, "extern \"C\" void ");
            append_str(extra, inv.id.as_str());
            append_str(extra, "();\n");
            proof {
                assert(extra@ =~= extra0 + extern_decl(ispec.id));
            }
            text_of(inv.id.as_str())
        } else {
            let mut f: Vec<char> = Vec::new();
            append_str(&mut f, "rust_cpp_callbacks");
            append_dec(&mut f, hash);
            append_str(&mut f, "[");
            append_dec(&mut f, offset as u64);
            append_str(&mut f, "]");
            proof {
                assert(f@ =~= cb_name(hash, offset as nat));
            }
            f
        };
        let nl = count_nl_between(buf.as_slice(), begin, rp + 1);
        let mut call = build_call(&inv, fname.as_slice(), Ghost(ispec));
        append_repeat(&mut call, '\n', nl);
        let mut nbuf = slice_chars(buf.as_slice(), 0, begin);
        append_chars(&mut nbuf, call.as_slice());
        let rest = slice_chars(buf.as_slice(), rp + 1, buf.len());
        append_chars(&mut nbuf, rest.as_slice());
        proof {
            assert(buf@.subrange(0, begin as int) =~= buf@.take(begin as int));
            assert(buf@.subrange(rp + 1, buf@.len() as int) =~= buf@.skip(rp + 1));
            let ghost call_padded = call_text(ispec, fname@) + repeat_char('\n', nl as nat);
            assert(call@ == call_padded);
            assert(nbuf@ =~= buf@.take(begin as int) + call_padded + buf@.skip(rp + 1));
        }
        let noffset: u32 = if lit_mode {
            offset
        } else {
            offset + 1
        };
        let nsearch = nbuf.len() - rest.len();
        proof {
            assert(nsearch == begin + call@.len());
        }
        Ok((nbuf, nsearch, noffset))
}


} // verus!
