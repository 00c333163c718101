//! Building of output text.
//!
//! Generated text is assembled as a vector of characters, with helpers for
//! appending literals, decimal numbers and padding, and is turned into a
//! `String` only at the edge.

use vstd::prelude::*;
use vstd::string::*;

verus! {

/// Relies on `String::push`: appends exactly one character.
#[verifier::external_body]
fn push_char(s: &mut String, c: char)
    ensures
        final(s)@ == old(s)@ + seq![c],
{
    s.push(c);
}

/// A string holding exactly the characters of `v`, in order.
pub fn chars_to_string(v: &Vec<char>) -> (r: String)
    ensures
        r@ == v@,
{
    let n = v.len();
    let mut r = String::new();
    let mut i: usize = 0;
    while i < n
        invariant
            0 <= i <= n,
            n == v@.len(),
            r@ == v@.take(i as int),
        decreases n - i,
    {
        push_char(&mut r, v[i]);
        proof {
            assert(r@ =~= v@.take(i as int + 1));
        }
        i = i + 1;
    }
    proof {
        assert(v@.take(n as int) =~= v@);
    }
    r
}

/// Appends the characters of `w` to `buf`.
pub fn append_chars(buf: &mut Vec<char>, w: &[char])
    ensures
        final(buf)@ == old(buf)@ + w@,
{
    buf.extend_from_slice(w);
    proof {
        assert(final(buf)@ =~= old(buf)@ + w@);
    }
}

/// Appends the characters of the string slice `t` to `buf`.
pub fn append_str(buf: &mut Vec<char>, t: &str)
    ensures
        final(buf)@ == old(buf)@ + t@,
{
    let n = t.unicode_len();
    let mut i: usize = 0;
    while i < n
        invariant
            n == t@.len(),
            0 <= i <= n,
            buf@ == old(buf)@ + t@.take(i as int),
        decreases n - i,
    {
        let c = t.get_char(i);
        buf.push(c);
        proof {
            assert(buf@ =~= old(buf)@ + t@.take(i as int + 1));
        }
        i = i + 1;
    }
    proof {
        assert(old(buf)@ + t@.take(n as int) =~= old(buf)@ + t@);
    }
}

/// `n` copies of `c`.
pub open spec fn repeat_char(c: char, n: nat) -> Seq<char>
    decreases n,
{
    if n == 0 {
        Seq::empty()
    } else {
        repeat_char(c, (n - 1) as nat) + seq![c]
    }
}

/// Appends `n` copies of `c` to `buf`.
pub fn append_repeat(buf: &mut Vec<char>, c: char, n: usize)
    ensures
        final(buf)@ == old(buf)@ + repeat_char(c, n as nat),
{
    let mut i: usize = 0;
    while i < n
        invariant
            0 <= i <= n,
            buf@ == old(buf)@ + repeat_char(c, i as nat),
        decreases n - i,
    {
        buf.push(c);
        i = i + 1;
    }
}

/// The character for the decimal digit `d`.
pub open spec fn digit_char(d: nat) -> char {
    if d == 0 {
        '0'
    } else if d == 1 {
        '1'
    } else if d == 2 {
        '2'
    } else if d == 3 {
        '3'
    } else if d == 4 {
        '4'
    } else if d == 5 {
        '5'
    } else if d == 6 {
        '6'
    } else if d == 7 {
        '7'
    } else if d == 8 {
        '8'
    } else {
        '9'
    }
}

/// The decimal digits of `n`, most significant first.
pub open spec fn dec_digits(n: nat) -> Seq<char>
    decreases n,
{
    if n < 10 {
        seq![digit_char(n)]
    } else {
        dec_digits(n / 10) + seq![digit_char(n % 10)]
    }
}

fn digit_char_of(d: u64) -> (r: char)
    requires
        d < 10,
    ensures
        r == digit_char(d as nat),
{
    if d == 0 {
        '0'
    } else if d == 1 {
        '1'
    } else if d == 2 {
        '2'
    } else if d == 3 {
        '3'
    } else if d == 4 {
        '4'
    } else if d == 5 {
        '5'
    } else if d == 6 {
        '6'
    } else if d == 7 {
        '7'
    } else if d == 8 {
        '8'
    } else {
        '9'
    }
}

/// The decimal digits of `n` as characters, most significant first.
pub fn u64_dec_chars(n: u64) -> (r: Vec<char>)
    ensures
        r@ == dec_digits(n as nat),
    decreases n,
{
    let d = digit_char_of(n % 10);
    if n < 10 {
        let mut v: Vec<char> = Vec::new();
        v.push(d);
        proof {
            assert(v@ =~= dec_digits(n as nat));
        }
        v
    } else {
        let mut v = u64_dec_chars(n / 10);
        v.push(d);
        proof {
            assert(v@ =~= dec_digits(n as nat));
        }
        v
    }
}

/// Appends the decimal digits of `n` to `buf`.
pub fn append_dec(buf: &mut Vec<char>, n: u64)
    ensures
        final(buf)@ == old(buf)@ + dec_digits(n as nat),
{
    let d = u64_dec_chars(n);
    append_chars(buf, d.as_slice());
}

/// `p` with every backslash doubled.
pub open spec fn escape_bs(p: Seq<char>) -> Seq<char>
    decreases p.len(),
{
    if p.len() == 0 {
        Seq::empty()
    } else {
        escape_bs(p.drop_last()) + (if p.last() == '\\' {
            seq!['\\', '\\']
        } else {
            seq![p.last()]
        })
    }
}

/// Appends `w` to `buf` with every backslash doubled.
pub fn append_escaped_bs(buf: &mut Vec<char>, w: &[char])
    ensures
        final(buf)@ == old(buf)@ + escape_bs(w@),
{
    let n = w.len();
    let mut i: usize = 0;
    while i < n
        invariant
            n == w@.len(),
            0 <= i <= n,
            buf@ == old(buf)@ + escape_bs(w@.take(i as int)),
        decreases n - i,
    {
        let c = w[i];
        if c == '\\' {
            buf.push('\\');
            buf.push('\\');
        } else {
            buf.push(c);
        }
        proof {
            assert(w@.take(i as int + 1).drop_last() =~= w@.take(i as int));
            assert(buf@ =~= old(buf)@ + escape_bs(w@.take(i as int + 1)));
        }
        i = i + 1;
    }
    proof {
        assert(w@.take(n as int) =~= w@);
    }
}

} // verus!
