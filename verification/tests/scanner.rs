use cpp::cursor::{new_cursor, text_of, Cursor, LexError};
use cpp::ident::symbol;
use cpp::lit::backslash_u;
use cpp::search::{find_delimited, skip_literal};
use cpp::ws::{block_comment, is_whitespace, skip_whitespace, whitespace};

fn chars(s: &str) -> Vec<char> {
    text_of(s)
}

fn starts(c: &Cursor, s: &Vec<char>, needle: &str) -> bool {
    c.starts_with(s, &chars(needle))
}

#[test]
fn test_skip_literal() -> Result<(), LexError> {
    let s = chars(r#""fofofo"ok xx"#);
    assert!(starts(&skip_literal(&s, new_cursor(&s))?.0, &s, "ok"));
    let s = chars(r#""kk\"kdk"ok xx"#);
    assert!(starts(&skip_literal(&s, new_cursor(&s))?.0, &s, "ok"));
    let s = chars("r###\"foo \" bar \\\" \"###ok xx");
    assert!(starts(&skip_literal(&s, new_cursor(&s))?.0, &s, "ok"));
    let s = chars("br###\"foo 'jjk' \" bar \\\" \"###ok xx");
    assert!(starts(&skip_literal(&s, new_cursor(&s))?.0, &s, "ok"));
    let s = chars("'4'ok xx");
    assert!(starts(&skip_literal(&s, new_cursor(&s))?.0, &s, "ok"));
    let s = chars("'\''ok xx");
    assert!(starts(&skip_literal(&s, new_cursor(&s))?.0, &s, "ok"));
    let s = chars("b'\''ok xx");
    assert!(starts(&skip_literal(&s, new_cursor(&s))?.0, &s, "ok"));
    let s = chars("'abc ok xx");
    assert!(starts(&skip_literal(&s, new_cursor(&s))?.0, &s, " ok"));
    let s = chars("'a ok xx");
    assert!(starts(&skip_literal(&s, new_cursor(&s))?.0, &s, " ok"));

    let s = chars("ok xx");
    assert!(starts(&skip_whitespace(&s, new_cursor(&s)), &s, "ok"));
    let s = chars("   ok xx");
    assert!(starts(&skip_whitespace(&s, new_cursor(&s)), &s, "ok"));
    let s = chars(" \n /*  /*dd \n // */ */ // foo \n    ok xx/* */");
    assert!(starts(&skip_whitespace(&s, new_cursor(&s)), &s, "ok"));

    Ok(())
}

#[test]
fn test_find_delimited() -> Result<(), LexError> {
    let s = chars(" x f ok");
    assert!(starts(&find_delimited(&s, new_cursor(&s), &chars("f"))?, &s, "f ok"));
    let s = chars(" {f} f ok");
    assert!(starts(&find_delimited(&s, new_cursor(&s), &chars("f"))?, &s, "f ok"));
    let s = chars(" (f\")\" { ( ) } /* ) */ f ) f ok");
    assert!(starts(&find_delimited(&s, new_cursor(&s), &chars("f"))?, &s, "f ok"));
    Ok(())
}

#[test]
fn test_cursor_advance() -> Result<(), LexError> {
    let s = chars("\n\n\n");
    assert_eq!(new_cursor(&s).advance(&s, 2).line, 2);
    let s = chars("\n \n\n");
    assert_eq!(new_cursor(&s).advance(&s, 2).line, 1);
    let s = chars("\n\n\n");
    assert_eq!(new_cursor(&s).advance(&s, 2).column, 0);
    let s = chars("\n \n\n");
    assert_eq!(new_cursor(&s).advance(&s, 2).column, 1);

    let s = chars("\n/*\n  \n */ ( \n ) /* */ f");
    assert_eq!(find_delimited(&s, new_cursor(&s), &chars("f"))?.line, 4);
    let s = chars("\n/*\n  \n */ ( \n ) /* */ f");
    assert_eq!(find_delimited(&s, new_cursor(&s), &chars("f"))?.column, 9);
    Ok(())
}

#[test]
fn cursor_accessors() {
    let s = chars("ab\ncd");
    let c = new_cursor(&s);
    assert!(!c.is_empty(&s));
    assert_eq!(c.len(&s), 5);
    assert_eq!(c.find(&s, '\n'), Some(2));
    assert_eq!(c.find(&s, 'z'), None);
    assert!(c.at_char(&s, 'a'));
    let c2 = c.advance(&s, 3);
    assert_eq!(c2.off, 3);
    assert_eq!(c2.line, 1);
    assert_eq!(c2.column, 0);
    assert_eq!(c2.chars(&s), chars("cd"));
    let pairs = c2.char_indices(&s);
    assert_eq!(pairs, vec![(0usize, 'c'), (1usize, 'd')]);
    let c3 = c2.advance(&s, 2);
    assert!(c3.is_empty(&s));
}

#[test]
fn remaining_bytes_are_utf8() {
    let s = chars("a\u{e9}b");
    let c = new_cursor(&s).advance(&s, 1);
    assert_eq!(c.as_bytes(&s), vec![0xc3u8, 0xa9, 0x62]);
    assert_eq!(c.bytes(&s), vec![0xc3u8, 0xa9, 0x62]);
}

#[test]
fn consumed_and_remaining_reassemble() {
    // Scanning drops or invents no characters: the consumed prefix plus the
    // remaining suffix is the original text, after any primitive step.
    let s = chars("\"li\nt\" next");
    let (c, took) = skip_literal(&s, new_cursor(&s)).unwrap();
    assert!(took);
    let mut whole: Vec<char> = s[..c.off].to_vec();
    whole.extend(c.chars(&s));
    assert_eq!(whole, s);
}

#[test]
fn skip_whitespace_is_idempotent() {
    let s = chars("  /* c */ // line\n\t x");
    let once = skip_whitespace(&s, new_cursor(&s));
    let twice = skip_whitespace(&s, once);
    assert_eq!(once.off, twice.off);
    assert!(starts(&once, &s, "x"));
    // An unterminated block comment leaves the cursor where it was, twice.
    let s = chars("/* open");
    let once = skip_whitespace(&s, new_cursor(&s));
    assert_eq!(once.off, 0);
    assert_eq!(skip_whitespace(&s, once).off, 0);
}

#[test]
fn line_counting_over_leading_newlines() {
    let s = chars("\n\n\n\n\nabc");
    let c = new_cursor(&s).advance(&s, 5);
    assert_eq!(c.line, 5);
    assert_eq!(c.column, 0);
    let c2 = new_cursor(&s).advance(&s, 8);
    assert_eq!(c2.line, 5);
    assert_eq!(c2.column, 3);
}

#[test]
fn nested_comment_lands_exactly() {
    let s = chars("/* /* */ */ f");
    let c = skip_whitespace(&s, new_cursor(&s));
    assert!(starts(&c, &s, "f"));
    assert_eq!(c.off, 12);
}

#[test]
fn empty_block_comment_unit() {
    let s = chars("/**/x");
    let c = skip_whitespace(&s, new_cursor(&s));
    assert_eq!(c.off, 4);
    let s = chars("/**/");
    let (c, n) = block_comment(&s, new_cursor(&s)).unwrap();
    assert_eq!((c.off, n), (4, 4));
}

#[test]
fn whitespace_requires_progress() {
    let s = chars("x");
    assert!(whitespace(&s, new_cursor(&s)).is_err());
    let s = chars("");
    let e = whitespace(&s, new_cursor(&s)).unwrap_err();
    assert_eq!(e.line, 0);
}

#[test]
fn unterminated_literals_fail_at_start_line() {
    let s = chars("\"abc");
    let e = skip_literal(&s, new_cursor(&s)).unwrap_err();
    assert_eq!(e.line, 0);
    let s = chars("\n\n\"abc");
    let c = new_cursor(&s).advance(&s, 2);
    let e = skip_literal(&s, c).unwrap_err();
    assert_eq!(e.line, 2);
    let s = chars("b\"ab\u{e9}\"x");
    assert!(skip_literal(&s, new_cursor(&s)).is_err());
    let s = chars("b'\u{e9}'x");
    assert!(skip_literal(&s, new_cursor(&s)).is_err());
    let s = chars("r##\"abc\"#x");
    assert!(skip_literal(&s, new_cursor(&s)).is_err());
}

#[test]
fn non_literal_leaves_cursor_unchanged() {
    let s = chars("ident \"s\"");
    let (c, took) = skip_literal(&s, new_cursor(&s)).unwrap();
    assert!(!took);
    assert_eq!(c.off, 0);
}

#[test]
fn unicode_escape_takes_one_to_six_digits() {
    let s = chars("\"\\u{1F600}\"ok");
    let (c, took) = skip_literal(&s, new_cursor(&s)).unwrap();
    assert!(took && starts(&c, &s, "ok"));
    let s = chars("\"\\u{1234567}\"ok");
    assert!(skip_literal(&s, new_cursor(&s)).is_err());
    let s = chars("\"\\u{}\"ok");
    assert!(skip_literal(&s, new_cursor(&s)).is_err());
    let s = chars("{_a}x");
    assert_eq!(backslash_u(&s, 0), None);
    let s = chars("{a_b}x");
    assert_eq!(backslash_u(&s, 0), Some(5));
    let s = chars("{ab}x");
    assert_eq!(backslash_u(&s, 0), Some(4));
}

#[test]
fn string_escapes_and_continuation() {
    let s = chars("\"a\\x41\\n\\\\\"ok");
    assert!(starts(&skip_literal(&s, new_cursor(&s)).unwrap().0, &s, "ok"));
    let s = chars("\"ab\\\n   cd\"ok");
    assert!(starts(&skip_literal(&s, new_cursor(&s)).unwrap().0, &s, "ok"));
    let s = chars("\"\\q\"");
    assert!(skip_literal(&s, new_cursor(&s)).is_err());
}

#[test]
fn symbols_and_raw_identifiers() {
    let s = chars("foo_1 rest");
    let (c, id) = symbol(&s, new_cursor(&s)).unwrap();
    assert_eq!(id, chars("foo_1"));
    assert!(starts(&c, &s, " rest"));
    let s = chars("r#match rest");
    let (_, id) = symbol(&s, new_cursor(&s)).unwrap();
    assert_eq!(id, chars("match"));
    let s = chars("r#_ rest");
    assert!(symbol(&s, new_cursor(&s)).is_err());
    let s = chars("1abc");
    assert!(symbol(&s, new_cursor(&s)).is_err());
    // Identifier characters past ASCII go through the Unicode tables.
    let s = chars("\u{3b1}\u{3b2} x");
    let (c, id) = symbol(&s, new_cursor(&s)).unwrap();
    assert_eq!(id, chars("\u{3b1}\u{3b2}"));
    assert!(starts(&c, &s, " x"));
}

#[test]
fn marks_count_as_whitespace() {
    assert!(is_whitespace(' '));
    assert!(is_whitespace('\u{200e}'));
    assert!(is_whitespace('\u{200f}'));
    assert!(!is_whitespace('x'));
    let s = chars("\u{200e}\u{200f} ok");
    assert!(starts(&skip_whitespace(&s, new_cursor(&s)), &s, "ok"));
}

#[test]
fn find_delimited_rejects_unbalanced() {
    let s = chars(" ) f");
    assert!(find_delimited(&s, new_cursor(&s), &chars("f")).is_err());
    let s = chars(" ( f");
    let e = find_delimited(&s, new_cursor(&s), &chars("f")).unwrap_err();
    assert_eq!(e.line, 0);
    let s = chars(" ( ] f");
    assert!(find_delimited(&s, new_cursor(&s), &chars("f")).is_err());
    let s = chars("x y");
    assert!(find_delimited(&s, new_cursor(&s), &chars("f")).is_err());
}

#[test]
fn find_delimited_ignores_literal_content() {
    let s = chars("\"f)\" 'f' f rest");
    let c = find_delimited(&s, new_cursor(&s), &chars("f")).unwrap();
    assert!(starts(&c, &s, "f rest"));
    assert_eq!(c.off, 9);
}
