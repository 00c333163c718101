use cpp::cursor::{new_cursor, text_of, Cursor};
use cpp::expand::{expand_sub_rust_macro, ExpandSubMacroType, LineError};
use cpp::locate::{find_cpp_macros, line_directive};
use cpp::cursor::slice_chars;

#[test]
fn test_expand_sub_rust_macro() {
    let mut t = ExpandSubMacroType::Lit;
    let x = expand_sub_rust_macro("{ rust!(xxx [] { 1 }); }", &mut t);
    assert_eq!(
        x.unwrap(),
        "extern \"C\" void xxx();\n{ reinterpret_cast<void (*)()>(xxx)(); }"
    );

    let mut t = ExpandSubMacroType::Lit;
    let x = expand_sub_rust_macro("{ hello( rust!(xxx [] { 1 }), rust!(yyy [] { 2 }); ) }", &mut t);
    assert_eq!(x.unwrap(), "extern \"C\" void xxx();\nextern \"C\" void yyy();\n{ hello( reinterpret_cast<void (*)()>(xxx)(), reinterpret_cast<void (*)()>(yyy)(); ) }");

    let s = "{ /* rust! */  /* rust!(xxx [] { 1 }) */ }".to_string();
    let mut t = ExpandSubMacroType::Lit;
    assert_eq!(expand_sub_rust_macro(&s, &mut t).unwrap(), s);
}

#[test]
fn expand_with_captures_and_return() {
    let mut t = ExpandSubMacroType::Lit;
    let x = expand_sub_rust_macro(
        "{ rust!(cb [a : i32 as \"int\", b : *mut u32 as \"void*\"] -> i64 as \"long long\" { a }) }",
        &mut t,
    );
    let expected = "extern \"C\" void cb();\n{ std::move(*reinterpret_cast<long long*(*)(rustcpp::argument_helper<int>::type, rustcpp::argument_helper<void*>::type, rustcpp::return_helper<long long>)>(cb)(a, b, 0)) }";
    assert_eq!(x.unwrap(), expected);
}

#[test]
fn expand_in_closure_mode_numbers_callbacks() {
    let mut t = ExpandSubMacroType::Closure { file_hash: 7, offset: 3 };
    let x = expand_sub_rust_macro("{ rust!(xxx [] { 1 }); rust!(yyy [] { 2 }); }", &mut t);
    assert_eq!(
        x.unwrap(),
        "{ reinterpret_cast<void (*)()>(rust_cpp_callbacks7[3])(); reinterpret_cast<void (*)()>(rust_cpp_callbacks7[4])(); }"
    );
    assert!(matches!(t, ExpandSubMacroType::Closure { file_hash: 7, offset: 5 }));
}

#[test]
fn expand_preserves_newline_count() {
    let input = "{\n rust!(xxx [\n] {\n 1\n })\n }";
    let mut t = ExpandSubMacroType::Lit;
    let out = expand_sub_rust_macro(input, &mut t).unwrap();
    let decl = "extern \"C\" void xxx();\n";
    assert!(out.starts_with(decl));
    let body = &out[decl.len()..];
    let nl_in = input.chars().filter(|c| *c == '\n').count();
    let nl_out = body.chars().filter(|c| *c == '\n').count();
    assert_eq!(nl_in, nl_out);
}

#[test]
fn expand_unescapes_quoted_types() {
    let mut t = ExpandSubMacroType::Lit;
    let x = expand_sub_rust_macro("{ rust!(q [a : i32 as \"in\\x74\"] { a }) }", &mut t);
    assert_eq!(
        x.unwrap(),
        "extern \"C\" void q();\n{ reinterpret_cast<void (*)(rustcpp::argument_helper<int>::type)>(q)(a) }"
    );
}

#[test]
fn expand_reports_lexing_errors() {
    let mut t = ExpandSubMacroType::Lit;
    let e = expand_sub_rust_macro("\n\n rust! ( \"unterminated ", &mut t).unwrap_err();
    let LineError(line, msg) = e;
    assert_eq!(msg, "Lexing error");
    assert_eq!(line, 2);
}

#[test]
fn expand_reports_malformed_invocations() {
    let mut t = ExpandSubMacroType::Lit;
    let e = expand_sub_rust_macro("\n rust!(missing brackets)", &mut t).unwrap_err();
    let LineError(line, msg) = e;
    assert_eq!(msg, "TokenStream parse error");
    assert_eq!(line, 1);
}

#[test]
fn finds_all_invocations() {
    let src = "{ aa( rust!(one [] { 1 }) ); \"rust!(no [] { 2 })\" rust!(two [x : i32 as \"int\"] -> i32 as \"int\" { x }) }";
    let s = text_of(src);
    let rs = cpp::expand::find_all_rust_macro(&s).unwrap();
    assert_eq!(rs.len(), 2);
    assert_eq!(rs[0].id, "one");
    assert_eq!(rs[0].arguments.len(), 0);
    assert_eq!(rs[0].return_type, None);
    let span: String = slice_chars(&s, rs[0].begin, rs[0].end).into_iter().collect();
    assert_eq!(span, "rust!(one [] { 1 })");
    assert_eq!(rs[1].id, "two");
    assert_eq!(rs[1].arguments.len(), 1);
    assert_eq!(rs[1].arguments[0].0, "x");
    assert_eq!(rs[1].arguments[0].1, "int");
    assert_eq!(rs[1].return_type.as_deref(), Some("int"));

    let s2 = text_of("rust!(bad) rust!(ok [] { 1 })");
    let rs2 = cpp::expand::find_all_rust_macro(&s2).unwrap();
    assert_eq!(rs2.len(), 1);
    assert_eq!(rs2[0].id, "ok");

    let s3 = text_of("rust! ( \"open ");
    assert!(cpp::expand::find_all_rust_macro(&s3).is_err());
}

#[test]
fn add_line_shifts_errors() {
    let e = LineError(3, "TokenStream parse error".to_string());
    let e2 = e.add_line(4);
    assert_eq!(e2.0, 7);
    assert_eq!(e2.1, "TokenStream parse error");
}

#[test]
fn locates_block_and_class_forms() {
    let src = "use x;\ncpp! {{ int f() { return 1; } }}\nmod y;\ncpp_class!(pub unsafe struct A as \"A\");\n";
    let s = text_of(src);
    let found = find_cpp_macros(&s).unwrap();
    assert_eq!(found.len(), 2);
    assert!(!found[0].is_class);
    let body: String = slice_chars(&s, found[0].begin.off, found[0].end).into_iter().collect();
    assert_eq!(body, "{ int f() { return 1; } }");
    assert_eq!(found[0].begin.line, 1);
    assert!(found[1].is_class);
    let class: String = slice_chars(&s, found[1].begin.off, found[1].end).into_iter().collect();
    assert_eq!(class, "pub unsafe struct A as \"A\"");
}

#[test]
fn triggers_inside_literals_and_comments_are_skipped() {
    let src = "let a = \"cpp! { nope }\"; /* cpp! { nope } */ b";
    let s = text_of(src);
    assert_eq!(find_cpp_macros(&s).unwrap().len(), 0);
}

#[test]
fn locator_reports_unbalanced_forms() {
    let src = "\ncpp! { ( }";
    let s = text_of(src);
    let e = find_cpp_macros(&s).unwrap_err();
    assert_eq!(e.line, 1);
}

#[test]
fn line_directive_format() {
    let cur = Cursor { off: 0, line: 4, column: 2 };
    let d = line_directive("dir\\f.rs", cur);
    assert_eq!(d, "#line 5 \"dir\\\\f.rs\"\n  ");
    let s = text_of("\n\nx");
    let cur = new_cursor(&s).advance(&s, 2);
    assert_eq!(line_directive("a.rs", cur), "#line 3 \"a.rs\"\n");
}
