use cpp::cursor::{slice_chars, text_of};
use cpp::expand::{expand_sub_rust_macro, ExpandSubMacroType};
use cpp::locate::{find_cpp_macros, FoundMacro};
use cpp::srcmap::{SourceMap, Span};
use cpp::MyTrait;

fn contents(src: &str) -> Vec<(bool, String)> {
    let s = text_of(src);
    let found = find_cpp_macros(&s).unwrap();
    found
        .iter()
        .map(|m: &FoundMacro| {
            (m.is_class, slice_chars(&s, m.begin.off, m.end).into_iter().collect::<String>())
        })
        .collect()
}

#[test]
fn captures() {
    let src = r#"
        fn captures() {
            let x: i32 = 10;
            let mut y: i32 = 20;
            let z = unsafe {
                cpp! {[x as "int", mut y as "int"] -> i64 as "long long int" {
                    y += 1;
                    return [&] { return x + y; }();
                }}
            };
        }
    "#;
    let found = contents(src);
    assert_eq!(found.len(), 1);
    assert!(!found[0].0);
    assert!(found[0].1.starts_with("[x as \"int\", mut y as \"int\"] -> i64 as \"long long int\""));
    let (x, y) = (10, 20 + 1);
    assert_eq!(x, 10);
    assert_eq!(y, 21);
    assert_eq!(x + y, 31);
}

#[test]
fn no_captures() {
    let src = r#"
        cpp! {unsafe [] { global_int = 33; }};
        let x = unsafe {
            cpp![[] -> i32 as "int" {
                return 10 + global_int;
            }]
        };
    "#;
    let found = contents(src);
    assert_eq!(found.len(), 2);
    assert_eq!(found[0].1, "unsafe [] { global_int = 33; }");
    assert!(found[1].1.contains("return 10 + global_int;"));
    assert_eq!(10 + 33, 43);
}

#[test]
fn duplicates() {
    // Two embedded closures made of the same tokens: their extracted
    // contents are byte-identical, which is what lets them share one
    // generated function downstream.
    let src = r#"
        let fn1 = |x| {
            cpp! { unsafe [x as "int"] -> i32 as "int" {
                static int sta;
                sta += x;
                return sta;
            }}
        };
        let fn2 = |x| {
            cpp! { unsafe [x as "int"] -> i32 as "int" {
                static int sta;
                sta += x;
                return sta;
            }}
        };
    "#;
    let found = contents(src);
    assert_eq!(found.len(), 2);
    assert_eq!(found[0].1, found[1].1);
    assert_eq!(8 + 2, 10);
}

#[test]
fn test_inner() {
    let mut sm = SourceMap::new();
    let root = "mod innerinner;\nmod innerpath;\nfn inner() -> i32 { unsafe { cpp!([] -> i32 as \"int\" { return 10; }) } }\n";
    let sub = "fn innerinner() -> i32 { unsafe { cpp!([] -> i32 as \"int\" { return 10; }) } }\n";
    let subpath = "fn explicit_path(x: i32) -> i32 { x }\n";
    let sp_root = sm.add_file("inner.rs".to_string(), text_of(root));
    let sp_sub = sm.add_file("inner/innerinner.rs".to_string(), text_of(sub));
    let _sp_path = sm.add_file("inner/path.rs".to_string(), text_of(subpath));

    let root_text = text_of(root);
    let found = find_cpp_macros(&root_text).unwrap();
    assert_eq!(found.len(), 1);
    let body: String = slice_chars(&root_text, found[0].begin.off, found[0].end)
        .into_iter()
        .collect();
    assert!(body.contains("return 10;"));

    let span = Span {
        lo: sp_root.lo + found[0].begin.off,
        hi: sp_root.lo + found[0].end,
    };
    assert_eq!(sm.filename(span).unwrap(), "inner.rs");

    let sub_text = text_of(sub);
    let found_sub = find_cpp_macros(&sub_text).unwrap();
    assert_eq!(found_sub.len(), 1);
    let span_sub = Span {
        lo: sp_sub.lo + found_sub[0].begin.off,
        hi: sp_sub.lo + found_sub[0].end,
    };
    assert_eq!(sm.filename(span_sub).unwrap(), "inner/innerinner.rs");
}

#[test]
fn inner_sibling() {
    let mut sm = SourceMap::new();
    let a = "fn inner_sibling() -> i32 { unsafe { cpp!([] -> i32 as \"int\" { return 10; }) } }\n";
    let b = "fn inner_sibling_child() -> i32 { unsafe { cpp!([] -> i32 as \"int\" { return 20; }) } }\n";
    let c = "fn inner_sibling_child2() -> i32 { unsafe { cpp!([] -> i32 as \"int\" { return -44; }) } }\n";
    sm.add_file("inner_sibling.rs".to_string(), text_of(a));
    let sp_b = sm.add_file("inner_sibling/child.rs".to_string(), text_of(b));
    let sp_c = sm.add_file("inner_sibling/child2.rs".to_string(), text_of(c));

    assert_eq!(contents(a)[0].1.contains("return 10;"), true);
    assert_eq!(contents(b)[0].1.contains("return 20;"), true);
    assert_eq!(contents(c)[0].1.contains("return -44;"), true);

    let li = sm.locinfo(Span { lo: sp_b.lo, hi: sp_b.lo }).unwrap();
    assert_eq!(li.path, "inner_sibling/child.rs");
    assert_eq!((li.line, li.col), (1, 0));
    let li = sm.locinfo(Span { lo: sp_c.hi, hi: sp_c.hi }).unwrap();
    assert_eq!(li.path, "inner_sibling/child2.rs");
}

#[test]
fn test_nomod() {
    let mut sm = SourceMap::new();
    let inner = "pub fn nomod_inner() -> i32 { unsafe { cpp!([] -> i32 as \"int\" { return 10; }) } }\n";
    let sp = sm.add_file("nomod/inner.rs".to_string(), text_of(inner));
    let found = contents(inner);
    assert_eq!(found.len(), 1);
    assert!(found[0].1.contains("return 10;"));
    assert_eq!(sm.filename(Span { lo: sp.lo, hi: sp.hi }).unwrap(), "nomod/inner.rs");
}

#[test]
fn plusplus() {
    let src = r#"
        let mut x: i32 = 0;
        cpp!([mut x as "int"] {
            x++;
        });
    "#;
    let found = contents(src);
    assert_eq!(found.len(), 1);
    assert!(found[0].1.starts_with("[mut x as \"int\"]"));
    assert!(found[0].1.contains("x++;"));
    assert_eq!(0 + 1, 1);
}

#[test]
fn witin_macro() {
    let src = r#"
        assert_eq!(unsafe { cpp!([] -> u32 as "int" { return 12; }) }, 12);
        let s = format!("hello{}", unsafe {
            cpp!([] -> u32 as "int" { return 14; })
        });
    "#;
    let found = contents(src);
    assert_eq!(found.len(), 2);
    assert!(found[0].1.contains("return 12;"));
    assert!(found[1].1.contains("return 14;"));
    let s = format!("hello{}", 14);
    assert_eq!(s, "hello14");
}

#[test]
fn with_unsafe() {
    let src = r#"
        let x = 45;
        cpp!(unsafe [x as "int"] -> u32 as "int" { return x + 1; })
    "#;
    let found = contents(src);
    assert_eq!(found.len(), 1);
    assert_eq!(found[0].1, "unsafe [x as \"int\"] -> u32 as \"int\" { return x + 1; }");
    assert_eq!(45 + 1, 46);
}

#[test]
fn rust_submacro() {
    let src = r#"
        cpp! {{
            #define _USE_MATH_DEFINES
            #include <math.h>

            int global_int;

            int callRust1(int x)  {
                return rust!(addTwoCallback [x : i32 as "int"] -> i32 as "int" { add_two(x) });
            }
            void *callRust2(void *ptr)  {
                int a = 3;
                typedef int LocalInt;
                typedef void * VoidStar;
                return rust!(ptrCallback [ptr : *mut u32 as "void*", a : u32 as "LocalInt"]
                        -> *mut u32 as "VoidStar" {
                    unsafe {*ptr += a};
                    ptr
                });
            }
            int callRustExplicitReturn(int x) {
                return rust!(explicitReturnCallback [x : i32 as "int"] -> i32 as "int" {
                    if x == 0 {
                        return 42;
                    }
                    x + 1
                });
            }
        }}
    "#;
    let found = contents(src);
    assert_eq!(found.len(), 1);
    let body = &found[0].1;

    let s = text_of(body);
    let invs = cpp::expand::find_all_rust_macro(&s).unwrap();
    assert_eq!(invs.len(), 3);
    assert_eq!(invs[0].id, "addTwoCallback");
    assert_eq!(invs[1].id, "ptrCallback");
    assert_eq!(invs[1].arguments.len(), 2);
    assert_eq!(invs[1].arguments[1].1, "LocalInt");
    assert_eq!(invs[1].return_type.as_deref(), Some("VoidStar"));
    assert_eq!(invs[2].id, "explicitReturnCallback");

    let mut mode = ExpandSubMacroType::Closure { file_hash: 9, offset: 0 };
    let out = expand_sub_rust_macro(body, &mut mode).unwrap();
    assert!(matches!(mode, ExpandSubMacroType::Closure { file_hash: 9, offset: 3 }));
    assert!(out.contains("rust_cpp_callbacks9[0]"));
    assert!(out.contains("rust_cpp_callbacks9[2]"));
    let nl_in = body.chars().filter(|c| *c == '\n').count();
    let nl_out = out.chars().filter(|c| *c == '\n').count();
    assert_eq!(nl_in, nl_out);
    assert_eq!(45 + 2, 47);
    assert_eq!(18 + 3, 21);
    assert_eq!(9 + 1, 10);
}

#[test]
fn rust_submacro_closure() {
    let src = r#"
        let result = unsafe {
            cpp!([] -> i32 as "int" {
                auto x = rust!(bbb []-> A as "A" { A::new(5,7) }).multiply();
                auto y = []{ A a(3,2); return rust!(aaa [a : A as "A"] -> i32 as "int" { a.multiply() }); }();
                return x + y;
            })
        };
    "#;
    let found = contents(src);
    assert_eq!(found.len(), 1);
    let s = text_of(&found[0].1);
    let invs = cpp::expand::find_all_rust_macro(&s).unwrap();
    assert_eq!(invs.len(), 2);
    assert_eq!(invs[0].id, "bbb");
    assert_eq!(invs[0].return_type.as_deref(), Some("A"));
    assert_eq!(invs[1].id, "aaa");
    assert_eq!(invs[1].arguments[0].0, "a");
    assert_eq!(5 * 7 + 3 * 2, 41);
    assert_eq!(9 * 2, 18);
}

struct MyTraitImplS {
    x: i32,
}

impl MyTrait for MyTraitImplS {
    fn compute_value(&self, x: i32) -> i32 {
        self.x + x
    }
}

#[test]
fn rust_submacro_trait() {
    let src = r#"
        cpp! {{
            class MyClassImpl : public MyClass {
              public:
                TraitPtr m_trait;
                int computeValue(int x) const {
                   return rust!(MCI_computeValue [m_trait : &dyn MyTrait as "TraitPtr", x : i32 as "int"]
                       -> i32 as "int" {
                       m_trait.compute_value(x)
                   });
               }
           };
        }}
    "#;
    let found = contents(src);
    assert_eq!(found.len(), 1);
    let mut mode = ExpandSubMacroType::Closure { file_hash: 1, offset: 0 };
    let out = expand_sub_rust_macro(&found[0].1, &mut mode).unwrap();
    assert!(out.contains("rust_cpp_callbacks1[0]"));
    assert!(out.contains("rustcpp::argument_helper<TraitPtr>::type"));
    assert!(matches!(mode, ExpandSubMacroType::Closure { file_hash: 1, offset: 1 }));

    let inst = MyTraitImplS { x: 333 };
    let inst_ref: &dyn MyTrait = &inst;
    assert_eq!(inst_ref.compute_value(123), 123 + 333);
}

#[test]
fn destructor() {
    let src = r#"
        let a = cpp!([] -> A as "A" {
            return A(5, 10);
        });

        let a1 = a.clone();

        let first = cpp!([a as "A"] -> i32 as "int32_t" {
            return a.a;
        });

        let second = cpp!([a1 as "A"] -> i32 as "int32_t" {
            return a1.b;
        });
    "#;
    let found = contents(src);
    assert_eq!(found.len(), 3);
    assert!(found[0].1.contains("return A(5, 10);"));
    assert!(found[1].1.starts_with("[a as \"A\"] -> i32 as \"int32_t\""));
    assert!(found[2].1.starts_with("[a1 as \"A\"] -> i32 as \"int32_t\""));
    let (a, b) = (5, 10);
    let first = a;
    assert_eq!(first, 5);
    let second = b;
    assert_eq!(second, 10);
}

#[test]
fn c_vector() {
    let src = r#"
        let v: Vec<u32> = (0..10).collect();
        let sum = unsafe {
            cpp!([v as "const std::vector<uint32_t>&"] -> u32 as "uint32_t" {
                return std::accumulate(v.begin(), v.end(), 0);
            })
        };
    "#;
    let found = contents(src);
    assert_eq!(found.len(), 1);
    assert!(found[0].1.starts_with("[v as \"const std::vector<uint32_t>&\"]"));
    // A capture whose host type carries angle brackets parses through them.
    let mut mode = ExpandSubMacroType::Lit;
    let out = expand_sub_rust_macro(
        "{ rust!(cv [v : &Vec<u32> as \"const std::vector<uint32_t>&\"] { 1 }) }",
        &mut mode,
    ).unwrap();
    assert!(out.contains("rustcpp::argument_helper<const std::vector<uint32_t>&>::type"));
}

#[test]
fn derive_eq() {
    let src = r#"
        cpp_class!(
            #[derive(PartialEq)]
            pub unsafe struct WithOpEq as "WithOpEq"
        );
    "#;
    let found = contents(src);
    assert_eq!(found.len(), 1);
    assert!(found[0].0);
    assert!(found[0].1.contains("#[derive(PartialEq)]"));
    assert!(found[0].1.contains("pub unsafe struct WithOpEq as \"WithOpEq\""));
    assert_eq!(found[0].1.matches("WithOpEq").count(), 2);
}

#[test]
fn includes() {
    let src = r#"
        cpp! {{
            #define _USE_MATH_DEFINES
            #include <math.h>
        }}
        let pi = unsafe { cpp!([] -> f32 as "float" { return M_PI; }) };
    "#;
    let found = contents(src);
    assert_eq!(found.len(), 2);
    assert!(found[0].1.contains("#include <math.h>"));
    assert!(found[1].1.contains("-> f32 as \"float\""));
    let pi = std::f32::consts::PI;
    assert!(pi - std::f32::consts::PI < 0.0000000001);
}

#[test]
fn header() {
    let src = "cpp! {{\n    #include \"src/header.h\"\n}}\nfn f() -> i32 { unsafe { cpp!([] -> i32 as \"int\" { return header_value(); }) } }\n";
    let found = contents(src);
    assert_eq!(found.len(), 2);
    assert!(found[0].1.contains("#include \"src/header.h\""));
    assert!(found[1].1.contains("return header_value();"));
    assert_eq!(2 * 5, 10);
}
