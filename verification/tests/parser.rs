use fuzzapi::api::{DeclType, Declaration};
use fuzzapi::fuzz::{check_name, integer_value, parse_L_API, parse_tokens, ParseError};
use fuzzapi::lexer::{is_word_byte, tokenize, Token};
use fuzzapi::typ::{Native, Type};
use fuzzapi::variable::ScalarOp;

fn word(w: &str) -> Token {
    Token::Word(w.to_string())
}

#[test]
fn tokens_need_no_whitespace_around_punctuation() {
    let tokens = tokenize("enum E{A=0,}\n\tstruct  S {int x;}").unwrap();
    assert_eq!(
        tokens,
        vec![
            word("enum"),
            word("E"),
            Token::Open,
            word("A"),
            Token::Equals,
            word("0"),
            Token::Comma,
            Token::Close,
            word("struct"),
            word("S"),
            Token::Open,
            word("int"),
            word("x"),
            Token::Semicolon,
            Token::Close,
        ]
    );
    assert_eq!(tokenize("").unwrap(), vec![]);
    assert_eq!(tokenize(" \r\n\t ").unwrap(), vec![]);
    assert_eq!(tokenize("var:free").unwrap(), vec![word("var:free")]);
}

#[test]
fn text_outside_ascii_is_rejected() {
    assert_eq!(tokenize("struct \u{e9} { }"), None);
    assert_eq!(parse_L_API("struct \u{e9} { }").err(), Some(ParseError::NotAscii));
}

#[test]
fn word_bytes() {
    for b in [b' ', b'\t', b'\n', b'\r', b'{', b'}', b';', b',', b'='] {
        assert!(!is_word_byte(b));
    }
    for b in [b'a', b'Z', b'0', b':', b'_', b'-', b'*'] {
        assert!(is_word_byte(b));
    }
}

#[test]
fn names() {
    assert!(check_name("x"));
    assert!(check_name("_x9"));
    assert!(check_name("hsearch_data"));
    assert!(!check_name(""));
    assert!(!check_name("9x"));
    assert!(!check_name("a-b"));
    assert!(!check_name("var:free"));
}

#[test]
fn integers() {
    assert_eq!(integer_value("0"), Some(0));
    assert_eq!(integer_value("42"), Some(42));
    assert_eq!(integer_value("-42"), Some(-42));
    assert_eq!(integer_value("007"), Some(7));
    assert_eq!(integer_value("999999999999999999"), Some(999_999_999_999_999_999));
    assert_eq!(integer_value("-999999999999999999"), Some(-999_999_999_999_999_999));
    assert_eq!(integer_value("1000000000000000000"), None);
    assert_eq!(integer_value(""), None);
    assert_eq!(integer_value("-"), None);
    assert_eq!(integer_value("4x"), None);
    assert_eq!(integer_value("+4"), None);
    assert_eq!(integer_value("--4"), None);
}

#[test]
fn empty_text_has_no_declarations() {
    assert_eq!(parse_L_API("").unwrap().len(), 0);
    assert_eq!(parse_L_API("  \n").unwrap().len(), 0);
}

#[test]
fn enum_variants_keep_their_values() {
    let decls = parse_L_API("enum Enumeration { FOO = 0 , BAR = 1 , BAZ = -42 , }").unwrap();
    match &decls[0] {
        Declaration::UDT(u) => {
            assert_eq!(u.name, "Enumeration");
            match &u.ty {
                DeclType::Enum(values) => assert_eq!(
                    values,
                    &vec![
                        ("FOO".to_string(), 0),
                        ("BAR".to_string(), 1),
                        ("BAZ".to_string(), -42)
                    ]
                ),
                other => panic!("{:?}", other),
            }
        }
        other => panic!("{:?}", other),
    }
}

#[test]
fn enum_needs_a_variant_and_trailing_commas() {
    assert_eq!(
        parse_L_API("enum E { }").err(),
        Some(ParseError::Syntax { item: 0, token: 0 })
    );
    assert_eq!(
        parse_L_API("enum E { A = 0 }").err(),
        Some(ParseError::Syntax { item: 0, token: 0 })
    );
    assert_eq!(
        parse_L_API("enum E { A = 0 , B = x , }").err(),
        Some(ParseError::Syntax { item: 0, token: 0 })
    );
}

#[test]
fn free_variable_declaration() {
    let decls = parse_L_API(
        "var:free a op:none gen:std int var:free b op:deref gen: pointer char \
         var:free c op:addressof gen:opaque struct hsearch_data var:free d op:null gen:x enum E",
    )
    .unwrap();
    assert_eq!(decls.len(), 4);
    let expect = [
        ("a", ScalarOp::Null, "std"),
        ("b", ScalarOp::Deref, ""),
        ("c", ScalarOp::AddressOf, "opaque"),
        ("d", ScalarOp::Null, "x"),
    ];
    for (decl, (name, op, gen)) in decls.iter().zip(expect.iter()) {
        match decl {
            Declaration::Free(f) => {
                assert_eq!(f.name, *name);
                assert_eq!(f.op, *op);
                assert_eq!(f.genname, *gen);
            }
            other => panic!("{:?}", other),
        }
    }
    match &decls[0] {
        Declaration::Free(f) => match &f.ty {
            DeclType::Basic(t) => assert_eq!(t, &Type::Builtin(Native::Integer)),
            other => panic!("{:?}", other),
        },
        _ => unreachable!(),
    }
    match &decls[2] {
        Declaration::Free(f) => match &f.ty {
            DeclType::StructRef(n) => assert_eq!(n, "hsearch_data"),
            other => panic!("{:?}", other),
        },
        _ => unreachable!(),
    }
    match &decls[3] {
        Declaration::Free(f) => match &f.ty {
            DeclType::EnumRef(n) => assert_eq!(n, "E"),
            other => panic!("{:?}", other),
        },
        _ => unreachable!(),
    }
}

#[test]
fn multiple_indirection() {
    let decls = parse_L_API("function:new f void { pointer pointer int, pointer enum E, }").unwrap();
    match &decls[0] {
        Declaration::Function(f) => {
            assert_eq!(f.name, "f");
            match &f.arguments[0] {
                DeclType::Basic(t) => assert_eq!(
                    t,
                    &Type::Pointer(Box::new(Type::Pointer(Box::new(Type::Builtin(
                        Native::Integer
                    )))))
                ),
                other => panic!("{:?}", other),
            }
            match &f.arguments[1] {
                DeclType::Basic(t) => {
                    assert_eq!(t, &Type::Pointer(Box::new(Type::Enum("E".to_string(), vec![]))))
                }
                other => panic!("{:?}", other),
            }
        }
        other => panic!("{:?}", other),
    }
}

#[test]
fn syntax_fault_names_the_item_and_its_first_token() {
    assert_eq!(
        parse_L_API("struct A { } struct B { int x } struct C { }").err(),
        Some(ParseError::Syntax { item: 1, token: 4 })
    );
    assert_eq!(
        parse_L_API("bogus").err(),
        Some(ParseError::Syntax { item: 0, token: 0 })
    );
    assert_eq!(
        parse_L_API("struct S { int x; } }").err(),
        Some(ParseError::Syntax { item: 1, token: 7 })
    );
    assert_eq!(
        parse_L_API("var:free v op:sideways gen:x int").err(),
        Some(ParseError::Syntax { item: 0, token: 0 })
    );
    assert_eq!(
        parse_L_API("var:free v op:null generator int").err(),
        Some(ParseError::Syntax { item: 0, token: 0 })
    );
    assert_eq!(
        parse_L_API("function:new f int { int }").err(),
        Some(ParseError::Syntax { item: 0, token: 0 })
    );
    assert_eq!(
        parse_L_API("struct 9lives { }").err(),
        Some(ParseError::Syntax { item: 0, token: 0 })
    );
    assert_eq!(
        parse_L_API("struct S { float x; }").err(),
        Some(ParseError::Syntax { item: 0, token: 0 })
    );
}

#[test]
fn tokens_can_be_parsed_directly() {
    let tokens = vec![word("struct"), word("S"), Token::Open, Token::Close];
    assert_eq!(parse_tokens(&tokens).unwrap().len(), 1);
    let tokens = vec![word("struct"), word("S"), Token::Open];
    assert_eq!(parse_tokens(&tokens).err(), Some((0, 0)));
}

#[test]
fn a_description_written_token_by_token_is_read_back() {
    // Every token followed by one blank.
    let text = "struct Ent { pointer char key ; struct Other link ; } \
                enum Colour { RED = 0 , DEEP = -7 , } \
                var:free tbl op:addressof gen:opaque pointer struct hsearch_data \
                function:new hsearch_r int { int , pointer pointer int , enum Colour , } ";
    let decls = parse_L_API(text).unwrap();
    assert_eq!(decls.len(), 4);
    match &decls[0] {
        Declaration::UDT(u) => match &u.ty {
            DeclType::Struct(fields) => {
                assert_eq!(u.name, "Ent");
                assert_eq!(fields.len(), 2);
                assert_eq!(fields[0].name, "key");
                assert_eq!(fields[1].name, "link");
                match &fields[1].ty {
                    DeclType::StructRef(n) => assert_eq!(n, "Other"),
                    other => panic!("{:?}", other),
                }
            }
            other => panic!("{:?}", other),
        },
        other => panic!("{:?}", other),
    }
    match &decls[1] {
        Declaration::UDT(u) => match &u.ty {
            DeclType::Enum(values) => {
                assert_eq!(values, &vec![("RED".to_string(), 0), ("DEEP".to_string(), -7)])
            }
            other => panic!("{:?}", other),
        },
        other => panic!("{:?}", other),
    }
    match &decls[2] {
        Declaration::Free(f) => {
            assert_eq!(f.name, "tbl");
            assert_eq!(f.op, ScalarOp::AddressOf);
            assert_eq!(f.genname, "opaque");
            match &f.ty {
                DeclType::Basic(t) => assert_eq!(
                    t,
                    &Type::Pointer(Box::new(Type::Struct("hsearch_data".to_string(), vec![])))
                ),
                other => panic!("{:?}", other),
            }
        }
        other => panic!("{:?}", other),
    }
    match &decls[3] {
        Declaration::Function(f) => {
            assert_eq!(f.name, "hsearch_r");
            assert_eq!(f.arguments.len(), 3);
            match &f.arguments[2] {
                DeclType::EnumRef(n) => assert_eq!(n, "Colour"),
                other => panic!("{:?}", other),
            }
        }
        other => panic!("{:?}", other),
    }
}
