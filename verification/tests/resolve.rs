use fuzzapi::api::{
    resolve_declaration, resolve_types, type_from_decl, DeclType, Declaration, FreeVarDecl,
    FuncCall, FuncDecl, UDTDecl,
};
use fuzzapi::error::Error;
use fuzzapi::fuzz::parse_L_API;
use fuzzapi::typ::{Decl, Native, Type};
use fuzzapi::variable::{Generator, ScalarOp, Sources};

fn basic(n: Native) -> DeclType {
    DeclType::Basic(Type::Builtin(n))
}

fn member(name: &str, ty: DeclType) -> UDTDecl {
    UDTDecl { name: name.to_string(), ty }
}

#[test]
fn empty_description_is_rejected() {
    let none: Vec<Declaration> = Vec::new();
    assert_eq!(resolve_types(&none).err(), Some((0, Error::EmptyDescription)));
    let parsed = parse_L_API("").unwrap();
    assert_eq!(resolve_types(&parsed).err(), Some((0, Error::EmptyDescription)));
}

#[test]
fn basic_type_stands_for_itself() {
    let t = Type::Pointer(Box::new(Type::Builtin(Native::Void)));
    assert_eq!(type_from_decl(&DeclType::Basic(t.clone())), Ok(t));
}

#[test]
fn references_by_name_are_not_lowered() {
    assert_eq!(type_from_decl(&DeclType::StructRef("S".to_string())), Err(Error::Unimplemented));
    assert_eq!(type_from_decl(&DeclType::EnumRef("E".to_string())), Err(Error::Unimplemented));
}

#[test]
fn anonymous_aggregates_get_placeholder_names() {
    let s = DeclType::Struct(vec![
        member("a", basic(Native::Integer)),
        member("e", DeclType::Enum(vec![("X".to_string(), 1)])),
        member("s", DeclType::Struct(vec![member("u", basic(Native::Usize))])),
    ]);
    let expected = Type::Struct(
        "_unnamed_struct_".to_string(),
        vec![
            ("a".to_string(), Type::Builtin(Native::Integer)),
            (
                "e".to_string(),
                Type::Enum("_unnamed_enum_".to_string(), vec![("X".to_string(), 1)]),
            ),
            (
                "s".to_string(),
                Type::Struct(
                    "_unnamed_struct_".to_string(),
                    vec![("u".to_string(), Type::Builtin(Native::Usize))],
                ),
            ),
        ],
    );
    assert_eq!(type_from_decl(&s), Ok(expected));
}

#[test]
fn duplicate_members_are_rejected() {
    let s = DeclType::Struct(vec![
        member("a", basic(Native::Integer)),
        member("b", basic(Native::Integer)),
        member("a", basic(Native::Usize)),
    ]);
    assert_eq!(type_from_decl(&s), Err(Error::DuplicateMember));
    let e = DeclType::Enum(vec![("X".to_string(), 1), ("X".to_string(), 2)]);
    assert_eq!(type_from_decl(&e), Err(Error::DuplicateMember));
    // Values may repeat; names may not.
    let e = DeclType::Enum(vec![("X".to_string(), 1), ("Y".to_string(), 1)]);
    assert!(type_from_decl(&e).is_ok());
    assert_eq!(type_from_decl(&DeclType::Enum(vec![])), Err(Error::NoVariants));
    // The struct's own duplicates are found before a fault inside a field.
    let s = DeclType::Struct(vec![
        member("a", DeclType::StructRef("T".to_string())),
        member("a", basic(Native::Usize)),
    ]);
    assert_eq!(type_from_decl(&s), Err(Error::DuplicateMember));
    let s = DeclType::Struct(vec![
        member("a", basic(Native::Usize)),
        member("b", DeclType::StructRef("T".to_string())),
        member("c", DeclType::Enum(vec![])),
    ]);
    assert_eq!(type_from_decl(&s), Err(Error::Unimplemented));
}

#[test]
fn description_resolves_as_a_whole() {
    let decls = parse_L_API(
        "struct Ent { pointer char key; usize n; } \
         enum Colour { RED = 0 , GREEN = 1 , } \
         var:free blah op:null gen:I32 i32 \
         var:free name op:addressof gen:std pointer char \
         function:new hcreate_r int {usize, pointer struct hsearch_data,}",
    )
    .unwrap();
    let (resolved, sources) = resolve_types(&decls).unwrap();
    assert_eq!(resolved.len(), 5);
    match &resolved[0] {
        Decl::Ty(t) => assert_eq!(
            t,
            &Type::Struct(
                "Ent".to_string(),
                vec![
                    (
                        "key".to_string(),
                        Type::Pointer(Box::new(Type::Builtin(Native::Character)))
                    ),
                    ("n".to_string(), Type::Builtin(Native::Usize)),
                ]
            )
        ),
        other => panic!("{:?}", other),
    }
    match &resolved[1] {
        Decl::Ty(t) => assert_eq!(
            t,
            &Type::Enum(
                "Colour".to_string(),
                vec![("RED".to_string(), 0), ("GREEN".to_string(), 1)]
            )
        ),
        other => panic!("{:?}", other),
    }
    match &resolved[2] {
        Decl::Ty(t) => assert_eq!(t, &Type::Builtin(Native::I32)),
        other => panic!("{:?}", other),
    }
    match &resolved[4] {
        Decl::Fqn(f) => {
            assert_eq!(f.name, "hcreate_r");
            assert_eq!(f.retval, Type::Builtin(Native::Integer));
            assert_eq!(f.arguments.len(), 0);
            assert_eq!(
                f.parameters,
                vec![
                    Type::Builtin(Native::Usize),
                    Type::Pointer(Box::new(Type::Struct("hsearch_data".to_string(), vec![]))),
                ]
            );
        }
        other => panic!("{:?}", other),
    }
    // One source for each free variable, in order, each a free root.
    assert_eq!(sources.len(), 2);
    assert!(sources[0].is_free() && !sources[0].is_bound() && !sources[0].is_retval());
    assert_eq!(sources[0].op, ScalarOp::Null);
    assert_eq!(sources[0].generator.n_state(), 6);
    assert_eq!(sources[0].generator.value(), "0");
    assert_eq!(sources[1].op, ScalarOp::AddressOf);
    assert_eq!(sources[1].generator.n_state(), 8);
    let mut store = Sources::new();
    for s in sources {
        assert!(store.add(s).is_ok());
    }
    assert_eq!(store.name(0), "blah");
    assert_eq!(store.name(1), "name");
}

#[test]
fn first_fault_stops_resolution() {
    let decls = parse_L_API(
        "var:free ok op:null gen:std int \
         struct Twice { int a; usize a; } \
         var:free v op:null gen:std void",
    )
    .unwrap();
    assert_eq!(resolve_types(&decls).err(), Some((1, Error::DuplicateMember)));
    let decls = parse_L_API("var:free ok op:null gen:std int var:free v op:null gen:std void")
        .unwrap();
    assert_eq!(resolve_types(&decls).err(), Some((1, Error::NoPolicy)));
    let decls = parse_L_API("var:free v op:null gen:std struct hsearch_data").unwrap();
    assert_eq!(resolve_types(&decls).err(), Some((0, Error::Unimplemented)));
    let decls = parse_L_API("function:new f enum E { int, }").unwrap();
    assert_eq!(resolve_types(&decls).err(), Some((0, Error::Unimplemented)));
    let decls = parse_L_API("function:new f int { int, struct S, }").unwrap();
    assert_eq!(resolve_types(&decls).err(), Some((0, Error::Unimplemented)));
}

#[test]
fn single_declarations_resolve() {
    let free = Declaration::Free(FreeVarDecl {
        name: "n".to_string(),
        op: ScalarOp::Deref,
        genname: "std".to_string(),
        ty: basic(Native::Usize),
    });
    let (decl, source) = resolve_declaration(&free).unwrap();
    match decl {
        Decl::Ty(t) => assert_eq!(t, Type::Builtin(Native::Usize)),
        other => panic!("{:?}", other),
    }
    let source = source.unwrap();
    assert!(source.is_free());
    assert_eq!(source.op, ScalarOp::Deref);
    assert_eq!(source.generator.value(), "0ull");
    let function = Declaration::Function(FuncDecl {
        name: "f".to_string(),
        retval: basic(Native::Void),
        arguments: vec![],
    });
    let (decl, source) = resolve_declaration(&function).unwrap();
    assert!(source.is_none());
    match decl {
        Decl::Fqn(f) => {
            assert_eq!(f.name, "f");
            assert_eq!(f.retval, Type::Builtin(Native::Void));
            assert!(f.parameters.is_empty());
        }
        other => panic!("{:?}", other),
    }
    let udt = Declaration::UDT(member("E", DeclType::Enum(vec![("A".to_string(), 0)])));
    let (decl, source) = resolve_declaration(&udt).unwrap();
    assert!(source.is_none());
    match decl {
        Decl::Ty(t) => assert_eq!(t, Type::Enum("E".to_string(), vec![("A".to_string(), 0)])),
        other => panic!("{:?}", other),
    }
}

#[test]
fn function_calls_compare_by_fields() {
    let a = FuncCall {
        name: "f".to_string(),
        retval: "int".to_string(),
        arguments: vec!["x".to_string()],
    };
    let b = FuncCall {
        name: "f".to_string(),
        retval: "int".to_string(),
        arguments: vec!["x".to_string()],
    };
    let c = FuncCall { name: "f".to_string(), retval: "int".to_string(), arguments: vec![] };
    assert_eq!(a, b);
    assert_ne!(a, c);
}
