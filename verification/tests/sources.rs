use fuzzapi::expr::Expression;
use fuzzapi::function::{Argument, Function};
use fuzzapi::typ::{has_duplicate, Native, Type};
use fuzzapi::variable::{generator, GenOpaque, AnyGenerator, Generator, ScalarOp, Source, Sources};

#[test]
fn scalar_transformations_render_as_operators() {
    assert_eq!(ScalarOp::Null.to_string(), "");
    assert_eq!(ScalarOp::Deref.to_string(), "*");
    assert_eq!(ScalarOp::AddressOf.to_string(), "&");
}

#[test]
fn the_three_sorts_of_source() {
    let free = Source::free("x", &Type::Builtin(Native::I32), ScalarOp::Null);
    assert!(free.is_free() && !free.is_bound() && !free.is_retval());
    assert_eq!(free.generator.n_state(), 6);
    let bound = Source::bound(0, ScalarOp::AddressOf);
    assert!(!bound.is_free() && bound.is_bound() && !bound.is_retval());
    assert_eq!(bound.parent, Some(0));
    assert_eq!(bound.op, ScalarOp::AddressOf);
    assert!(bound.generator.done());
    assert_eq!(bound.generator.n_state(), 1);
    assert_eq!(bound.generator.dbg(), "(none)");
    let ret = Source::retval("rv", "hcreate_r", ScalarOp::Deref);
    assert!(!ret.is_free() && !ret.is_bound() && ret.is_retval());
    let opaque = GenOpaque::create(&Type::Pointer(Box::new(Type::Builtin(Native::Void))));
    let custom = Source::free_gen("tbl", AnyGenerator::Opaque(opaque), ScalarOp::Null);
    assert!(custom.is_free());
    assert_eq!(custom.generator.value(), "/*(void*)*/{}");
    // A source without a name, a parent or a function is of no sort.
    let nameless = Source::free("", &Type::Builtin(Native::I32), ScalarOp::Null);
    assert!(!nameless.is_free() && !nameless.is_bound() && !nameless.is_retval());
}

#[test]
fn names_resolve_through_the_parent_chain() {
    let mut store = Sources::new();
    assert_eq!(store.len(), 0);
    let x = store.add(Source::free("x", &Type::Builtin(Native::I32), ScalarOp::Null)).unwrap();
    let rv = store.add(Source::retval("rv", "lib::make", ScalarOp::Null)).unwrap();
    let px = store.add(Source::bound(x, ScalarOp::AddressOf)).unwrap();
    let ppx = store.add(Source::bound(px, ScalarOp::AddressOf)).unwrap();
    let prv = store.add(Source::bound(rv, ScalarOp::Deref)).unwrap();
    assert_eq!((x, rv, px, ppx, prv), (0, 1, 2, 3, 4));
    assert_eq!(store.len(), 5);
    assert_eq!(store.name(x), "x");
    assert_eq!(store.name(rv), "lib::make");
    assert_eq!(store.name(px), "x");
    assert_eq!(store.name(ppx), "x");
    assert_eq!(store.name(prv), "lib::make");
    assert_eq!(store.get(ppx).parent, Some(px));
    assert_eq!(store.get(prv).op, ScalarOp::Deref);
}

#[test]
fn store_refuses_dangling_parents_and_sortless_sources() {
    let mut store = Sources::new();
    let back = store.add(Source::bound(0, ScalarOp::Null)).err().unwrap();
    assert_eq!(back.parent, Some(0));
    assert_eq!(store.len(), 0);
    let nameless = Source::free("", &Type::Builtin(Native::I32), ScalarOp::Null);
    assert!(store.add(nameless).is_err());
    assert_eq!(store.len(), 0);
    store.add(Source::free("x", &Type::Builtin(Native::I32), ScalarOp::Null)).unwrap();
    assert!(store.add(Source::bound(1, ScalarOp::Null)).is_err());
    assert!(store.add(Source::bound(0, ScalarOp::Null)).is_ok());
    assert_eq!(store.len(), 2);
}

#[test]
fn arguments_render_through_their_transformation() {
    let int = Type::Builtin(Native::Integer);
    let plain = Argument::new(&Expression::new("n", ScalarOp::Null, &int));
    let deref = Argument::new(&Expression::new("p", ScalarOp::Deref, &int));
    let addr = Argument::new(&Expression::new("tbl", ScalarOp::AddressOf, &int));
    assert_eq!(plain.codegen(), "n");
    assert_eq!(deref.codegen(), "*p");
    assert_eq!(addr.codegen(), "&tbl");
    assert_eq!(addr.expr.text(), "&tbl");
    assert_eq!(addr.expr.extype(), int);
}

#[test]
fn function_from_arguments_takes_their_types() {
    let int = Type::Builtin(Native::Integer);
    let ptr = Type::Pointer(Box::new(Type::Struct("hsearch_data".to_string(), vec![])));
    let args = vec![
        Argument::new(&Expression::new("n", ScalarOp::Null, &Type::Builtin(Native::Usize))),
        Argument::new(&Expression::new("tbl", ScalarOp::AddressOf, &ptr)),
    ];
    let f = Function::new("hcreate_r", &int, &args);
    assert_eq!(f.name, "hcreate_r");
    assert_eq!(f.retval, int);
    assert_eq!(f.arguments.len(), 2);
    assert_eq!(f.arguments[1].codegen(), "&tbl");
    assert_eq!(f.parameters, vec![Type::Builtin(Native::Usize), ptr.clone()]);
    let g = Function::param("hdestroy_r", &Type::Builtin(Native::Void), &vec![ptr.clone()]);
    assert_eq!(g.name, "hdestroy_r");
    assert!(g.arguments.is_empty());
    assert_eq!(g.parameters, vec![ptr]);
    let h = g.clone();
    assert_eq!(h.name, g.name);
    assert_eq!(h.parameters, g.parameters);
}

#[test]
fn type_names() {
    let ch = Type::Builtin(Native::Character);
    assert_eq!(ch.name(), "char");
    assert_eq!(Type::Builtin(Native::Integer).name(), "int");
    assert_eq!(Type::Builtin(Native::I32).name(), "int32_t");
    assert_eq!(Type::Builtin(Native::Usize).name(), "size_t");
    assert_eq!(Type::Builtin(Native::Void).name(), "void");
    let p = Type::Pointer(Box::new(ch));
    assert_eq!(p.name(), "char*");
    assert!(p.is_c_string());
    assert!(!Type::Pointer(Box::new(p.clone())).is_c_string());
    assert_eq!(Type::Pointer(Box::new(p.clone())).name(), "char**");
    assert_eq!(Type::Struct("S".to_string(), vec![]).name(), "struct S");
    assert_eq!(Type::UDT("S".to_string(), vec![]).name(), "struct S");
    assert_eq!(Type::Enum("E".to_string(), vec![]).name(), "enum E");
    assert_eq!(Type::Field("f".to_string(), Box::new(p.clone())).name(), "f");
    // A copy is equal to what it was made from.
    let nested = Type::Struct(
        "S".to_string(),
        vec![
            ("a".to_string(), p.clone()),
            ("e".to_string(), Type::Enum("E".to_string(), vec![("X".to_string(), -1)])),
            (
                "u".to_string(),
                Type::UDT("U".to_string(), vec![Type::Field("f".to_string(), Box::new(p))]),
            ),
        ],
    );
    assert_eq!(nested.clone(), nested);
    assert!(generator(&nested).is_ok());
}

#[test]
fn duplicates_among_names() {
    let names = |v: &[&str]| v.iter().map(|s| s.to_string()).collect::<Vec<String>>();
    assert!(!has_duplicate(&names(&[])));
    assert!(!has_duplicate(&names(&["a"])));
    assert!(!has_duplicate(&names(&["a", "b", "c"])));
    assert!(has_duplicate(&names(&["a", "b", "a"])));
    assert!(has_duplicate(&names(&["a", "b", "b"])));
    assert!(!has_duplicate(&names(&["a", "A"])));
}
