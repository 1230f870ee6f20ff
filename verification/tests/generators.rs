use fuzzapi::error::Error;
use fuzzapi::typ::{Native, Type};
use fuzzapi::variable::{
    generator, traverse, GenCString, GenEnum, GenI32, GenNothing, GenOpaque, GenPointer, GenUDT,
    GenUsize, Generator,
};

fn c_string() -> Type {
    Type::Pointer(Box::new(Type::Builtin(Native::Character)))
}

fn colours() -> Type {
    Type::Enum(
        "Colour".to_string(),
        vec![("FOO".to_string(), 0), ("BAR".to_string(), 1), ("BAZ".to_string(), 42)],
    )
}

fn field(name: &str, ty: Type) -> Type {
    Type::Field(name.to_string(), Box::new(ty))
}

#[test]
fn enum_scenario_three_variants_in_order() {
    let mut g = generator(&colours()).unwrap();
    assert_eq!(g.n_state(), 3);
    assert_eq!(traverse(&mut g), vec!["FOO", "BAR", "BAZ"]);
}

#[test]
fn enum_without_variants_has_no_generator() {
    let t = Type::Enum("Empty".to_string(), vec![]);
    assert_eq!(generator(&t).err(), Some(Error::NoVariants));
}

#[test]
fn character_and_void_have_no_policy() {
    assert_eq!(generator(&Type::Builtin(Native::Character)).err(), Some(Error::NoPolicy));
    assert_eq!(generator(&Type::Builtin(Native::Void)).err(), Some(Error::NoPolicy));
}

#[test]
fn integer_classes_are_exact() {
    let mut g = generator(&Type::Builtin(Native::I32)).unwrap();
    assert_eq!(g.n_state(), 6);
    assert_eq!(
        traverse(&mut g),
        vec!["0", "1", "-2147483648", "2147483647", "42", "-42"]
    );
    let mut plain = generator(&Type::Builtin(Native::Integer)).unwrap();
    assert_eq!(traverse(&mut plain).len(), 6);
}

#[test]
fn size_classes_carry_unsigned_suffix() {
    let mut g = generator(&Type::Builtin(Native::Usize)).unwrap();
    assert_eq!(g.n_state(), 4);
    assert_eq!(
        traverse(&mut g),
        vec!["0ull", "1ull", "18446744073709551615ull", "42ull"]
    );
}

#[test]
fn pointer_classes_are_cast_addresses() {
    let t = Type::Pointer(Box::new(Type::Builtin(Native::Void)));
    let mut g = generator(&t).unwrap();
    assert_eq!(g.n_state(), 4);
    assert_eq!(
        traverse(&mut g),
        vec![
            "(void*)0ull",
            "(void*)1ull",
            "(void*)3735928559ull",
            "(void*)18446744073709551615ull"
        ]
    );
    let s = Type::Pointer(Box::new(Type::Struct("hsearch_data".to_string(), vec![])));
    let p = generator(&s).unwrap();
    assert_eq!(p.value(), "(struct hsearch_data*)0ull");
}

#[test]
fn pointer_to_pointer_to_char_is_a_plain_pointer() {
    let t = Type::Pointer(Box::new(c_string()));
    let g = generator(&t).unwrap();
    assert_eq!(g.n_state(), 4);
    assert_eq!(g.value(), "(char**)0ull");
}

#[test]
fn opaque_generator_has_one_state() {
    let t = Type::Pointer(Box::new(Type::Struct("hsearch_data".to_string(), vec![])));
    let mut g = GenOpaque::create(&t);
    assert_eq!(g.n_state(), 1);
    assert!(g.done());
    assert_eq!(g.value(), "/*(struct hsearch_data*)*/{}");
    g.next();
    assert_eq!(g.value(), "/*(struct hsearch_data*)*/{}");
    g.reset();
    assert!(g.done());
}

fn is_normal(c: char) -> bool {
    (32..126).contains(&(c as u32)) && c != '"' && c != '?' && c != '\\'
}

fn is_control(c: char) -> bool {
    (c as u32) < 31 && !(7..=13).contains(&(c as u32))
}

fn body(text: &str) -> Vec<char> {
    let chars: Vec<char> = text.chars().collect();
    assert!(chars.len() >= 2);
    assert_eq!(chars[0], '"');
    assert_eq!(chars[chars.len() - 1], '"');
    chars[1..chars.len() - 1].to_vec()
}

#[test]
fn c_string_has_eight_classes_of_the_stated_shapes() {
    let mut g = GenCString::create(&c_string());
    assert_eq!(g.n_state(), 8);
    assert_eq!(g.checked_n_state(), Some(8));
    for _ in 0..20 {
        g.reset();
        assert_eq!(g.value(), "NULL");
        g.next();
        assert_eq!(g.value(), "\"\"");
        g.next();
        let one = body(&g.value());
        assert_eq!(one.len(), 1);
        assert!(is_normal(one[0]));
        g.next();
        let one = body(&g.value());
        assert_eq!(one.len(), 1);
        assert!(is_control(one[0]));
        g.next();
        let many = body(&g.value());
        assert!(3 <= many.len() && many.len() < 128);
        assert!(many.iter().all(|c| is_normal(*c)));
        g.next();
        let many = body(&g.value());
        assert!(3 <= many.len() && many.len() < 128);
        assert!(many.iter().all(|c| is_control(*c)));
        g.next();
        let many = body(&g.value());
        assert!(3 <= many.len() && many.len() < 128);
        assert!(many.iter().all(|c| is_normal(*c) || is_control(*c)));
        assert!(!g.done());
        g.next();
        let long = body(&g.value());
        assert!(512 <= long.len() && long.len() < 32768);
        assert!(long.iter().all(|c| is_normal(*c)));
        assert!(g.done());
        // Advancing at the end changes nothing.
        g.next();
        assert!(g.done());
        assert!(body(&g.value()).len() >= 512);
    }
}

#[test]
fn random_classes_change_between_readings_but_the_count_does_not() {
    let mut g = GenCString::create(&c_string());
    for _ in 0..7 {
        g.next();
    }
    let mut lengths = Vec::new();
    for _ in 0..50 {
        lengths.push(g.value().len());
        assert_eq!(g.n_state(), 8);
        assert!(g.done());
    }
    assert!(lengths.iter().any(|l| *l != lengths[0]));
}

#[test]
fn mixed_class_draws_both_sorts() {
    let mut g = GenCString::create(&c_string());
    for _ in 0..6 {
        g.next();
    }
    let mut normal = false;
    let mut control = false;
    for _ in 0..50 {
        for c in body(&g.value()) {
            normal = normal || is_normal(c);
            control = control || is_control(c);
        }
    }
    assert!(normal && control);
}

#[test]
fn struct_of_two_c_strings_scenario() {
    let t = Type::UDT(
        "Pair".to_string(),
        vec![field("first", c_string()), field("second", c_string())],
    );
    let mut g = generator(&t).unwrap();
    assert_eq!(g.n_state(), 64);
    assert_eq!(g.value(), "{\n\t\t.first = NULL,\n\t\t.second = NULL,\n\t}");
    // Seven advances walk the second field through its other classes while
    // the first stays at class 0.
    for step in 1..8 {
        g.next();
        let text = g.value();
        assert!(text.starts_with("{\n\t\t.first = NULL,\n\t\t.second = "), "{}", step);
        if step == 1 {
            assert_eq!(text, "{\n\t\t.first = NULL,\n\t\t.second = \"\",\n\t}");
        } else {
            assert!(!text.contains(".second = NULL,"));
        }
        assert!(!g.done());
    }
    // The eighth carries: the first field moves to class 1, the second is
    // back at class 0.
    g.next();
    assert_eq!(g.value(), "{\n\t\t.first = \"\",\n\t\t.second = NULL,\n\t}");
    let mut count = 9;
    while !g.done() {
        g.next();
        count += 1;
    }
    assert_eq!(count, 64);
}

#[test]
fn composite_walks_the_product_in_lexicographic_order() {
    let t = Type::Struct(
        "S".to_string(),
        vec![
            ("colour".to_string(), colours()),
            ("n".to_string(), Type::Builtin(Native::Usize)),
        ],
    );
    let mut g = generator(&t).unwrap();
    assert_eq!(g.n_state(), 12);
    let all = traverse(&mut g);
    let mut expected = Vec::new();
    for colour in ["FOO", "BAR", "BAZ"] {
        for n in ["0ull", "1ull", "18446744073709551615ull", "42ull"] {
            expected.push(format!("{{\n\t\t.colour = {},\n\t\t.n = {},\n\t}}", colour, n));
        }
    }
    assert_eq!(all, expected);
    // No state is visited twice.
    for i in 0..all.len() {
        for j in 0..i {
            assert_ne!(all[i], all[j]);
        }
    }
    // At the end an advance changes nothing.
    g.next();
    assert!(g.done());
    assert_eq!(g.value(), expected[11]);
    // A reset brings back the value that the generator was made with.
    g.reset();
    assert_eq!(g.value(), expected[0]);
    assert!(!g.done());
}

#[test]
fn nested_composite_multiplies_through() {
    let inner = Type::UDT("Inner".to_string(), vec![field("c", colours()), field("d", colours())]);
    let outer = Type::UDT(
        "Outer".to_string(),
        vec![field("i", Type::Builtin(Native::I32)), field("in", inner)],
    );
    let mut g = generator(&outer).unwrap();
    assert_eq!(g.n_state(), 6 * 3 * 3);
    assert_eq!(
        g.value(),
        "{\n\t\t.i = 0,\n\t\t.in = {\n\t\t.c = FOO,\n\t\t.d = FOO,\n\t},\n\t}"
    );
    let all = traverse(&mut g);
    assert_eq!(all.len(), 54);
    assert_eq!(
        all[53],
        "{\n\t\t.i = -42,\n\t\t.in = {\n\t\t.c = BAZ,\n\t\t.d = BAZ,\n\t},\n\t}"
    );
    assert_eq!(
        all[10],
        "{\n\t\t.i = 1,\n\t\t.in = {\n\t\t.c = FOO,\n\t\t.d = BAR,\n\t},\n\t}"
    );
}

#[test]
fn empty_composite_has_one_state() {
    let t = Type::UDT("Nothing".to_string(), vec![]);
    let mut g = generator(&t).unwrap();
    assert_eq!(g.n_state(), 1);
    assert!(g.done());
    assert_eq!(g.value(), "{\n\t}");
    g.next();
    assert_eq!(g.value(), "{\n\t}");
}

#[test]
fn aggregate_member_must_be_a_named_field() {
    let t = Type::UDT("Bad".to_string(), vec![Type::Builtin(Native::I32)]);
    assert_eq!(generator(&t).err(), Some(Error::Unimplemented));
    let u = Type::UDT(
        "Bad".to_string(),
        vec![field("ok", Type::Builtin(Native::I32)), field("v", Type::Builtin(Native::Void))],
    );
    assert_eq!(generator(&u).err(), Some(Error::NoPolicy));
}

#[test]
fn first_fault_among_members_is_reported() {
    let t = Type::Struct(
        "S".to_string(),
        vec![
            ("a".to_string(), Type::Enum("E".to_string(), vec![])),
            ("b".to_string(), Type::Builtin(Native::Void)),
        ],
    );
    assert_eq!(generator(&t).err(), Some(Error::NoVariants));
}

#[test]
fn state_count_too_large_for_a_word_is_reported() {
    // 8 to the 22nd is 2 to the 66th.
    let mut fields = Vec::new();
    for i in 0..22 {
        fields.push(field(&format!("f{}", i), c_string()));
    }
    let g = generator(&Type::UDT("Wide".to_string(), fields)).unwrap();
    assert_eq!(g.checked_n_state(), None);
    let mut fewer = Vec::new();
    for i in 0..21 {
        fewer.push(field(&format!("f{}", i), c_string()));
    }
    let g = generator(&Type::UDT("Wide".to_string(), fewer)).unwrap();
    assert_eq!(g.checked_n_state(), Some(1usize << 63));
    assert_eq!(g.n_state(), 1usize << 63);
}

#[test]
fn field_dispatches_to_the_wrapped_type() {
    let mut g = generator(&field("x", colours())).unwrap();
    assert_eq!(traverse(&mut g), vec!["FOO", "BAR", "BAZ"]);
}

#[test]
fn create_functions_start_at_the_first_class() {
    let mut e = GenEnum::create(&colours());
    assert_eq!(e.value(), "FOO");
    e.next();
    e.next();
    assert!(e.done());
    e.next();
    assert_eq!(e.value(), "BAZ");
    e.reset();
    assert_eq!(e.value(), "FOO");
    let i = GenI32::create(&Type::Builtin(Native::I32));
    assert_eq!(i.value(), "0");
    assert_eq!(i.checked_n_state(), Some(6));
    let u = GenUsize::create(&Type::Builtin(Native::Usize));
    assert_eq!(u.value(), "0ull");
    let p = GenPointer::create(&Type::Pointer(Box::new(Type::Builtin(Native::Integer))));
    assert_eq!(p.value(), "(int*)0ull");
    let t = Type::UDT("P".to_string(), vec![field("a", colours())]);
    let s = GenUDT::create(&t);
    assert_eq!(s.n_state(), 3);
    assert_eq!(s.len(), 1);
    assert_eq!(s.member(0).value(), "FOO");
    assert_eq!(s.value(), "{\n\t\t.a = FOO,\n\t}");
}

#[test]
fn from_parts_wants_one_name_for_each_generator() {
    let a = generator(&colours()).unwrap();
    let b = generator(&colours()).unwrap();
    let bad = GenUDT::from_parts(vec!["x".to_string()], vec![a, b]);
    assert!(bad.is_err());
    let (names, gens) = bad.err().unwrap();
    assert_eq!(names.len(), 1);
    assert_eq!(gens.len(), 2);
    let good = GenUDT::from_parts(vec!["x".to_string(), "y".to_string()], gens).unwrap();
    assert_eq!(good.n_state(), 9);
}

#[test]
fn summaries_show_where_generators_stand() {
    let mut e = generator(&colours()).unwrap();
    assert_eq!(e.dbg(), "enum{0 of 3}");
    e.next();
    assert_eq!(e.dbg(), "enum{1 of 3}");
    assert_eq!(generator(&Type::Builtin(Native::I32)).unwrap().dbg(), "i32{0 of 6}");
    assert_eq!(generator(&Type::Builtin(Native::Usize)).unwrap().dbg(), "usize{0 of 4}");
    let p = Type::Pointer(Box::new(Type::Builtin(Native::Void)));
    assert_eq!(generator(&p).unwrap().dbg(), "ptr{0 of 4}");
    let mut c = generator(&c_string()).unwrap();
    for _ in 0..9 {
        c.next();
    }
    assert_eq!(c.dbg(), "cstr{7 of 8}");
    assert_eq!(GenOpaque::create(&p).dbg(), "(opaque-none)");
    let inner = Type::UDT("Inner".to_string(), vec![field("c", colours())]);
    let t = Type::UDT(
        "Outer".to_string(),
        vec![field("a", colours()), field("in", inner), field("s", c_string())],
    );
    let mut g = generator(&t).unwrap();
    assert_eq!(g.dbg(), "udt{f0:enum{0 of 3}, f1:udt{f0:enum{0 of 3}}, f2:cstr{0 of 8}}");
    for _ in 0..8 {
        g.next();
    }
    assert_eq!(g.dbg(), "udt{f0:enum{0 of 3}, f1:udt{f0:enum{1 of 3}}, f2:cstr{0 of 8}}");
    assert_eq!(generator(&Type::UDT("E".to_string(), vec![])).unwrap().dbg(), "udt{}");
}

#[test]
fn traversal_reads_the_rest_and_stops_at_the_end() {
    let mut g = generator(&colours()).unwrap();
    g.next();
    assert_eq!(traverse(&mut g), vec!["BAR", "BAZ"]);
    assert!(g.done());
    assert_eq!(traverse(&mut g), vec!["BAZ"]);
    let mut c = GenCString::create(&c_string());
    let all = traverse(&mut c);
    assert_eq!(all.len(), 8);
    assert_eq!(all[0], "NULL");
    assert_eq!(all[1], "\"\"");
    let mut e = GenEnum::create(&colours());
    assert_eq!(traverse(&mut e).len(), e.n_state());
}

#[test]
fn absent_generator_is_always_at_its_end() {
    let mut n = GenNothing {};
    assert!(n.done());
    assert_eq!(n.n_state(), 1);
    assert_eq!(n.checked_n_state(), Some(1));
    n.next();
    n.reset();
    assert!(n.done());
    assert_eq!(n.dbg(), "(none)");
}
