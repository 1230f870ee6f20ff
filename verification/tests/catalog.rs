use fuzzapi::decimal::{digit, signed, unsigned};
use fuzzapi::error::Error;
use fuzzapi::random::{control_char, normal_char};
use fuzzapi::tc::{class_count, class_value, TC_Enum, TC_Pointer, TC_Usize, TC_I32};
use fuzzapi::typ::{Native, Type};

fn c_string() -> Type {
    Type::Pointer(Box::new(Type::Builtin(Native::Character)))
}

#[test]
fn every_primitive_type_has_a_class_and_a_canonical_first() {
    let e = Type::Enum("E".to_string(), vec![("A".to_string(), 7), ("B".to_string(), 7)]);
    let p = Type::Pointer(Box::new(Type::Builtin(Native::Void)));
    let cases: Vec<(Type, usize, &str)> = vec![
        (Type::Builtin(Native::Integer), 6, "0"),
        (Type::Builtin(Native::I32), 6, "0"),
        (Type::Builtin(Native::Usize), 4, "0ull"),
        (p, 4, "(void*)0ull"),
        (c_string(), 8, "NULL"),
        (e, 2, "A"),
    ];
    for (t, count, canonical) in cases {
        assert_eq!(class_count(&t), Ok(count));
        assert!(count >= 1);
        assert_eq!(class_value(&t, 0), Ok(canonical.to_string()));
    }
}

#[test]
fn class_values_are_stable_for_fixed_classes() {
    let t = Type::Builtin(Native::I32);
    for _ in 0..3 {
        assert_eq!(class_value(&t, 2), Ok("-2147483648".to_string()));
        assert_eq!(class_value(&t, 5), Ok("-42".to_string()));
    }
    assert_eq!(class_value(&c_string(), 1), Ok("\"\"".to_string()));
    let text = class_value(&c_string(), 2).unwrap();
    assert_eq!(text.chars().count(), 3);
}

#[test]
fn types_without_classes_are_rejected() {
    assert_eq!(class_count(&Type::Builtin(Native::Void)), Err(Error::NoPolicy));
    assert_eq!(class_count(&Type::Builtin(Native::Character)), Err(Error::NoPolicy));
    assert_eq!(class_count(&Type::Struct("S".to_string(), vec![])), Err(Error::NoPolicy));
    assert_eq!(class_count(&Type::UDT("S".to_string(), vec![])), Err(Error::NoPolicy));
    assert_eq!(class_count(&Type::Enum("E".to_string(), vec![])), Err(Error::NoVariants));
    assert_eq!(class_value(&Type::Builtin(Native::Void), 0), Err(Error::NoPolicy));
    assert_eq!(class_value(&Type::Enum("E".to_string(), vec![]), 0), Err(Error::NoVariants));
    let f = Type::Field("f".to_string(), Box::new(Type::Builtin(Native::Usize)));
    assert_eq!(class_count(&f), Ok(4));
    assert_eq!(class_value(&f, 3), Ok("42ull".to_string()));
}

#[test]
fn faults_are_told_apart() {
    assert!(Error::EmptyDescription.is_description_error());
    assert!(Error::DuplicateMember.is_description_error());
    assert!(Error::NoVariants.is_description_error());
    assert!(Error::NoPolicy.is_description_error());
    assert!(!Error::Unimplemented.is_description_error());
}

#[test]
fn catalog_entries_hold_the_stated_values() {
    let i = TC_I32::new();
    assert_eq!(i.n(), 6);
    let values: Vec<i32> = (0..6).map(|k| i.value(k)).collect();
    assert_eq!(values, vec![0, 1, i32::MIN, i32::MAX, 42, -42]);
    let u = TC_Usize::new();
    assert_eq!(u.n(), 4);
    let values: Vec<u64> = (0..4).map(|k| u.value(k)).collect();
    assert_eq!(values, vec![0, 1, u64::MAX, 42]);
    let p = TC_Pointer::new();
    assert_eq!(p.n(), 4);
    let values: Vec<u64> = (0..4).map(|k| p.value(k)).collect();
    assert_eq!(values, vec![0, 1, 0xdead_beef, u64::MAX]);
    let e = TC_Enum::new(&Type::Enum(
        "E".to_string(),
        vec![("X".to_string(), -3), ("Y".to_string(), 9)],
    ));
    assert_eq!(e.n(), 2);
    assert_eq!(e.value(0), "X");
    assert_eq!(e.value(1), "Y");
}

#[test]
fn decimal_numerals() {
    assert_eq!(unsigned(0), "0");
    assert_eq!(unsigned(7), "7");
    assert_eq!(unsigned(10), "10");
    assert_eq!(unsigned(1234567890), "1234567890");
    assert_eq!(unsigned(u64::MAX), "18446744073709551615");
    assert_eq!(signed(0), "0");
    assert_eq!(signed(-1), "-1");
    assert_eq!(signed(305), "305");
    assert_eq!(signed(i64::MIN), "-9223372036854775808");
    assert_eq!(signed(i64::MAX), "9223372036854775807");
    for d in 0..10u64 {
        assert_eq!(digit(d), d.to_string());
    }
}

#[test]
fn normal_characters_skip_quote_question_mark_and_backslash() {
    let all: Vec<char> = (0..91).map(normal_char).collect();
    assert_eq!(all[0], ' ');
    assert_eq!(all[1], '!');
    assert_eq!(all[2], '#');
    assert_eq!(all[90], '}');
    for w in all.windows(2) {
        assert!(w[0] < w[1]);
    }
    for c in &all {
        assert!(*c != '"' && *c != '?' && *c != '\\');
        assert!((32..126).contains(&(*c as u32)));
    }
    assert_eq!(normal_char(30), '@');
    assert_eq!(normal_char(58), ']');
}

#[test]
fn control_characters_skip_the_layout_codes() {
    let all: Vec<u32> = (0..24).map(|d| control_char(d) as u32).collect();
    let mut expected: Vec<u32> = (0..7).collect();
    expected.extend(14..31);
    assert_eq!(all, expected);
}
