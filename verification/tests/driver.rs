use fuzzapi::driver::Driver;
use fuzzapi::typ::{Native, Type};
use fuzzapi::variable::{generator, Generator};

fn colours() -> Type {
    Type::Enum("C".to_string(), vec![("R".to_string(), 0), ("G".to_string(), 1)])
}

fn driver() -> Driver {
    let names = vec!["c".to_string(), "n".to_string(), "d".to_string()];
    let gens = vec![
        generator(&colours()).unwrap(),
        generator(&Type::Builtin(Native::Usize)).unwrap(),
        generator(&colours()).unwrap(),
    ];
    Driver::new(names, gens).unwrap()
}

#[test]
fn every_combination_is_emitted_exactly_once_in_order() {
    let mut d = driver();
    assert_eq!(d.combinations(), Some(16));
    let all = d.run();
    assert_eq!(all.len(), 16);
    let mut expected: Vec<Vec<String>> = Vec::new();
    for c in ["R", "G"] {
        for n in ["0ull", "1ull", "18446744073709551615ull", "42ull"] {
            for e in ["R", "G"] {
                expected.push(vec![c.to_string(), n.to_string(), e.to_string()]);
            }
        }
    }
    assert_eq!(all, expected);
    assert!(d.done());
}

#[test]
fn stepwise_use_matches_the_run() {
    let mut d = driver();
    let mut seen = vec![d.current()];
    while !d.done() {
        d.advance();
        seen.push(d.current());
    }
    let mut again = driver();
    assert_eq!(seen, again.run());
    // Only the last variable moved at the first step.
    assert_eq!(seen[0], vec!["R", "0ull", "R"]);
    assert_eq!(seen[1], vec!["R", "0ull", "G"]);
    assert_eq!(seen[2], vec!["R", "1ull", "R"]);
    // At the end an advance is a no-op.
    d.advance();
    assert_eq!(d.current(), vec!["G", "42ull", "G"]);
    d.reset();
    assert_eq!(d.current(), vec!["R", "0ull", "R"]);
}

#[test]
fn run_from_the_middle_emits_the_rest() {
    let mut d = driver();
    for _ in 0..5 {
        d.advance();
    }
    assert_eq!(d.run().len(), 11);
    assert_eq!(d.run().len(), 1);
}

#[test]
fn no_variables_make_one_empty_combination() {
    let mut d = Driver::new(vec![], vec![]).unwrap();
    assert_eq!(d.combinations(), Some(1));
    assert!(d.done());
    assert_eq!(d.run(), vec![Vec::<String>::new()]);
}

#[test]
fn names_and_generators_must_agree_in_number() {
    let r = Driver::new(vec!["a".to_string()], vec![]);
    assert!(r.is_err());
    let (names, gens) = r.err().unwrap();
    assert_eq!(names, vec!["a".to_string()]);
    assert!(gens.is_empty());
}
