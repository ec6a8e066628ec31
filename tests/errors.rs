use xykpy::error::{Errors, ErrorsBuilder, Outcome, TypeError};
use xykpy::syntax::SourceRange;

fn messages(errors: Errors) -> Vec<String> {
    errors.into_vec().into_iter().map(|error| error.message).collect()
}

fn error(message: &str) -> Errors {
    TypeError::new(SourceRange::default(), message.to_string()).into()
}

#[test]
fn errors_iter_order() {
    let mut errors = ErrorsBuilder::new();
    errors.add(TypeError::new(SourceRange::default(), "A".to_string()).into());
    errors.add(TypeError::new(SourceRange::default(), "B".to_string()).into());
    let messages: Vec<_> = errors
        .build()
        .into_vec()
        .into_iter()
        .map(|error| error.message)
        .collect();
    assert_eq!(messages, &["A", "B"]);
}

#[test]
fn empty_builder_builds_all_good() {
    let built = ErrorsBuilder::new().build();
    assert!(built.is_all_good());
    assert!(messages(built).is_empty());
}

#[test]
fn adding_all_good_is_a_no_op() {
    let mut b = ErrorsBuilder::new();
    b.add(Errors::AllGood);
    b.add(Errors::default());
    assert!(b.build().is_all_good());
}

#[test]
fn one_error_is_not_wrapped() {
    let mut b = ErrorsBuilder::new();
    b.add(Errors::AllGood);
    b.add(Errors::single(SourceRange::new(3, 7), "only".to_string()));
    b.add(Errors::AllGood);
    match b.build() {
        Errors::Single(e) => {
            assert_eq!(e.message, "only");
            assert_eq!(e.range, SourceRange::new(3, 7));
        }
        _ => panic!("expected a single error"),
    }
}

#[test]
fn two_errors_make_a_list_in_order() {
    let mut b = ErrorsBuilder::new();
    b.add(error("first"));
    b.add(Errors::AllGood);
    b.add(error("second"));
    let built = b.build();
    match &built {
        Errors::Many(v) => assert_eq!(v.len(), 2),
        _ => panic!("expected a list"),
    }
    assert_eq!(messages(built), vec!["first", "second"]);
}

#[test]
fn nested_lists_flatten_depth_first() {
    let mut inner = ErrorsBuilder::new();
    inner.add(error("b"));
    inner.add(error("c"));
    let mut outer = ErrorsBuilder::new();
    outer.add(error("a"));
    outer.add(inner.build());
    outer.add(error("d"));
    assert_eq!(messages(outer.build()), vec!["a", "b", "c", "d"]);
}

#[test]
fn deep_nesting_needs_no_recursion() {
    let mut e = error("leaf");
    for i in 0..5000 {
        let mut b = ErrorsBuilder::new();
        b.add(e);
        b.add(error(&format!("{}", i)));
        e = b.build();
    }
    let all = messages(e);
    assert_eq!(all.len(), 5001);
    assert_eq!(all[0], "leaf");
    assert_eq!(all[1], "0");
    assert_eq!(all[5000], "4999");
}

#[test]
fn iterator_hands_out_then_stops() {
    let mut b = ErrorsBuilder::new();
    b.add(error("x"));
    b.add(error("y"));
    let mut it = b.build().into_iter();
    assert_eq!(it.next().map(|e| e.message), Some("x".to_string()));
    assert_eq!(it.next().map(|e| e.message), Some("y".to_string()));
    assert!(it.next().is_none());
    assert!(it.next().is_none());
}

#[test]
fn outcome_constructors() {
    let s = Outcome::success(5u32);
    assert_eq!(s.value, 5);
    assert!(s.errors.is_all_good());
    let m = Outcome::mixed(6u32, error("m"));
    assert_eq!(m.value, 6);
    assert_eq!(messages(m.errors), vec!["m"]);
    let f: Outcome<Vec<u32>> = Outcome::failed(error("f"));
    assert!(f.value.is_empty());
    assert_eq!(messages(f.errors), vec!["f"]);
}

#[test]
fn unit_converts_to_all_good() {
    let e: Errors = ().into();
    assert!(e.is_all_good());
}
