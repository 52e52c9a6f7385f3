//! Behaviour of the aggregate error: construction, wrapping, condensing,
//! stamping, and the display grammar.

use mogrify::Cause;
use mogrify::MogrificationError;
use mogrify::OpaqueError;

#[test]
fn new_makes_one_failure_with_empty_path() {
    let e = MogrificationError::new("boom");
    assert_eq!(e.failures().len(), 1);
    assert_eq!(e.failures()[0].message(), "boom");
    assert_eq!(e.failures()[0].path(), "");
    assert!(e.failures()[0].cause().is_none());
    assert_eq!(e.render(), "boom");
}

#[test]
fn new_with_attaches_the_cause() {
    let cause = OpaqueError { description: "socket closed".to_string() };
    let e = MogrificationError::new_with("read failed", cause);
    assert_eq!(e.failures().len(), 1);
    assert_eq!(e.failures()[0].message(), "read failed");
    let attached = e.failures()[0].cause().expect("cause should be kept");
    assert_eq!(attached.description, "socket closed");
}

#[test]
fn a_failure_with_a_path_renders_the_location() {
    let e = MogrificationError::new("boom").at_field("x");
    assert_eq!(e.failures()[0].path(), ".x");
    assert_eq!(e.render(), "boom (at: .x)");
}

#[test]
fn condense_of_nothing_is_success() {
    assert!(MogrificationError::condense(Vec::new()).is_ok());
}

#[test]
fn condense_concatenates_in_input_order() {
    let two = MogrificationError::condense(vec![
        MogrificationError::new("b"),
        MogrificationError::new("c"),
    ])
    .unwrap_err();
    let all = MogrificationError::condense(vec![MogrificationError::new("a"), two]).unwrap_err();
    assert_eq!(all.failures().len(), 3);
    assert_eq!(all.failures()[0].message(), "a");
    assert_eq!(all.failures()[1].message(), "b");
    assert_eq!(all.failures()[2].message(), "c");
}

#[test]
fn wrapping_an_opaque_cause_makes_one_generic_failure() {
    let e = MogrificationError::wrapping(Cause::Opaque(OpaqueError {
        description: "bad digit".to_string(),
    }));
    assert_eq!(e.failures().len(), 1);
    assert_eq!(e.failures()[0].message(), "mogrify failure");
    assert_eq!(e.failures()[0].cause().unwrap().description, "bad digit");
}

#[test]
fn wrapping_an_aggregate_never_nests() {
    let original = MogrificationError::new("inner").at_field("f");
    let once = MogrificationError::wrapping(Cause::Aggregate(original));
    assert_eq!(once.failures().len(), 1);
    assert_eq!(once.failures()[0].message(), "inner");
    assert_eq!(once.failures()[0].path(), ".f");
    let twice = MogrificationError::wrapping(Cause::Aggregate(once));
    assert_eq!(twice.failures().len(), 1);
    assert_eq!(twice.failures()[0].message(), "inner");
    assert_eq!(twice.failures()[0].path(), ".f");
}

#[test]
fn stamping_stamps_every_failure_not_just_one() {
    let e = MogrificationError::condense(vec![
        MogrificationError::new("first"),
        MogrificationError::new("second"),
    ])
    .unwrap_err();
    let stamped = e.at_field("x").at_index(2);
    assert_eq!(stamped.failures().len(), 2);
    assert_eq!(stamped.failures()[0].path(), "[2].x");
    assert_eq!(stamped.failures()[1].path(), "[2].x");
}

#[test]
fn a_multi_failure_aggregate_renders_a_count_and_lines() {
    let e = MogrificationError::condense(vec![
        MogrificationError::new("a"),
        MogrificationError::new("b").at_field("f"),
    ])
    .unwrap_err();
    assert_eq!(e.render(), "found 2 mogrify failures\n    -> a\n    -> b (at: .f)\n");
}

#[test]
fn collect_appends_the_other_failures() {
    let mut e = MogrificationError::new("a");
    e.collect(MogrificationError::new("b"));
    assert_eq!(e.failures().len(), 2);
    assert_eq!(e.failures()[0].message(), "a");
    assert_eq!(e.failures()[1].message(), "b");
}

#[test]
fn paths_render_root_to_leaf_with_all_segment_forms() {
    let e = MogrificationError::new("m").at_key("k").at_index(3).at_field("outer");
    assert_eq!(e.failures()[0].path(), ".outer[3][\"k\"]");
}

#[test]
fn multi_digit_indices_render_in_decimal() {
    let e = MogrificationError::new("m").at_index(12).at_index(0).at_index(407);
    assert_eq!(e.failures()[0].path(), "[407][0][12]");
}
