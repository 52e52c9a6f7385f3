//! Behaviour of the conversion primitives: direct, required, optional,
//! list and map.

use mogrify::Cause;
use mogrify::MogrificationError;
use mogrify::Mogrify;
use mogrify::OpaqueError;
use mogrify::util::capture_error;
use mogrify::util::force_parse;
use mogrify::util::mogrify_map;
use mogrify::util::mogrify_map_with;
use mogrify::util::mogrify_opt;
use mogrify::util::mogrify_opt_with;
use mogrify::util::mogrify_raw;
use mogrify::util::mogrify_raw_with;
use mogrify::util::mogrify_require;
use mogrify::util::mogrify_vec;
use mogrify::util::mogrify_vec_with;

/// A converter that rejects the literal string "error".
fn reject_error_literal(s: String) -> Result<String, Cause> {
    if s == "error" {
        Err(Cause::Aggregate(MogrificationError::new("invalid string")))
    } else {
        Ok(s)
    }
}

/// A key type whose conversion from a string can itself fail.
#[derive(Debug, PartialEq)]
struct PickyKey(String);

impl Mogrify<String> for PickyKey {
    fn mogrify(from: String) -> Result<PickyKey, Cause> {
        if from == "bad key" {
            Err(Cause::Opaque(OpaqueError { description: "unusable key".to_string() }))
        } else {
            Ok(PickyKey(from))
        }
    }
}

#[test]
fn raw_converts_through_the_default_hook() {
    let r: Result<u32, MogrificationError> = mogrify_raw(5u64);
    assert_eq!(r.unwrap(), 5u32);
}

#[test]
fn raw_wraps_the_default_hook_failure() {
    let r: Result<u32, MogrificationError> = mogrify_raw(u64::MAX);
    let e = r.unwrap_err();
    assert_eq!(e.failures().len(), 1);
    assert_eq!(e.failures()[0].message(), "mogrify failure");
    assert_eq!(e.failures()[0].cause().unwrap().description, "value out of range");
}

#[test]
fn raw_with_uses_the_supplied_converter() {
    let ok = mogrify_raw_with(reject_error_literal, "fine".to_string());
    assert_eq!(ok.unwrap(), "fine");
    let e = mogrify_raw_with(reject_error_literal, "error".to_string()).unwrap_err();
    assert_eq!(e.failures().len(), 1);
    assert_eq!(e.failures()[0].message(), "invalid string");
}

#[test]
fn require_rejects_absence_with_the_fixed_message() {
    assert_eq!(mogrify_require(Some(7u64)).unwrap(), 7u64);
    let e = mogrify_require::<u64>(None).unwrap_err();
    assert_eq!(e.failures().len(), 1);
    assert_eq!(e.failures()[0].message(), "Value is required");
    assert_eq!(e.failures()[0].path(), "");
}

#[test]
fn opt_passes_absence_through_as_success() {
    let none: Result<Option<u32>, MogrificationError> = mogrify_opt(None::<u64>);
    assert_eq!(none.unwrap(), None);
    let some: Result<Option<u32>, MogrificationError> = mogrify_opt(Some(9u64));
    assert_eq!(some.unwrap(), Some(9u32));
    let err: Result<Option<u32>, MogrificationError> = mogrify_opt(Some(u64::MAX));
    assert!(err.is_err());
}

#[test]
fn opt_with_converts_a_present_value() {
    let none = mogrify_opt_with(reject_error_literal, None);
    assert_eq!(none.unwrap(), None);
    let some = mogrify_opt_with(reject_error_literal, Some("v".to_string()));
    assert_eq!(some.unwrap(), Some("v".to_string()));
    let err = mogrify_opt_with(reject_error_literal, Some("error".to_string())).unwrap_err();
    assert_eq!(err.failures()[0].message(), "invalid string");
}

#[test]
fn vec_with_stamps_the_failing_index_and_keeps_going() {
    let input = vec!["ok".to_string(), "error".to_string(), "also ok".to_string()];
    let e = mogrify_vec_with(reject_error_literal, input).unwrap_err();
    assert_eq!(e.failures().len(), 1);
    assert_eq!(e.failures()[0].path(), "[1]");
    assert_eq!(e.failures()[0].message(), "invalid string");
}

#[test]
fn vec_with_reports_every_failing_element() {
    let input = vec!["error".to_string(), "ok".to_string(), "error".to_string()];
    let e = mogrify_vec_with(reject_error_literal, input).unwrap_err();
    assert_eq!(e.failures().len(), 2);
    assert_eq!(e.failures()[0].path(), "[0]");
    assert_eq!(e.failures()[1].path(), "[2]");
}

#[test]
fn empty_inputs_always_convert() {
    let empty_list: Result<Vec<u32>, MogrificationError> = mogrify_vec(Vec::<u64>::new());
    assert_eq!(empty_list.unwrap(), Vec::<u32>::new());
    let empty_map: Result<Vec<(String, u32)>, MogrificationError> =
        mogrify_map(Vec::<(String, u64)>::new());
    assert_eq!(empty_map.unwrap().len(), 0);
}

#[test]
fn duplicate_converted_keys_stay_distinct_pairs() {
    let input = vec![
        ("k".to_string(), 1u64),
        ("k".to_string(), 2u64),
    ];
    let r: Result<Vec<(String, u32)>, MogrificationError> = mogrify_map(input);
    let pairs = r.unwrap();
    assert_eq!(pairs.len(), 2);
    assert_eq!(pairs[0], ("k".to_string(), 1u32));
    assert_eq!(pairs[1], ("k".to_string(), 2u32));
}

#[test]
fn vec_keeps_the_original_order_on_success() {
    let r: Result<Vec<u32>, MogrificationError> = mogrify_vec(vec![3u64, 1u64, 2u64]);
    assert_eq!(r.unwrap(), vec![3u32, 1u32, 2u32]);
}

#[test]
fn vec_through_the_default_hook_stamps_indices() {
    let r: Result<Vec<u32>, MogrificationError> = mogrify_vec(vec![1u64, u64::MAX]);
    let e = r.unwrap_err();
    assert_eq!(e.failures().len(), 1);
    assert_eq!(e.failures()[0].path(), "[1]");
}

#[test]
fn map_with_stamps_a_failing_value_with_the_key() {
    let input = vec![
        ("good".to_string(), "v".to_string()),
        ("error key".to_string(), "error".to_string()),
    ];
    let r: Result<Vec<(String, String)>, MogrificationError> =
        mogrify_map_with(reject_error_literal, input);
    let e = r.unwrap_err();
    assert_eq!(e.failures().len(), 1);
    assert_eq!(e.failures()[0].path(), "[\"error key\"]");
    assert_eq!(e.failures()[0].message(), "invalid string");
}

#[test]
fn map_with_keeps_fully_successful_pairs() {
    let input = vec![
        ("a".to_string(), "1".to_string()),
        ("b".to_string(), "2".to_string()),
    ];
    let r: Result<Vec<(String, String)>, MogrificationError> =
        mogrify_map_with(reject_error_literal, input);
    let pairs = r.unwrap();
    assert_eq!(pairs.len(), 2);
    assert_eq!(pairs[0], ("a".to_string(), "1".to_string()));
    assert_eq!(pairs[1], ("b".to_string(), "2".to_string()));
}

#[test]
fn map_stamps_a_failing_key_with_its_original_string_form() {
    let input = vec![
        ("bad key".to_string(), 1u64),
        ("fine".to_string(), 2u64),
    ];
    let r: Result<Vec<(PickyKey, u32)>, MogrificationError> = mogrify_map(input);
    let e = r.unwrap_err();
    assert_eq!(e.failures().len(), 1);
    assert_eq!(e.failures()[0].path(), "[\"bad key\"]");
    assert_eq!(e.failures()[0].cause().unwrap().description, "unusable key");
}

#[test]
fn map_reports_key_and_value_failures_of_one_pair() {
    let input = vec![("bad key".to_string(), u64::MAX)];
    let r: Result<Vec<(PickyKey, u32)>, MogrificationError> = mogrify_map(input);
    let e = r.unwrap_err();
    assert_eq!(e.failures().len(), 2);
    assert_eq!(e.failures()[0].path(), "[\"bad key\"]");
    assert_eq!(e.failures()[0].cause().unwrap().description, "unusable key");
    assert_eq!(e.failures()[1].path(), "[\"bad key\"]");
    assert_eq!(e.failures()[1].cause().unwrap().description, "value out of range");
}

#[test]
fn capture_error_collects_failures_and_passes_successes() {
    let mut errors: Vec<MogrificationError> = Vec::new();
    let kept = capture_error(&mut errors, Ok::<u32, MogrificationError>(4));
    assert_eq!(kept, Some(4));
    assert_eq!(errors.len(), 0);
    let lost = capture_error(&mut errors, Err::<u32, _>(MogrificationError::new("nope")));
    assert_eq!(lost, None);
    assert_eq!(errors.len(), 1);
    assert_eq!(errors[0].failures()[0].message(), "nope");
}

#[test]
fn force_parse_hands_the_parse_result_through() {
    let parsed: Result<i32, _> = force_parse("42");
    assert_eq!(parsed.unwrap(), 42);
    let failed: Result<i32, _> = force_parse("not a number");
    assert!(failed.is_err());
}

#[test]
fn the_default_numeric_hook_checks_the_range() {
    assert_eq!(u32::mogrify(0xFFFF_FFFFu64).unwrap(), u32::MAX);
    assert!(u32::mogrify(0x1_0000_0000u64).is_err());
}
