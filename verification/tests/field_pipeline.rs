//! Behaviour of the per-field pipeline rules: defaults, stamping, capture,
//! post-checks, and the container and enum-variant orchestration.

use mogrify::Cause;
use mogrify::MogrificationError;
use mogrify::OpaqueError;
use mogrify::PathPart;
use mogrify::pipeline::FieldStamp;
use mogrify::pipeline::apply_post_check;
use mogrify::pipeline::finish_variant;
use mogrify::pipeline::position_stamp;
use mogrify::pipeline::resolve_default;
use mogrify::pipeline::run_checked_field;
use mogrify::pipeline::run_field;
use mogrify::pipeline::stamp_result;
use mogrify::pipeline::variant_matches;
use mogrify::stamp_path;

fn parse_flag(s: String) -> Result<bool, Cause> {
    if s == "yes" {
        Ok(true)
    } else if s == "no" {
        Ok(false)
    } else {
        Err(Cause::Opaque(OpaqueError { description: format!("not a flag: {}", s) }))
    }
}

#[test]
fn resolve_default_replaces_only_absence() {
    assert_eq!(resolve_default(Some(1u64), Some(9u64)), Some(1u64));
    assert_eq!(resolve_default(None, Some(9u64)), Some(9u64));
    assert_eq!(resolve_default::<u64>(None, None), None);
}

#[test]
fn the_single_positional_field_goes_unmarked() {
    let alone = position_stamp(0, 1);
    assert!(matches!(alone, FieldStamp::Unmarked));
    let second_of_three = position_stamp(1, 3);
    assert!(matches!(second_of_three, FieldStamp::Positioned(1)));
}

#[test]
fn stamp_result_applies_the_descriptor_stamp() {
    let named = stamp_result(
        Err::<u32, _>(MogrificationError::new("x")),
        &FieldStamp::Named("size".to_string()),
    )
    .unwrap_err();
    assert_eq!(named.failures()[0].path(), ".size");
    let positioned = stamp_result(
        Err::<u32, _>(MogrificationError::new("x")),
        &FieldStamp::Positioned(2),
    )
    .unwrap_err();
    assert_eq!(positioned.failures()[0].path(), "[2]");
    let unmarked =
        stamp_result(Err::<u32, _>(MogrificationError::new("x")), &FieldStamp::Unmarked)
            .unwrap_err();
    assert_eq!(unmarked.failures()[0].path(), "");
    let success = stamp_result(Ok::<u32, MogrificationError>(7), &FieldStamp::Positioned(2));
    assert_eq!(success.unwrap(), 7);
}

#[test]
fn stamp_path_touches_only_the_error_branch() {
    let ok = stamp_path(Ok::<u32, MogrificationError>(1), PathPart::Field("f".to_string()));
    assert_eq!(ok.unwrap(), 1);
    let err = stamp_path(
        Err::<u32, _>(MogrificationError::new("x")),
        PathPart::Key("k".to_string()),
    )
    .unwrap_err();
    assert_eq!(err.failures()[0].path(), "[\"k\"]");
}

#[test]
fn post_check_wraps_the_rejection() {
    let passed = apply_post_check(parse_flag, Ok("yes".to_string()));
    assert_eq!(passed.unwrap(), true);
    let rejected = apply_post_check(parse_flag, Ok("maybe".to_string())).unwrap_err();
    assert_eq!(rejected.failures()[0].message(), "mogrify failure");
    assert_eq!(rejected.failures()[0].cause().unwrap().description, "not a flag: maybe");
    let earlier = apply_post_check(parse_flag, Err(MogrificationError::new("upstream")))
        .unwrap_err();
    assert_eq!(earlier.failures()[0].message(), "upstream");
}

#[test]
fn run_field_converts_a_present_value() {
    let mut errors: Vec<MogrificationError> = Vec::new();
    let got = run_field(
        parse_flag,
        Some("yes".to_string()),
        None,
        &FieldStamp::Named("flag".to_string()),
        &mut errors,
    );
    assert_eq!(got, Some(true));
    assert_eq!(errors.len(), 0);
}

#[test]
fn run_field_falls_back_to_the_default() {
    let mut errors: Vec<MogrificationError> = Vec::new();
    let got = run_field(
        parse_flag,
        None,
        Some("no".to_string()),
        &FieldStamp::Named("flag".to_string()),
        &mut errors,
    );
    assert_eq!(got, Some(false));
    assert_eq!(errors.len(), 0);
}

#[test]
fn run_field_reports_a_missing_required_value() {
    let mut errors: Vec<MogrificationError> = Vec::new();
    let got = run_field(parse_flag, None, None, &FieldStamp::Named("flag".to_string()), &mut errors);
    assert_eq!(got, None);
    assert_eq!(errors.len(), 1);
    assert_eq!(errors[0].failures()[0].message(), "Value is required");
    assert_eq!(errors[0].failures()[0].path(), ".flag");
}

#[test]
fn run_field_stamps_a_conversion_failure() {
    let mut errors: Vec<MogrificationError> = Vec::new();
    let got = run_field(
        parse_flag,
        Some("maybe".to_string()),
        None,
        &FieldStamp::Positioned(1),
        &mut errors,
    );
    assert_eq!(got, None);
    assert_eq!(errors.len(), 1);
    assert_eq!(errors[0].failures()[0].message(), "mogrify failure");
    assert_eq!(errors[0].failures()[0].path(), "[1]");
}

fn forbid_zero(n: u16) -> Result<u16, Cause> {
    if n == 0 {
        Err(Cause::Aggregate(MogrificationError::new("must not be zero")))
    } else {
        Ok(n)
    }
}

fn parse_small(s: String) -> Result<u16, Cause> {
    match s.parse::<u16>() {
        Ok(n) => Ok(n),
        Err(e) => Err(Cause::Opaque(OpaqueError { description: format!("{}", e) })),
    }
}

#[test]
fn a_checked_field_runs_conversion_then_post_check() {
    let mut errors: Vec<MogrificationError> = Vec::new();
    let got = run_checked_field(
        parse_small,
        forbid_zero,
        Some("7".to_string()),
        None,
        &FieldStamp::Named("count".to_string()),
        &mut errors,
    );
    assert_eq!(got, Some(7));
    assert_eq!(errors.len(), 0);
}

#[test]
fn a_checked_field_stamps_a_conversion_failure() {
    let mut errors: Vec<MogrificationError> = Vec::new();
    let got = run_checked_field(
        parse_small,
        forbid_zero,
        Some("many".to_string()),
        None,
        &FieldStamp::Named("count".to_string()),
        &mut errors,
    );
    assert_eq!(got, None);
    assert_eq!(errors.len(), 1);
    assert_eq!(errors[0].failures()[0].message(), "mogrify failure");
    assert_eq!(errors[0].failures()[0].path(), ".count");
}

#[test]
fn a_checked_field_stamps_a_post_check_rejection() {
    let mut errors: Vec<MogrificationError> = Vec::new();
    let got = run_checked_field(
        parse_small,
        forbid_zero,
        Some("0".to_string()),
        None,
        &FieldStamp::Named("count".to_string()),
        &mut errors,
    );
    assert_eq!(got, None);
    assert_eq!(errors.len(), 1);
    assert_eq!(errors[0].failures()[0].message(), "must not be zero");
    assert_eq!(errors[0].failures()[0].path(), ".count");
}

#[test]
fn a_checked_field_reports_a_missing_required_value() {
    let mut errors: Vec<MogrificationError> = Vec::new();
    let got = run_checked_field(
        parse_small,
        forbid_zero,
        None,
        None,
        &FieldStamp::Named("count".to_string()),
        &mut errors,
    );
    assert_eq!(got, None);
    assert_eq!(errors.len(), 1);
    assert_eq!(errors[0].failures()[0].message(), "Value is required");
    assert_eq!(errors[0].failures()[0].path(), ".count");
}

#[test]
fn finish_variant_stamps_the_variant_name() {
    let clean: Result<(), MogrificationError> = finish_variant(Vec::new(), "Circle");
    assert!(clean.is_ok());
    let failed = finish_variant(vec![MogrificationError::new("bad").at_field("radius")], "Circle")
        .unwrap_err();
    assert_eq!(failed.failures().len(), 1);
    assert_eq!(failed.failures()[0].path(), ".Circle.radius");
}

#[test]
fn variant_dispatch_prefers_the_override() {
    assert!(variant_matches("Circle", "Circle", None));
    assert!(!variant_matches("Square", "Circle", None));
    assert!(variant_matches("CIRCLE", "Circle", Some("CIRCLE")));
    assert!(!variant_matches("Circle", "Circle", Some("CIRCLE")));
}
