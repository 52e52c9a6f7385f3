//! The per-field pipeline and per-container orchestration rules.
//!
//! The companion of this library is a descriptor builder — a code
//! generator or a hand-written table — that states, for each target
//! field: where its source value comes from, whether it is required or
//! raw, its default, its optional post-check, and how its result is
//! stamped.  The functions here are the fixed rules such a descriptor
//! drives, in pipeline order: default resolution, required-ness check,
//! conversion, post-check, path stamping, capture into the shared failure
//! list, and the final condensing of a container or enum variant.

use vstd::prelude::*;

use crate::error::Cause;
use crate::error::MogrificationError;
use crate::error::flatten_failures;
use crate::error::stamp_all;
use crate::error::stamp_path;
use crate::error::views_of;
use crate::error::wrap_failures;
use crate::failure::FailureView;
use crate::path::PathPart;
use crate::path::PathPartView;
use crate::util::capture_error;
use crate::util::mogrify_raw_with;
use crate::util::required_message;

verus! {

/// How one field's result is stamped: not at all (the only positional
/// field of its container), with the field's name, or with its position.
#[derive(Debug)]
pub enum FieldStamp {
    Unmarked,
    Named(String),
    Positioned(usize),
}

impl View for FieldStamp {
    type V = Option<PathPartView>;

    /// The segment this stamp appends, if any.
    open spec fn view(&self) -> Option<PathPartView> {
        match self {
            FieldStamp::Unmarked => None,
            FieldStamp::Named(name) => Some(PathPartView::Field(name@)),
            FieldStamp::Positioned(i) => Some(PathPartView::Index(*i as int)),
        }
    }
}

/// Failures as a stamp leaves them: untouched by an unmarked stamp, else
/// with the stamp's segment appended to every failure.
pub open spec fn stamped(fs: Seq<FailureView>, stamp: Option<PathPartView>) -> Seq<FailureView> {
    match stamp {
        None => fs,
        Some(p) => stamp_all(fs, p),
    }
}

/// The stamping rule for a positional (unnamed) field: its position,
/// except that the only positional field of its container goes unmarked —
/// there is nothing to disambiguate.
pub fn position_stamp(idx: usize, field_count: usize) -> (r: FieldStamp)
    ensures
        field_count == 1 ==> r@ is None,
        field_count != 1 ==> r@ == Some(PathPartView::Index(idx as int)),
{
    if field_count == 1 {
        FieldStamp::Unmarked
    } else {
        FieldStamp::Positioned(idx)
    }
}

/// Stamps one field's result as its descriptor asks: a success passes
/// through; a failure is stamped with the field's name or position, or
/// left untouched by an unmarked stamp.
pub fn stamp_result<T>(r: Result<T, MogrificationError>, stamp: &FieldStamp) -> (s: Result<
    T,
    MogrificationError,
>)
    ensures
        stamp@ is None ==> s == r,
        r matches Ok(t) ==> s == Ok::<T, MogrificationError>(t),
        r matches Err(e) ==> (match stamp@ {
            Some(part) => s matches Err(e2) && e2@ == stamp_all(e@, part),
            None => s == r,
        }),
{
    match stamp {
        FieldStamp::Unmarked => r,
        FieldStamp::Named(name) => stamp_path(r, PathPart::Field(name.clone())),
        FieldStamp::Positioned(i) => stamp_path(r, PathPart::Index(*i)),
    }
}

/// Default resolution, the first pipeline step: a missing source value is
/// replaced by the configured default; a field without a default passes
/// the raw, possibly absent value through unchanged.
pub fn resolve_default<A>(value: Option<A>, default_value: Option<A>) -> (r: Option<A>)
    ensures
        value is Some ==> r == value,
        value is None ==> r == default_value,
{
    match value {
        Some(v) => Some(v),
        None => default_value,
    }
}

/// The optional post-check, the last conversion step: a configured final
/// fallible function runs over the successfully converted value, its
/// error wrapped like any other cause; an already failed result passes
/// through untouched.
pub fn apply_post_check<B, C, F: Fn(B) -> Result<C, Cause>>(check: F, input: Result<
    B,
    MogrificationError,
>) -> (r: Result<C, MogrificationError>)
    requires
        input matches Ok(b) ==> call_requires(check, (b,)),
    ensures
        input matches Err(e) ==> r == Err::<C, MogrificationError>(e),
        input matches Ok(b) ==> {
            &&& (r matches Ok(c) ==> call_ensures(check, (b,), Ok(c)))
            &&& (r matches Err(e2) ==> exists|c: Cause|
                #[trigger] call_ensures(check, (b,), Err(c)) && e2@ == wrap_failures(c@))
        },
{
    match input {
        Err(e) => Err(e),
        Ok(b) => mogrify_raw_with(check, b),
    }
}

/// Runs one direct-shaped field through the whole pipeline: default
/// resolution, required-ness, conversion, stamping, capture.  A value
/// still missing after default resolution yields the required-missing
/// failure; any failure is stamped as the descriptor asks and pushed onto
/// the shared failure list, so that sibling fields keep being processed.
/// An optional, list or map shaped field composes its primitive with
/// [`stamp_result`] and [`capture_error`] in the same way.
pub fn run_field<A, B, F: Fn(A) -> Result<B, Cause>>(
    convert: F,
    value: Option<A>,
    default_value: Option<A>,
    stamp: &FieldStamp,
    errors: &mut Vec<MogrificationError>,
) -> (r: Option<B>)
    requires
        value matches Some(v) ==> call_requires(convert, (v,)),
        value is None ==> (default_value matches Some(v) ==> call_requires(convert, (v,))),
    ensures
        value is None && default_value is None ==> (r is None
            && final(errors)@.len() == old(errors)@.len() + 1
            && final(errors)@.drop_last() == old(errors)@ && final(errors)@.last()@
            == stamped(
            seq![FailureView { path: Seq::empty(), message: required_message(), cause: None }],
            stamp@,
        )),
        value matches Some(v) ==> (r matches Some(b) ==> (call_ensures(convert, (v,), Ok(b))
            && final(errors)@ == old(errors)@)),
        value is None ==> (default_value matches Some(v) ==> (r matches Some(b) ==> (call_ensures(
            convert,
            (v,),
            Ok(b),
        ) && final(errors)@ == old(errors)@))),
        value matches Some(v) ==> (r is None ==> (final(errors)@.len() == old(errors)@.len() + 1
            && final(errors)@.drop_last() == old(errors)@ && exists|c: Cause|
            #[trigger] call_ensures(convert, (v,), Err(c)) && final(errors)@.last()@ == stamped(
                wrap_failures(c@),
                stamp@,
            ))),
        value is None ==> (default_value matches Some(v) ==> (r is None ==> (final(errors)@.len()
            == old(errors)@.len() + 1 && final(errors)@.drop_last() == old(errors)@ && exists|
            c: Cause,
        |
            #[trigger] call_ensures(convert, (v,), Err(c)) && final(errors)@.last()@ == stamped(
                wrap_failures(c@),
                stamp@,
            )))),
{
    match resolve_default(value, default_value) {
        None => {
            let converted: Result<B, MogrificationError> = Err(
                MogrificationError::new("Value is required"),
            );
            let stamped_result = stamp_result(converted, stamp);
            let ghost pushed = stamped_result->Err_0;
            let r = capture_error(errors, stamped_result);
            proof {
                assert(old(errors)@.push(pushed).drop_last() =~= old(errors)@);
                assert(pushed@ == stamped(
                    seq![
                        FailureView { path: Seq::empty(), message: required_message(), cause: None },
                    ],
                    stamp@,
                ));
            }
            r
        },
        Some(v) => {
            let converted = mogrify_raw_with(convert, v);
            let ghost conv0 = converted;
            let stamped_result = stamp_result(converted, stamp);
            let ghost st0 = stamped_result;
            let r = capture_error(errors, stamped_result);
            proof {
                if conv0 is Err {
                    let c = choose|c: Cause|
                        call_ensures(convert, (v,), Err(c)) && (conv0->Err_0)@ == wrap_failures(c@);
                    assert((st0->Err_0)@ == stamped(wrap_failures(c@), stamp@));
                    assert(old(errors)@.push(st0->Err_0).drop_last() =~= old(errors)@);
                    assert(call_ensures(convert, (v,), Err(c)) && errors@.last()@ == stamped(
                        wrap_failures(c@),
                        stamp@,
                    ));
                }
            }
            r
        },
    }
}

/// Runs one direct-shaped field through the whole pipeline with a
/// configured post-check, in the fixed order: default resolution,
/// required-ness, conversion, post-check, stamping, capture.  A value
/// still missing after default resolution yields the required-missing
/// failure; a failure of the conversion or of the post-check is wrapped,
/// stamped as the descriptor asks, and pushed onto the shared failure
/// list.
pub fn run_checked_field<A, B, C, F: Fn(A) -> Result<B, Cause>, G: Fn(B) -> Result<C, Cause>>(
    convert: F,
    check: G,
    value: Option<A>,
    default_value: Option<A>,
    stamp: &FieldStamp,
    errors: &mut Vec<MogrificationError>,
) -> (r: Option<C>)
    requires
        value matches Some(v) ==> call_requires(convert, (v,)),
        value is None ==> (default_value matches Some(v) ==> call_requires(convert, (v,))),
        forall|v: A, b: B| #[trigger] call_ensures(convert, (v,), Ok(b)) ==> call_requires(
            check,
            (b,),
        ),
    ensures
        value is None && default_value is None ==> (r is None
            && final(errors)@.len() == old(errors)@.len() + 1
            && final(errors)@.drop_last() == old(errors)@ && final(errors)@.last()@
            == stamped(
            seq![FailureView { path: Seq::empty(), message: required_message(), cause: None }],
            stamp@,
        )),
        value matches Some(v) ==> (r matches Some(cv) ==> (final(errors)@ == old(errors)@
            && exists|b: B|
            #[trigger] call_ensures(convert, (v,), Ok(b)) && call_ensures(check, (b,), Ok(cv)))),
        value is None ==> (default_value matches Some(v) ==> (r matches Some(cv) ==> (final(errors)@
            == old(errors)@ && exists|b: B|
            #[trigger] call_ensures(convert, (v,), Ok(b)) && call_ensures(check, (b,), Ok(cv))))),
        value matches Some(v) ==> (r is None ==> (final(errors)@.len() == old(errors)@.len() + 1
            && final(errors)@.drop_last() == old(errors)@ && ((exists|c: Cause|
            #[trigger] call_ensures(convert, (v,), Err(c)) && final(errors)@.last()@ == stamped(
                wrap_failures(c@),
                stamp@,
            )) || (exists|b: B, c: Cause|
            #![trigger call_ensures(convert, (v,), Ok(b)), call_ensures(check, (b,), Err(c))]
            call_ensures(convert, (v,), Ok(b)) && call_ensures(check, (b,), Err(c))
                && final(errors)@.last()@ == stamped(wrap_failures(c@), stamp@))))),
        value is None ==> (default_value matches Some(v) ==> (r is None ==> (final(errors)@.len()
            == old(errors)@.len() + 1 && final(errors)@.drop_last() == old(errors)@ && ((exists|
            c: Cause,
        |
            #[trigger] call_ensures(convert, (v,), Err(c)) && final(errors)@.last()@ == stamped(
                wrap_failures(c@),
                stamp@,
            )) || (exists|b: B, c: Cause|
            #![trigger call_ensures(convert, (v,), Ok(b)), call_ensures(check, (b,), Err(c))]
            call_ensures(convert, (v,), Ok(b)) && call_ensures(check, (b,), Err(c))
                && final(errors)@.last()@ == stamped(wrap_failures(c@), stamp@)))))),
{
    match resolve_default(value, default_value) {
        None => {
            let converted: Result<C, MogrificationError> = Err(
                MogrificationError::new("Value is required"),
            );
            let stamped_result = stamp_result(converted, stamp);
            let ghost pushed = stamped_result->Err_0;
            let r = capture_error(errors, stamped_result);
            proof {
                assert(old(errors)@.push(pushed).drop_last() =~= old(errors)@);
                assert(pushed@ == stamped(
                    seq![
                        FailureView { path: Seq::empty(), message: required_message(), cause: None },
                    ],
                    stamp@,
                ));
            }
            r
        },
        Some(v) => {
            let converted = mogrify_raw_with(convert, v);
            let ghost conv0 = converted;
            let checked = apply_post_check(check, converted);
            let ghost chk0 = checked;
            let stamped_result = stamp_result(checked, stamp);
            let ghost st0 = stamped_result;
            let r = capture_error(errors, stamped_result);
            proof {
                if chk0 is Err {
                    assert(old(errors)@.push(st0->Err_0).drop_last() =~= old(errors)@);
                    if conv0 is Err {
                        let c = choose|c: Cause|
                            call_ensures(convert, (v,), Err(c)) && (conv0->Err_0)@
                                == wrap_failures(c@);
                        assert((st0->Err_0)@ == stamped(wrap_failures(c@), stamp@));
                        assert(call_ensures(convert, (v,), Err(c)) && errors@.last()@ == stamped(
                            wrap_failures(c@),
                            stamp@,
                        ));
                    } else {
                        let b = conv0->Ok_0;
                        assert(call_ensures(convert, (v,), Ok(b)));
                        let c = choose|c: Cause|
                            call_ensures(check, (b,), Err(c)) && (chk0->Err_0)@ == wrap_failures(
                                c@,
                            );
                        assert((st0->Err_0)@ == stamped(wrap_failures(c@), stamp@));
                        assert(call_ensures(convert, (v,), Ok(b)) && call_ensures(
                            check,
                            (b,),
                            Err(c),
                        ) && errors@.last()@ == stamped(wrap_failures(c@), stamp@));
                    }
                } else {
                    assert(call_ensures(convert, (v,), Ok(conv0->Ok_0)));
                    assert(call_ensures(check, (conv0->Ok_0,), Ok(chk0->Ok_0)));
                }
            }
            r
        },
    }
}

/// Condenses the errors collected across one named enum variant's fields:
/// success exactly when none was collected; a failing variant has every
/// failure stamped with the variant's name before it is returned.
pub fn finish_variant(errors: Vec<MogrificationError>, variant_name: &str) -> (r: Result<
    (),
    MogrificationError,
>)
    ensures
        errors@.len() == 0 <==> r is Ok,
        r matches Err(e) ==> e@ == stamp_all(
            flatten_failures(views_of(errors@)),
            PathPartView::Field(variant_name@),
        ),
{
    match MogrificationError::condense(errors) {
        Ok(u) => Ok(u),
        Err(e) => Err(e.at_field(variant_name)),
    }
}

/// Whether two strings are the same sequence of characters.
fn str_eq(a: &str, b: &str) -> (r: bool)
    ensures
        r == (a@ == b@),
{
    let x = a.to_owned();
    let y = b.to_owned();
    x == y
}

/// The enum dispatch rule: a target variant accepts a source variant of
/// the given name when it equals the variant's configured source-name
/// override, or, with no override set, the target variant's own name.  A
/// matched unit variant converts with no field pipeline at all — also in
/// the compatibility mode where the source carries an ignored placeholder
/// value instead of being a true zero-field construct.
pub fn variant_matches(source_name: &str, target_name: &str, override_name: Option<&str>) -> (r:
    bool)
    ensures
        r == (match override_name {
            Some(o) => o@ == source_name@,
            None => target_name@ == source_name@,
        }),
{
    match override_name {
        Some(o) => str_eq(o, source_name),
        None => str_eq(target_name, source_name),
    }
}

} // verus!
