//! The conversion primitives: direct, required, optional, list and map.
//!
//! Each primitive turns one fallible field conversion into a uniform
//! `Result<_, MogrificationError>`.  The list and map primitives convert
//! every element, never stopping at the first failure, stamp each failure
//! with the position or key where it arose, and condense what was
//! collected.

use core::str::FromStr;

use vstd::prelude::*;

use crate::error::Cause;
use crate::error::CauseView;
use crate::error::MogrificationError;
use crate::error::flatten_failures;
use crate::error::stamp_all;
use crate::error::stamp_path;
use crate::error::views_of;
use crate::error::wrap_failures;
use crate::failure::FailureView;
use crate::failure::OpaqueError;
use crate::path::PathPart;
use crate::path::PathPartView;

verus! {

/// The default conversion hook of this library: how a value of `Self` is
/// obtained from a source value of type `A` when no custom converter is
/// supplied.  A failed conversion reports either an aggregate produced by
/// a nested conversion — taken over without double nesting — or an opaque
/// outside error.
pub trait Mogrify<A>: Sized {
    /// What this implementation's conversion yields for each source value:
    /// the converted value, or the cause of the failure in its
    /// mathematical form.  An implementation that keeps the default leaves
    /// its outcome unspecified, and nothing useful can then be proved
    /// through it.
    open spec fn mogrify_spec(from: A) -> Result<Self, CauseView> {
        vstd::pervasive::arbitrary()
    }

    /// Converts `from`, reporting failure as a [`Cause`].  The outcome is
    /// exactly what [`Self::mogrify_spec`] says of `from`.
    fn mogrify(from: A) -> (r: Result<Self, Cause>)
        ensures
            r matches Ok(b) ==> Self::mogrify_spec(from) == Ok::<Self, CauseView>(b),
            r matches Err(c) ==> Self::mogrify_spec(from) == Err::<Self, CauseView>(c@),
    ;
}

impl Mogrify<u64> for u32 {
    open spec fn mogrify_spec(from: u64) -> Result<u32, CauseView> {
        if from <= 0xFFFF_FFFF {
            Ok(from as u32)
        } else {
            Err(CauseView::Opaque("value out of range"@))
        }
    }

    fn mogrify(from: u64) -> (r: Result<u32, Cause>) {
        if from <= 0xFFFF_FFFFu64 {
            Ok(from as u32)
        } else {
            Err(
                Cause::Opaque(
                    OpaqueError { description: "value out of range".to_owned() },
                ),
            )
        }
    }
}

impl Mogrify<String> for String {
    open spec fn mogrify_spec(from: String) -> Result<String, CauseView> {
        Ok(from)
    }

    fn mogrify(from: String) -> (r: Result<String, Cause>) {
        Ok(from)
    }
}

/// The message of the failure that a missing required value produces.
pub open spec fn required_message() -> Seq<char> {
    "Value is required"@
}

/// Captures a result into a shared failure list: a success is handed back,
/// a failure is pushed onto the list and withheld.  This is what lets
/// sibling fields keep being processed after one of them fails.
pub fn capture_error<T, E>(errors: &mut Vec<E>, result: Result<T, E>) -> (r: Option<T>)
    ensures
        result matches Ok(t) ==> r == Some(t) && final(errors)@ == old(errors)@,
        result matches Err(e) ==> r is None && final(errors)@ == old(errors)@.push(e),
{
    match result {
        Ok(t) => Some(t),
        Err(err) => {
            errors.push(err);
            None
        },
    }
}

/// Relies on `str::parse`: the result is whatever the target type's
/// `FromStr` implementation returns for this string, untouched.
#[verifier::external_body]
pub fn force_parse<T, E>(source: &str) -> Result<T, E> where T: FromStr<Err = E> {
    source.parse()
}

/// Maps a conversion outcome into the aggregate-error world: a failure
/// cause is wrapped (flattening an aggregate cause, never nesting it).
pub(crate) fn wrap_result<B>(res: Result<B, Cause>) -> (r: Result<B, MogrificationError>)
    ensures
        res matches Ok(b) ==> r == Ok::<B, MogrificationError>(b),
        res matches Err(c) ==> (r matches Err(e) && e@ == wrap_failures(c@)),
{
    match res {
        Ok(b) => Ok(b),
        Err(c) => Err(MogrificationError::wrapping(c)),
    }
}

/// Converts one direct value through the type's default hook, wrapping any
/// failure cause: the hook's success value passes through; the hook's
/// failure cause becomes exactly its wrapped failures.
pub fn mogrify_raw<A, B: Mogrify<A>>(from: A) -> (r: Result<B, MogrificationError>)
    ensures
        B::mogrify_spec(from) matches Ok(b) ==> r == Ok::<B, MogrificationError>(b),
        B::mogrify_spec(from) matches Err(cv) ==> (r matches Err(e) && e@ == wrap_failures(cv)),
{
    wrap_result(B::mogrify(from))
}

/// Converts one direct value through a caller-supplied converter, wrapping
/// any failure cause.  Success passes the converter's value through; an
/// error holds exactly the wrapped failures of the converter's cause.
pub fn mogrify_raw_with<A, B, F: Fn(A) -> Result<B, Cause>>(with: F, value: A) -> (r: Result<
    B,
    MogrificationError,
>)
    requires
        call_requires(with, (value,)),
    ensures
        r matches Ok(b) ==> call_ensures(with, (value,), Ok(b)),
        r matches Err(e) ==> exists|c: Cause|
            #[trigger] call_ensures(with, (value,), Err(c)) && e@ == wrap_failures(c@),
{
    let res = with(value);
    let ghost res0 = res;
    let r = wrap_result(res);
    proof {
        if r is Err {
            assert(call_ensures(with, (value,), Err(res0->Err_0)) && (r->Err_0)@ == wrap_failures(
                res0->Err_0@,
            ));
        }
    }
    r
}

/// A required value: absence is itself the failure "Value is required",
/// with an empty path and no cause; presence passes the value through.
pub fn mogrify_require<T>(from: Option<T>) -> (r: Result<T, MogrificationError>)
    ensures
        from matches Some(v) ==> r == Ok::<T, MogrificationError>(v),
        from is None ==> (r matches Err(e) && e@ == seq![
            FailureView { path: Seq::empty(), message: required_message(), cause: None },
        ]),
{
    match from {
        None => Err(MogrificationError::new("Value is required")),
        Some(value) => Ok(value),
    }
}

/// An optional value through the type's default hook: absence is success
/// (`None`); a present value converts exactly like a direct one, handed
/// back inside `Some`.
pub fn mogrify_opt<A, B: Mogrify<A>>(from: Option<A>) -> (r: Result<
    Option<B>,
    MogrificationError,
>)
    ensures
        from is None ==> r == Ok::<Option<B>, MogrificationError>(None),
        from matches Some(v) ==> {
            &&& (B::mogrify_spec(v) matches Ok(b) ==> r == Ok::<Option<B>, MogrificationError>(
                Some(b),
            ))
            &&& (B::mogrify_spec(v) matches Err(cv) ==> (r matches Err(e) && e@ == wrap_failures(
                cv,
            )))
        },
{
    match from {
        None => Ok(None),
        Some(value) => match mogrify_raw::<A, B>(value) {
            Ok(b) => Ok(Some(b)),
            Err(e) => Err(e),
        },
    }
}

/// An optional value through a caller-supplied converter: absence is
/// success (`None`); a present value converts like a direct one, handed
/// back inside `Some`.
pub fn mogrify_opt_with<A, B, F: Fn(A) -> Result<B, Cause>>(with: F, from: Option<A>) -> (r:
    Result<Option<B>, MogrificationError>)
    requires
        from matches Some(v) ==> call_requires(with, (v,)),
    ensures
        from is None ==> r == Ok::<Option<B>, MogrificationError>(None),
        from matches Some(v) ==> {
            &&& (r matches Ok(ob) ==> (ob matches Some(b) && call_ensures(with, (v,), Ok(b))))
            &&& (r matches Err(e) ==> exists|c: Cause|
                #[trigger] call_ensures(with, (v,), Err(c)) && e@ == wrap_failures(c@))
        },
{
    match from {
        None => Ok(None),
        Some(value) => match mogrify_raw_with(with, value) {
            Ok(b) => Ok(Some(b)),
            Err(e) => Err(e),
        },
    }
}

/// The failures a list conversion collects, relative to the per-element
/// outcomes: each failing element contributes its wrapped failures stamped
/// with the element's position in the source list, in encounter order.
/// Successful elements contribute nothing.
pub open spec fn indexed_failures<B>(os: Seq<Result<B, Cause>>) -> Seq<FailureView>
    decreases os.len(),
{
    if os.len() == 0 {
        Seq::empty()
    } else {
        indexed_failures(os.drop_last()) + (match os.last() {
            Ok(_) => Seq::<FailureView>::empty(),
            Err(c) => stamp_all(wrap_failures(c@), PathPartView::Index(os.len() - 1)),
        })
    }
}

/// What a list conversion guarantees, relative to one sequence of
/// per-element outcomes of the converter: the conversion fails exactly
/// when some element fails; on success the converted values stand in
/// source order; on failure the error holds the indexed failures of every
/// failing element.
pub open spec fn list_outcome<A, B, F: Fn(A) -> Result<B, Cause>>(
    with: F,
    from: Seq<A>,
    os: Seq<Result<B, Cause>>,
    r: Result<Vec<B>, MogrificationError>,
) -> bool {
    &&& os.len() == from.len()
    &&& (forall|i: int| 0 <= i < os.len() ==> call_ensures(with, (from[i],), #[trigger] os[i]))
    &&& (r is Err <==> exists|i: int| 0 <= i < os.len() && (#[trigger] os[i]) is Err)
    &&& (r matches Ok(bs) ==> (bs@.len() == os.len() && (forall|i: int|
        0 <= i < os.len() ==> ((#[trigger] os[i]) matches Ok(b) && bs@[i] == b))))
    &&& (r matches Err(e) ==> e@ == indexed_failures(os))
}

/// Converts each element of a list independently through a caller-supplied
/// converter.  A failing element's error is stamped with the element's
/// position and collected; processing continues with the next element.
/// After all elements, the collected errors are condensed: success, with
/// the converted list in original order, exactly when no element failed.
pub fn mogrify_vec_with<A, B, F: Fn(A) -> Result<B, Cause>>(with: F, from: Vec<A>) -> (r: Result<
    Vec<B>,
    MogrificationError,
>)
    requires
        forall|i: int| 0 <= i < from@.len() ==> call_requires(with, (from@[i],)),
    ensures
        exists|os: Seq<Result<B, Cause>>| #[trigger] list_outcome(with, from@, os, r),
{
    let ghost from0 = from@;
    let mut rest = from;
    let mut idx: usize = 0;
    let mut successes: Vec<B> = Vec::new();
    let mut errors: Vec<MogrificationError> = Vec::new();
    let ghost os: Seq<Result<B, Cause>> = Seq::empty();
    let total = rest.len();
    proof {
        assert(rest@ =~= from0.skip(0));
        assert(flatten_failures(views_of(errors@)) =~= indexed_failures(os));
        assert(from0.len() == total as int);
    }
    while rest.len() > 0
        invariant
            from0.len() <= usize::MAX as int,
            forall|i: int| 0 <= i < from0.len() ==> call_requires(with, (from0[i],)),
            idx == os.len(),
            os.len() + rest@.len() == from0.len(),
            rest@ == from0.skip(os.len() as int),
            forall|i: int| 0 <= i < os.len() ==> call_ensures(with, (from0[i],), #[trigger] os[i]),
            flatten_failures(views_of(errors@)) == indexed_failures(os),
            (errors@.len() == 0) <==> (forall|i: int|
                0 <= i < os.len() ==> (#[trigger] os[i]) is Ok),
            errors@.len() == 0 ==> successes@.len() == os.len(),
            errors@.len() == 0 ==> (forall|i: int|
                0 <= i < os.len() ==> ((#[trigger] os[i]) matches Ok(b) && successes@[i] == b)),
        decreases rest@.len(),
    {
        let ghost i = os.len() as int;
        let a = rest.remove(0);
        proof {
            assert(a == from0[i]);
            assert(rest@ =~= from0.skip(i + 1));
        }
        let res = with(a);
        let ghost res0 = res;
        let ghost pre_os = os;
        let ghost pre_errors = errors@;
        let ghost pre_successes = successes@;
        proof {
            os = pre_os.push(res0);
            assert(os.drop_last() =~= pre_os);
            assert(os.last() == res0);
            assert forall|j: int| 0 <= j < i implies #[trigger] os[j] == pre_os[j] by {}
        }
        match res {
            Ok(b) => {
                successes.push(b);
                proof {
                    assert(indexed_failures(pre_os) + Seq::<FailureView>::empty()
                        =~= indexed_failures(pre_os));
                    assert(indexed_failures(os) == indexed_failures(pre_os));
                    if pre_errors.len() == 0 {
                        assert forall|j: int| 0 <= j < os.len() implies ((#[trigger] os[j]) matches
                            Ok(b2)
                            && successes@[j] == b2) by {
                            if j < i {
                                assert(pre_os[j] matches Ok(b2) && pre_successes[j] == b2);
                            }
                        }
                    } else {
                        assert(!(forall|j: int| 0 <= j < pre_os.len() ==> (#[trigger] pre_os[j]) is Ok));
                        assert(!(forall|j: int| 0 <= j < os.len() ==> (#[trigger] os[j]) is Ok));
                    }
                }
            },
            Err(c) => {
                let ghost c0 = c;
                let e = MogrificationError::wrapping(c).at_index(idx);
                let ghost e0 = e@;
                errors.push(e);
                proof {
                    assert(e0 == stamp_all(wrap_failures(c0@), PathPartView::Index(i)));
                    assert(views_of(errors@) =~= views_of(pre_errors).push(e0));
                    assert(views_of(errors@).drop_last() =~= views_of(pre_errors));
                    assert(flatten_failures(views_of(errors@)) == flatten_failures(
                        views_of(pre_errors),
                    ) + e0);
                    assert(indexed_failures(os) == indexed_failures(pre_os) + stamp_all(
                        wrap_failures(c0@),
                        PathPartView::Index(i),
                    ));
                    assert(os[i] is Err);
                    assert(!(forall|j: int| 0 <= j < os.len() ==> (#[trigger] os[j]) is Ok));
                }
            },
        }
        idx = idx + 1;
    }
    proof {
        assert(os.len() == from0.len());
    }
    let r: Result<Vec<B>, MogrificationError>;
    let ghost errs = errors@;
    if errors.len() == 0 {
        r = Ok(successes);
    } else {
        match MogrificationError::condense(errors) {
            Err(e) => {
                r = Err(e);
            },
            Ok(u) => {
                proof {
                    assert(false);
                }
                r = Ok(successes);
            },
        }
    }
    proof {
        assert(list_outcome(with, from0, os, r));
    }
    r
}

/// Every failure a list conversion reports carries, outermost, the
/// position of the element that produced it.
pub proof fn lemma_indexed_failures_stamped<B>(os: Seq<Result<B, Cause>>, j: int)
    requires
        0 <= j < indexed_failures(os).len(),
    ensures
        indexed_failures(os)[j].path.len() > 0,
        indexed_failures(os)[j].path.last() matches PathPartView::Index(i) && 0 <= i < os.len(),
    decreases os.len(),
{
    if os.len() == 0 {
    } else {
        let pre = indexed_failures(os.drop_last());
        if j < pre.len() {
            lemma_indexed_failures_stamped(os.drop_last(), j);
            assert(indexed_failures(os)[j] == pre[j]);
        } else {
            match os.last() {
                Ok(_) => {
                    assert((pre + Seq::<FailureView>::empty()).len() == pre.len());
                },
                Err(c) => {
                    let tail = stamp_all(wrap_failures(c@), PathPartView::Index(os.len() - 1));
                    assert(indexed_failures(os)[j] == tail[j - pre.len()]);
                    assert(tail[j - pre.len()].path == wrap_failures(c@)[j - pre.len()].path.push(
                        PathPartView::Index(os.len() - 1),
                    ));
                },
            }
        }
    }
}

/// The failures a list conversion through the type's default hook
/// collects: the wrapped failures of each element whose hook conversion
/// fails, stamped with the element's position, in encounter order.
pub open spec fn indexed_hook_failures<A, B: Mogrify<A>>(from: Seq<A>) -> Seq<FailureView>
    decreases from.len(),
{
    if from.len() == 0 {
        Seq::empty()
    } else {
        indexed_hook_failures::<A, B>(from.drop_last()) + (match B::mogrify_spec(from.last()) {
            Ok(_) => Seq::<FailureView>::empty(),
            Err(cv) => stamp_all(wrap_failures(cv), PathPartView::Index(from.len() - 1)),
        })
    }
}

/// Per-element outcomes that agree with the default hook give exactly the
/// hook's indexed failures.
proof fn lemma_indexed_failures_agree<A, B: Mogrify<A>>(from: Seq<A>, os: Seq<Result<B, Cause>>)
    requires
        os.len() == from.len(),
        forall|i: int|
            0 <= i < os.len() ==> (((#[trigger] os[i]) matches Ok(b) ==> B::mogrify_spec(from[i])
                == Ok::<B, CauseView>(b)) && (os[i] matches Err(c) ==> B::mogrify_spec(from[i])
                == Err::<B, CauseView>(c@))),
    ensures
        indexed_failures(os) == indexed_hook_failures::<A, B>(from),
    decreases os.len(),
{
    if os.len() > 0 {
        assert forall|i: int| 0 <= i < os.len() - 1 implies (((#[trigger] os.drop_last()[i])
            matches Ok(b) ==> B::mogrify_spec(from.drop_last()[i]) == Ok::<B, CauseView>(b)) && (
        os.drop_last()[i] matches Err(c) ==> B::mogrify_spec(from.drop_last()[i]) == Err::<
            B,
            CauseView,
        >(c@))) by {
            assert(os.drop_last()[i] == os[i]);
            assert(from.drop_last()[i] == from[i]);
        }
        lemma_indexed_failures_agree(from.drop_last(), os.drop_last());
        assert(os.last() == os[os.len() - 1]);
        assert(from.last() == from[os.len() - 1]);
    }
}

/// Converts each element of a list independently through the type's
/// default hook: the list analogue of [`mogrify_raw`].  Success comes
/// exactly when every element's hook conversion succeeds — an empty list
/// always converts — and then the list holds each element's converted
/// value in source order; otherwise the error holds exactly the wrapped
/// failures of the failing elements, each stamped, outermost, with the
/// position of the element that produced it.
pub fn mogrify_vec<A, B: Mogrify<A>>(from: Vec<A>) -> (r: Result<Vec<B>, MogrificationError>)
    ensures
        r is Err <==> exists|i: int|
            0 <= i < from@.len() && (#[trigger] B::mogrify_spec(from@[i])) is Err,
        r matches Ok(bs) ==> (bs@.len() == from@.len() && (forall|i: int|
            0 <= i < from@.len() ==> ((#[trigger] B::mogrify_spec(from@[i])) matches Ok(b)
                && bs@[i] == b))),
        r matches Err(e) ==> e@ == indexed_hook_failures::<A, B>(from@),
        r matches Err(e) ==> (forall|j: int|
            0 <= j < e@.len() ==> ((#[trigger] e@[j]).path.len() > 0 && (e@[j].path.last() matches
            PathPartView::Index(i)
                && 0 <= i < from@.len()))),
{
    let ghost from0 = from@;
    let convert = |value: A| -> (res: Result<B, Cause>)
        ensures
            res matches Ok(b) ==> B::mogrify_spec(value) == Ok::<B, CauseView>(b),
            res matches Err(c) ==> B::mogrify_spec(value) == Err::<B, CauseView>(c@),
        { B::mogrify(value) };
    let r = mogrify_vec_with(convert, from);
    proof {
        let os = choose|os: Seq<Result<B, Cause>>| list_outcome(convert, from0, os, r);
        assert forall|i: int| 0 <= i < os.len() implies (((#[trigger] os[i]) matches Ok(b)
            ==> B::mogrify_spec(from0[i]) == Ok::<B, CauseView>(b)) && (os[i] matches Err(c)
            ==> B::mogrify_spec(from0[i]) == Err::<B, CauseView>(c@))) by {
            assert(call_ensures(convert, (from0[i],), os[i]));
        }
        assert forall|i: int| 0 <= i < from0.len() implies ((#[trigger] B::mogrify_spec(from0[i]))
            is Err <==> os[i] is Err) by {
            assert(call_ensures(convert, (from0[i],), os[i]));
        }
        lemma_indexed_failures_agree::<A, B>(from0, os);
        if r is Err {
            let i0 = choose|i: int| 0 <= i < os.len() && (#[trigger] os[i]) is Err;
            assert(B::mogrify_spec(from0[i0]) is Err);
            assert forall|j: int| 0 <= j < (r->Err_0)@.len() implies (((#[trigger] (r->Err_0)@[j]).path.len()
                > 0) && ((r->Err_0)@[j].path.last() matches PathPartView::Index(i) && 0 <= i
                < from0.len())) by {
                lemma_indexed_failures_stamped(os, j);
            }
        } else {
            assert forall|i: int| 0 <= i < from0.len() implies ((#[trigger] B::mogrify_spec(
                from0[i],
            )) matches Ok(b) && (r->Ok_0)@[i] == b) by {
                assert(call_ensures(convert, (from0[i],), os[i]));
                assert(os[i] matches Ok(bb) && (r->Ok_0)@[i] == bb);
            }
        }
    }
    r
}

/// The failures a map conversion collects, relative to the per-pair
/// outcomes: for each pair, first the wrapped failures of a failing key
/// conversion, then those of a failing value conversion, each stamped with
/// the key's original string form, in pair encounter order.
pub open spec fn keyed_failures<KB, VB>(
    keys: Seq<Seq<char>>,
    kos: Seq<Result<KB, Cause>>,
    vos: Seq<Result<VB, Cause>>,
) -> Seq<FailureView>
    recommends
        kos.len() == keys.len(),
        vos.len() == keys.len(),
    decreases kos.len(),
{
    if kos.len() == 0 {
        Seq::empty()
    } else {
        keyed_failures(keys.drop_last(), kos.drop_last(), vos.drop_last()) + (match kos.last() {
            Ok(_) => Seq::<FailureView>::empty(),
            Err(c) => stamp_all(wrap_failures(c@), PathPartView::Key(keys.last())),
        }) + (match vos.last() {
            Ok(_) => Seq::<FailureView>::empty(),
            Err(c) => stamp_all(wrap_failures(c@), PathPartView::Key(keys.last())),
        })
    }
}

/// What a map conversion guarantees, relative to the per-pair key and
/// value outcomes: every key outcome is what the key type's default hook
/// says of that key; the conversion fails exactly when some key or value
/// conversion fails; on success every pair stands converted, in encounter
/// order; on failure the error holds the keyed failures of every failing
/// conversion, each stamped with the key's string form from before any
/// conversion.
pub open spec fn map_outcome<VA, KB: Mogrify<String>, VB, F: Fn(VA) -> Result<VB, Cause>>(
    with: F,
    from: Seq<(String, VA)>,
    kos: Seq<Result<KB, Cause>>,
    vos: Seq<Result<VB, Cause>>,
    r: Result<Vec<(KB, VB)>, MogrificationError>,
) -> bool {
    &&& kos.len() == from.len()
    &&& vos.len() == from.len()
    &&& (forall|i: int|
        0 <= i < from.len() ==> (((#[trigger] kos[i]) matches Ok(kb) ==> KB::mogrify_spec(
            from[i].0,
        ) == Ok::<KB, CauseView>(kb)) && (kos[i] matches Err(c) ==> KB::mogrify_spec(from[i].0)
            == Err::<KB, CauseView>(c@))))
    &&& (forall|i: int| 0 <= i < from.len() ==> call_ensures(with, (from[i].1,), #[trigger] vos[i]))
    &&& (r is Err <==> exists|i: int|
        0 <= i < from.len() && ((#[trigger] kos[i]) is Err || vos[i] is Err))
    &&& (r matches Ok(ps) ==> (ps@.len() == from.len() && (forall|i: int|
        0 <= i < from.len() ==> ((#[trigger] kos[i]) matches Ok(kb) && vos[i] matches Ok(vb)
            && ps@[i] == (kb, vb)))))
    &&& (r matches Err(e) ==> e@ == keyed_failures(
        from.map_values(|p: (String, VA)| p.0@),
        kos,
        vos,
    ))
}

/// Converts each key/value pair of a map independently: the key through
/// the key type's default hook, the value through a caller-supplied
/// converter.  Both failures of one pair are collected without
/// short-circuiting, each stamped with the key's original string form —
/// kept from before the key conversion, so a diagnosable identifier
/// survives even a failing key.  Fully successful pairs make up the
/// result, in encounter order and with keys not deduplicated: two pairs
/// whose keys convert alike stay two pairs, and a caller building a keyed
/// map decides which wins.  Any failure condenses into one aggregate.
pub fn mogrify_map_with<VA, KB: Mogrify<String>, VB, F: Fn(VA) -> Result<VB, Cause>>(
    with: F,
    from: Vec<(String, VA)>,
) -> (r: Result<Vec<(KB, VB)>, MogrificationError>)
    requires
        forall|i: int| 0 <= i < from@.len() ==> call_requires(with, (from@[i].1,)),
    ensures
        exists|kos: Seq<Result<KB, Cause>>, vos: Seq<Result<VB, Cause>>|
            #[trigger] map_outcome(with, from@, kos, vos, r),
{
    let ghost from0 = from@;
    let ghost keys_all: Seq<Seq<char>> = from0.map_values(|p: (String, VA)| p.0@);
    let mut rest = from;
    let mut successes: Vec<(KB, VB)> = Vec::new();
    let mut errors: Vec<MogrificationError> = Vec::new();
    let ghost kos: Seq<Result<KB, Cause>> = Seq::empty();
    let ghost vos: Seq<Result<VB, Cause>> = Seq::empty();
    let total = rest.len();
    proof {
        assert(rest@ =~= from0.skip(0));
        assert(flatten_failures(views_of(errors@)) =~= keyed_failures(keys_all.take(0), kos, vos));
        assert(from0.len() == total as int);
    }
    while rest.len() > 0
        invariant
            from0.len() <= usize::MAX as int,
            keys_all == from0.map_values(|p: (String, VA)| p.0@),
            forall|i: int| 0 <= i < from0.len() ==> call_requires(with, (from0[i].1,)),
            kos.len() == vos.len(),
            kos.len() + rest@.len() == from0.len(),
            rest@ == from0.skip(kos.len() as int),
            forall|i: int|
                0 <= i < kos.len() ==> (((#[trigger] kos[i]) matches Ok(kb) ==> KB::mogrify_spec(
                    from0[i].0,
                ) == Ok::<KB, CauseView>(kb)) && (kos[i] matches Err(c) ==> KB::mogrify_spec(
                    from0[i].0,
                ) == Err::<KB, CauseView>(c@))),
            forall|i: int|
                0 <= i < vos.len() ==> call_ensures(with, (from0[i].1,), #[trigger] vos[i]),
            flatten_failures(views_of(errors@)) == keyed_failures(
                keys_all.take(kos.len() as int),
                kos,
                vos,
            ),
            (errors@.len() == 0) <==> (forall|i: int|
                0 <= i < kos.len() ==> ((#[trigger] kos[i]) is Ok && vos[i] is Ok)),
            errors@.len() == 0 ==> successes@.len() == kos.len(),
            errors@.len() == 0 ==> (forall|i: int|
                0 <= i < kos.len() ==> ((#[trigger] kos[i]) matches Ok(kb) && vos[i] matches Ok(vb)
                    && successes@[i] == (kb, vb))),
        decreases rest@.len(),
    {
        let ghost i = kos.len() as int;
        let pair = rest.remove(0);
        proof {
            assert(pair == from0[i]);
            assert(rest@ =~= from0.skip(i + 1));
            assert(keys_all[i] == from0[i].0@);
        }
        let (key, value) = pair;
        let key_for_key_err = key.clone();
        let key_for_val_err = key.clone();
        let kres = KB::mogrify(key);
        let ghost k0 = kres;
        let vres = with(value);
        let ghost v0 = vres;
        let ghost pre_kos = kos;
        let ghost pre_vos = vos;
        let ghost pre_errors = errors@;
        let ghost pre_successes = successes@;
        let ghost kterm: Seq<FailureView> = match k0 {
            Ok(_) => Seq::empty(),
            Err(c) => stamp_all(wrap_failures(c@), PathPartView::Key(keys_all[i])),
        };
        let ghost vterm: Seq<FailureView> = match v0 {
            Ok(_) => Seq::empty(),
            Err(c) => stamp_all(wrap_failures(c@), PathPartView::Key(keys_all[i])),
        };
        proof {
            kos = pre_kos.push(k0);
            vos = pre_vos.push(v0);
            assert(kos.drop_last() =~= pre_kos);
            assert(vos.drop_last() =~= pre_vos);
            assert forall|j: int| 0 <= j < i implies #[trigger] kos[j] == pre_kos[j] by {}
            assert forall|j: int| 0 <= j < i implies #[trigger] vos[j] == pre_vos[j] by {}
            assert(keys_all.take(i + 1).drop_last() =~= keys_all.take(i));
            assert(keys_all.take(i + 1).last() == keys_all[i]);
            assert(keyed_failures(keys_all.take(i + 1), kos, vos) == keyed_failures(
                keys_all.take(i),
                pre_kos,
                pre_vos,
            ) + kterm + vterm);
        }
        let into_key = capture_error(
            &mut errors,
            stamp_path(wrap_result(kres), PathPart::Key(key_for_key_err)),
        );
        proof {
            if k0 is Err {
                assert(views_of(errors@) =~= views_of(pre_errors).push(errors@.last()@));
                assert(views_of(errors@).drop_last() =~= views_of(pre_errors));
                assert(errors@.last()@ == kterm);
            } else {
                assert(flatten_failures(views_of(pre_errors)) + kterm =~= flatten_failures(
                    views_of(pre_errors),
                ));
            }
            assert(flatten_failures(views_of(errors@)) == flatten_failures(views_of(pre_errors))
                + kterm);
        }
        let ghost mid_errors = errors@;
        let into_value = capture_error(
            &mut errors,
            stamp_path(wrap_result(vres), PathPart::Key(key_for_val_err)),
        );
        proof {
            if v0 is Err {
                assert(views_of(errors@) =~= views_of(mid_errors).push(errors@.last()@));
                assert(views_of(errors@).drop_last() =~= views_of(mid_errors));
                assert(errors@.last()@ == vterm);
            } else {
                assert(flatten_failures(views_of(mid_errors)) + vterm =~= flatten_failures(
                    views_of(mid_errors),
                ));
            }
            assert(flatten_failures(views_of(errors@)) == (flatten_failures(views_of(pre_errors))
                + kterm) + vterm);
            assert((flatten_failures(views_of(pre_errors)) + kterm) + vterm == flatten_failures(
                views_of(pre_errors),
            ) + kterm + vterm);
        }
        match (into_key, into_value) {
            (Some(kb), Some(vb)) => {
                successes.push((kb, vb));
                proof {
                    assert(k0 is Ok && v0 is Ok);
                    if pre_errors.len() == 0 {
                        assert forall|j: int| 0 <= j < kos.len() implies ((#[trigger] kos[j])
                            matches Ok(kb2)
                            && vos[j] matches Ok(vb2)
                            && successes@[j] == (kb2, vb2)) by {
                            if j < i {
                                assert(pre_kos[j] matches Ok(kb2) && pre_vos[j] matches Ok(vb2)
                                    && pre_successes[j] == (kb2, vb2));
                            }
                        }
                    } else {
                        assert(!(forall|j: int|
                            0 <= j < pre_kos.len() ==> ((#[trigger] pre_kos[j]) is Ok
                                && pre_vos[j] is Ok)));
                        assert(!(forall|j: int|
                            0 <= j < kos.len() ==> ((#[trigger] kos[j]) is Ok && vos[j] is Ok)));
                    }
                }
            },
            _ => {
                proof {
                    assert(k0 is Err || v0 is Err);
                    assert(errors@.len() > 0);
                    assert(!(forall|j: int|
                        0 <= j < kos.len() ==> ((#[trigger] kos[j]) is Ok && vos[j] is Ok)));
                }
            },
        }
    }
    proof {
        assert(kos.len() == from0.len());
        assert(keys_all.take(from0.len() as int) =~= keys_all);
    }
    let r: Result<Vec<(KB, VB)>, MogrificationError>;
    let ghost errs = errors@;
    if errors.len() == 0 {
        r = Ok(successes);
    } else {
        match MogrificationError::condense(errors) {
            Err(e) => {
                r = Err(e);
            },
            Ok(u) => {
                proof {
                    assert(false);
                }
                r = Ok(successes);
            },
        }
    }
    proof {
        assert(map_outcome(with, from0, kos, vos, r));
    }
    r
}

/// Every failure a map conversion reports carries, outermost, the string
/// form of one of the source keys.
pub proof fn lemma_keyed_failures_stamped<KB, VB>(
    keys: Seq<Seq<char>>,
    kos: Seq<Result<KB, Cause>>,
    vos: Seq<Result<VB, Cause>>,
    j: int,
)
    requires
        kos.len() == keys.len(),
        vos.len() == keys.len(),
        0 <= j < keyed_failures(keys, kos, vos).len(),
    ensures
        keyed_failures(keys, kos, vos)[j].path.len() > 0,
        keyed_failures(keys, kos, vos)[j].path.last() matches PathPartView::Key(k)
            && keys.contains(k),
    decreases kos.len(),
{
    if kos.len() == 0 {
    } else {
        let pre = keyed_failures(keys.drop_last(), kos.drop_last(), vos.drop_last());
        let kterm: Seq<FailureView> = match kos.last() {
            Ok(_) => Seq::empty(),
            Err(c) => stamp_all(wrap_failures(c@), PathPartView::Key(keys.last())),
        };
        let vterm: Seq<FailureView> = match vos.last() {
            Ok(_) => Seq::empty(),
            Err(c) => stamp_all(wrap_failures(c@), PathPartView::Key(keys.last())),
        };
        assert(keyed_failures(keys, kos, vos) == pre + kterm + vterm);
        if j < pre.len() {
            lemma_keyed_failures_stamped(keys.drop_last(), kos.drop_last(), vos.drop_last(), j);
            assert(keyed_failures(keys, kos, vos)[j] == pre[j]);
            assert(keys.drop_last()[choose|m: int|
                0 <= m < keys.drop_last().len() && keys.drop_last()[m] == pre[j].path.last()->Key_0]
                == keys[choose|m: int|
                0 <= m < keys.drop_last().len() && keys.drop_last()[m]
                    == pre[j].path.last()->Key_0]);
        } else if j < pre.len() + kterm.len() {
            let c = kos.last()->Err_0;
            assert(keyed_failures(keys, kos, vos)[j] == kterm[j - pre.len()]);
            assert(kterm[j - pre.len()].path == wrap_failures(c@)[j - pre.len()].path.push(
                PathPartView::Key(keys.last()),
            ));
            assert(keys[keys.len() - 1] == keys.last());
        } else {
            let c = vos.last()->Err_0;
            assert(keyed_failures(keys, kos, vos)[j] == vterm[j - pre.len() - kterm.len()]);
            assert(vterm[j - pre.len() - kterm.len()].path == wrap_failures(c@)[j - pre.len()
                - kterm.len()].path.push(PathPartView::Key(keys.last())));
            assert(keys[keys.len() - 1] == keys.last());
        }
    }
}

/// The failures a map conversion through the key and value types'
/// default hooks collects: for each pair, first the wrapped failures of a
/// failing key conversion, then those of a failing value conversion, each
/// stamped with the key's string form, in pair encounter order.
pub open spec fn keyed_hook_failures<VA, KB: Mogrify<String>, VB: Mogrify<VA>>(
    from: Seq<(String, VA)>,
) -> Seq<FailureView>
    decreases from.len(),
{
    if from.len() == 0 {
        Seq::empty()
    } else {
        keyed_hook_failures::<VA, KB, VB>(from.drop_last()) + (match KB::mogrify_spec(
            from.last().0,
        ) {
            Ok(_) => Seq::<FailureView>::empty(),
            Err(cv) => stamp_all(wrap_failures(cv), PathPartView::Key(from.last().0@)),
        }) + (match VB::mogrify_spec(from.last().1) {
            Ok(_) => Seq::<FailureView>::empty(),
            Err(cv) => stamp_all(wrap_failures(cv), PathPartView::Key(from.last().0@)),
        })
    }
}

/// Per-pair outcomes that agree with the default hooks give exactly the
/// hooks' keyed failures.
proof fn lemma_keyed_failures_agree<VA, KB: Mogrify<String>, VB: Mogrify<VA>>(
    from: Seq<(String, VA)>,
    kos: Seq<Result<KB, Cause>>,
    vos: Seq<Result<VB, Cause>>,
)
    requires
        kos.len() == from.len(),
        vos.len() == from.len(),
        forall|i: int|
            0 <= i < from.len() ==> (((#[trigger] kos[i]) matches Ok(kb) ==> KB::mogrify_spec(
                from[i].0,
            ) == Ok::<KB, CauseView>(kb)) && (kos[i] matches Err(c) ==> KB::mogrify_spec(from[i].0)
                == Err::<KB, CauseView>(c@))),
        forall|i: int|
            0 <= i < from.len() ==> (((#[trigger] vos[i]) matches Ok(vb) ==> VB::mogrify_spec(
                from[i].1,
            ) == Ok::<VB, CauseView>(vb)) && (vos[i] matches Err(c) ==> VB::mogrify_spec(from[i].1)
                == Err::<VB, CauseView>(c@))),
    ensures
        keyed_failures(from.map_values(|p: (String, VA)| p.0@), kos, vos)
            == keyed_hook_failures::<VA, KB, VB>(from),
    decreases from.len(),
{
    let keys = from.map_values(|p: (String, VA)| p.0@);
    if from.len() == 0 {
        assert(keys.len() == 0);
    } else {
        let n = from.len() - 1;
        assert forall|i: int| 0 <= i < n implies (((#[trigger] kos.drop_last()[i]) matches Ok(kb)
            ==> KB::mogrify_spec(from.drop_last()[i].0) == Ok::<KB, CauseView>(kb)) && (
        kos.drop_last()[i] matches Err(c) ==> KB::mogrify_spec(from.drop_last()[i].0) == Err::<
            KB,
            CauseView,
        >(c@))) by {
            assert(kos.drop_last()[i] == kos[i]);
            assert(from.drop_last()[i] == from[i]);
        }
        assert forall|i: int| 0 <= i < n implies (((#[trigger] vos.drop_last()[i]) matches Ok(vb)
            ==> VB::mogrify_spec(from.drop_last()[i].1) == Ok::<VB, CauseView>(vb)) && (
        vos.drop_last()[i] matches Err(c) ==> VB::mogrify_spec(from.drop_last()[i].1) == Err::<
            VB,
            CauseView,
        >(c@))) by {
            assert(vos.drop_last()[i] == vos[i]);
            assert(from.drop_last()[i] == from[i]);
        }
        lemma_keyed_failures_agree::<VA, KB, VB>(from.drop_last(), kos.drop_last(), vos.drop_last());
        assert(keys.drop_last() =~= from.drop_last().map_values(|p: (String, VA)| p.0@));
        assert(keys.last() == from[n].0@);
        assert(kos.last() == kos[n]);
        assert(vos.last() == vos[n]);
        assert(from.last() == from[n]);
    }
}

/// Converts each key/value pair of a map independently through the key
/// and value types' default hooks: the map analogue of [`mogrify_raw`].
/// Success comes exactly when every key and every value converts — an
/// empty input always converts — and then the result holds one converted
/// pair per source pair, in encounter order, keys not deduplicated: two
/// pairs whose keys convert alike stay two pairs, and a caller building a
/// keyed map decides which wins.  On failure the error holds exactly the
/// wrapped failures of the failing conversions, each stamped, outermost,
/// with the original string form of its pair's key.
pub fn mogrify_map<VA, KB: Mogrify<String>, VB: Mogrify<VA>>(from: Vec<(String, VA)>) -> (r: Result<
    Vec<(KB, VB)>,
    MogrificationError,
>)
    ensures
        r is Err <==> exists|i: int|
            0 <= i < from@.len() && ((#[trigger] KB::mogrify_spec(from@[i].0)) is Err
                || VB::mogrify_spec(from@[i].1) is Err),
        r matches Ok(ps) ==> (ps@.len() == from@.len() && (forall|i: int|
            0 <= i < from@.len() ==> ((#[trigger] KB::mogrify_spec(from@[i].0)) matches Ok(kb)
                && VB::mogrify_spec(from@[i].1) matches Ok(vb) && ps@[i] == (kb, vb)))),
        r matches Err(e) ==> e@ == keyed_hook_failures::<VA, KB, VB>(from@),
        r matches Err(e) ==> (forall|j: int|
            0 <= j < e@.len() ==> ((#[trigger] e@[j]).path.len() > 0 && (e@[j].path.last() matches
            PathPartView::Key(k)
                && from@.map_values(|p: (String, VA)| p.0@).contains(k)))),
{
    let ghost from0 = from@;
    let convert = |value: VA| -> (res: Result<VB, Cause>)
        ensures
            res matches Ok(b) ==> VB::mogrify_spec(value) == Ok::<VB, CauseView>(b),
            res matches Err(c) ==> VB::mogrify_spec(value) == Err::<VB, CauseView>(c@),
        { VB::mogrify(value) };
    let r = mogrify_map_with(convert, from);
    proof {
        let (kos, vos) = choose|kos: Seq<Result<KB, Cause>>, vos: Seq<Result<VB, Cause>>|
            map_outcome(convert, from0, kos, vos, r);
        assert forall|i: int| 0 <= i < from0.len() implies (((#[trigger] vos[i]) matches Ok(vb)
            ==> VB::mogrify_spec(from0[i].1) == Ok::<VB, CauseView>(vb)) && (vos[i] matches Err(c)
            ==> VB::mogrify_spec(from0[i].1) == Err::<VB, CauseView>(c@))) by {
            assert(call_ensures(convert, (from0[i].1,), vos[i]));
        }
        assert forall|i: int| 0 <= i < from0.len() implies (((#[trigger] KB::mogrify_spec(
            from0[i].0,
        )) is Err <==> kos[i] is Err) && ((#[trigger] VB::mogrify_spec(from0[i].1)) is Err
            <==> vos[i] is Err)) by {
            assert(call_ensures(convert, (from0[i].1,), vos[i]));
        }
        lemma_keyed_failures_agree::<VA, KB, VB>(from0, kos, vos);
        if r is Err {
            let i0 = choose|i: int|
                0 <= i < from0.len() && ((#[trigger] kos[i]) is Err || vos[i] is Err);
            assert(KB::mogrify_spec(from0[i0].0) is Err || VB::mogrify_spec(from0[i0].1) is Err);
            assert forall|j: int| 0 <= j < (r->Err_0)@.len() implies (((#[trigger] (r->Err_0)@[j]).path.len()
                > 0) && ((r->Err_0)@[j].path.last() matches PathPartView::Key(k)
                && from0.map_values(|p: (String, VA)| p.0@).contains(k))) by {
                lemma_keyed_failures_stamped(
                    from0.map_values(|p: (String, VA)| p.0@),
                    kos,
                    vos,
                    j,
                );
            }
        } else {
            assert forall|i: int| 0 <= i < from0.len() implies ((#[trigger] KB::mogrify_spec(
                from0[i].0,
            )) matches Ok(kb) && VB::mogrify_spec(from0[i].1) matches Ok(vb) && (r->Ok_0)@[i] == (
            kb,
            vb,
            )) by {
                assert(call_ensures(convert, (from0[i].1,), vos[i]));
                assert(kos[i] matches Ok(kb2) && vos[i] matches Ok(vb2) && (r->Ok_0)@[i] == (
                kb2,
                vb2,
                ));
            }
        }
    }
    r
}

} // verus!
