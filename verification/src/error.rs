//! The aggregate error: a non-empty ordered collection of failures.

use vstd::prelude::*;
use vstd::string::*;

use crate::failure::FailureView;
use crate::failure::MogrifyFailure;
use crate::failure::OpaqueError;
use crate::failure::render_failure;
use crate::path::PathPart;
use crate::path::PathPartView;
use crate::path::PathTracker;
use crate::path::dec_rep;
use crate::path::dec_string;
use crate::path::lemma_render_push;
use crate::path::render_path;

verus! {

/// What [`MogrificationError::wrapping`] receives: either an aggregate this
/// library produced earlier — whose failures are taken over directly, with
/// no double nesting — or an opaque outside error.  Matching on the variant
/// replaces a dynamic type check.
#[derive(Debug)]
pub enum Cause {
    Aggregate(MogrificationError),
    Opaque(OpaqueError),
}

/// The mathematical form of a [`Cause`].
pub enum CauseView {
    Aggregate(Seq<FailureView>),
    Opaque(Seq<char>),
}

impl View for Cause {
    type V = CauseView;

    open spec fn view(&self) -> CauseView {
        match self {
            Cause::Aggregate(e) => CauseView::Aggregate(e@),
            Cause::Opaque(o) => CauseView::Opaque(o@),
        }
    }
}

/// The generic message of a failure created around an opaque cause.
pub open spec fn wrap_message() -> Seq<char> {
    "mogrify failure"@
}

/// The failures that wrapping a cause yields: an aggregate's failures are
/// taken over as they are (path state preserved); an opaque error becomes
/// one failure with an empty path, the generic message, and the error
/// attached as cause.
pub open spec fn wrap_failures(c: CauseView) -> Seq<FailureView> {
    match c {
        CauseView::Aggregate(fs) => fs,
        CauseView::Opaque(d) => seq![
            FailureView { path: Seq::empty(), message: wrap_message(), cause: Some(d) },
        ],
    }
}

/// Appending one segment to the path of every failure in the sequence.
pub open spec fn stamp_all(fs: Seq<FailureView>, s: PathPartView) -> Seq<FailureView> {
    fs.map_values(
        |f: FailureView| FailureView { path: f.path.push(s), message: f.message, cause: f.cause },
    )
}

/// The concatenation of several failure sequences, in input order.
pub open spec fn flatten_failures(s: Seq<Seq<FailureView>>) -> Seq<FailureView>
    decreases s.len(),
{
    if s.len() == 0 {
        Seq::empty()
    } else {
        flatten_failures(s.drop_last()) + s.last()
    }
}

/// The sum of the lengths of several failure sequences.
pub open spec fn total_failures(s: Seq<Seq<FailureView>>) -> nat
    decreases s.len(),
{
    if s.len() == 0 {
        0
    } else {
        total_failures(s.drop_last()) + s.last().len()
    }
}

/// The views of a sequence of aggregate errors.
pub open spec fn views_of(s: Seq<MogrificationError>) -> Seq<Seq<FailureView>> {
    s.map_values(|m: MogrificationError| m@)
}

/// Condensing keeps every failure: the flattened sequence is exactly as
/// long as the sum of the inputs' failure counts.
pub proof fn lemma_condense_count(s: Seq<Seq<FailureView>>)
    ensures
        flatten_failures(s).len() == total_failures(s),
    decreases s.len(),
{
    if s.len() > 0 {
        lemma_condense_count(s.drop_last());
    }
}

/// Condensing well-formed aggregates keeps the non-emptiness invariant:
/// when every input holds at least one failure and there is at least one
/// input, at least one failure survives the flattening.
pub proof fn lemma_condense_wf(s: Seq<Seq<FailureView>>)
    requires
        s.len() > 0,
        forall|i: int| 0 <= i < s.len() ==> (#[trigger] s[i]).len() > 0,
    ensures
        flatten_failures(s).len() > 0,
    decreases s.len(),
{
    assert(s.last() == s[s.len() - 1]);
}

/// Wrapping never increases nesting depth: an aggregate built from the
/// failures of an earlier wrapping, wrapped again, yields exactly those
/// failures.  Flattening is idempotent.
pub proof fn lemma_wrapping_never_nests(c: CauseView)
    ensures
        wrap_failures(CauseView::Aggregate(wrap_failures(c))) == wrap_failures(c),
{
}

/// Stamping stamps every failure, not just the first: after `at_field` with
/// `name` and then `at_index(2)`, the rendered path of each failure gains
/// the two new segments (the later, outer segment first), in front of
/// whatever path the failure already had.
pub proof fn lemma_stamp_stamps_every_failure(fs: Seq<FailureView>, name: Seq<char>, i: int)
    requires
        0 <= i < fs.len(),
    ensures
        render_path(stamp_all(stamp_all(fs, PathPartView::Field(name)), PathPartView::Index(2))[i].path)
            == seq!['[', '2', ']'] + (seq!['.'] + name) + render_path(fs[i].path),
{
    let once = stamp_all(fs, PathPartView::Field(name));
    let twice = stamp_all(once, PathPartView::Index(2));
    assert(twice[i].path == fs[i].path.push(PathPartView::Field(name)).push(PathPartView::Index(2)));
    lemma_render_push(fs[i].path, PathPartView::Field(name));
    lemma_render_push(fs[i].path.push(PathPartView::Field(name)), PathPartView::Index(2));
    assert(seq!['['] + dec_rep(2) + seq![']'] =~= seq!['[', '2', ']']);
    assert((seq!['[', '2', ']']) + ((seq!['.'] + name) + render_path(fs[i].path)) =~= seq![
        '[',
        '2',
        ']',
    ] + (seq!['.'] + name) + render_path(fs[i].path));
}

/// One display line of a multi-failure aggregate.
pub open spec fn render_error_line(f: FailureView) -> Seq<char> {
    "    -> "@ + render_failure(f) + "\n"@
}

/// The indented failure lines of a multi-failure aggregate, in encounter
/// order.
pub open spec fn render_lines(fs: Seq<FailureView>) -> Seq<char>
    decreases fs.len(),
{
    if fs.len() == 0 {
        Seq::empty()
    } else {
        render_lines(fs.drop_last()) + render_error_line(fs.last())
    }
}

/// The header line reporting the failure count.
pub open spec fn render_header(n: nat) -> Seq<char> {
    "found "@ + dec_rep(n) + " mogrify failures\n"@
}

/// The display form of a whole aggregate: a one-failure aggregate renders
/// as that failure; a larger one as a count header followed by one indented
/// line per failure.
pub open spec fn render_error(fs: Seq<FailureView>) -> Seq<char> {
    if fs.len() == 1 {
        render_failure(fs[0])
    } else {
        render_header(fs.len()) + render_lines(fs)
    }
}

/// Stamps a result uniformly: a success passes through untouched; an error
/// has the segment appended to the path of every failure it holds.  This
/// one free function serves every `Result`-shaped pipeline stage.
pub fn stamp_path<T>(r: Result<T, MogrificationError>, part: PathPart) -> (s: Result<
    T,
    MogrificationError,
>)
    ensures
        r matches Ok(t) ==> s == Ok::<T, MogrificationError>(t),
        r matches Err(e) ==> (s matches Err(e2) && e2@ == stamp_all(e@, part@)),
{
    match r {
        Ok(t) => Ok(t),
        Err(e) => Err(e.stamp(part)),
    }
}

/// A non-empty ordered collection of failures: the unit of error
/// propagation across a whole conversion.  Every "did anything fail"
/// decision and all path stamping operate on this type.
#[derive(Debug)]
pub struct MogrificationError {
    pub failures: Vec<MogrifyFailure>,
}

impl View for MogrificationError {
    type V = Seq<FailureView>;

    open spec fn view(&self) -> Seq<FailureView> {
        self.failures@.map_values(|f: MogrifyFailure| f@)
    }
}

impl MogrificationError {
    /// A well-formed aggregate holds at least one failure.
    pub open spec fn wf(&self) -> bool {
        self@.len() > 0
    }

    /// One failure with the given message, an empty path and no cause.
    pub fn new(msg: &str) -> (r: MogrificationError)
        ensures
            r@ == seq![FailureView { path: Seq::empty(), message: msg@, cause: None }],
            r.wf(),
    {
        let f = MogrifyFailure { path: PathTracker::new(), message: msg.to_owned(), underlying: None };
        let r = MogrificationError { failures: vec![f] };
        proof {
            assert(r@ =~= seq![FailureView { path: Seq::empty(), message: msg@, cause: None }]);
        }
        r
    }

    /// One failure with the given message and the given underlying cause.
    pub fn new_with(msg: &str, err: OpaqueError) -> (r: MogrificationError)
        ensures
            r@ == seq![FailureView { path: Seq::empty(), message: msg@, cause: Some(err@) }],
            r.wf(),
    {
        let ghost cause = err@;
        let f = MogrifyFailure {
            path: PathTracker::new(),
            message: msg.to_owned(),
            underlying: Some(err),
        };
        let r = MogrificationError { failures: vec![f] };
        proof {
            assert(r@ =~= seq![FailureView { path: Seq::empty(), message: msg@, cause: Some(cause) }]);
        }
        r
    }

    /// Turns a cause into an aggregate.  A cause that is itself an
    /// aggregate has its failures taken over directly — no double nesting,
    /// path state preserved; an opaque cause becomes one failure with a
    /// generic message and the cause attached.
    pub fn wrapping(cause: Cause) -> (r: MogrificationError)
        ensures
            r@ == wrap_failures(cause@),
    {
        match cause {
            Cause::Aggregate(e) => e,
            Cause::Opaque(o) => {
                let ghost detail = o@;
                let f = MogrifyFailure {
                    path: PathTracker::new(),
                    message: "mogrify failure".to_owned(),
                    underlying: Some(o),
                };
                let r = MogrificationError { failures: vec![f] };
                proof {
                    assert(r@ =~= seq![
                        FailureView {
                            path: Seq::empty(),
                            message: wrap_message(),
                            cause: Some(detail),
                        },
                    ]);
                }
                r
            },
        }
    }

    /// The failures this aggregate holds, in encounter order.
    pub fn failures(&self) -> (r: &Vec<MogrifyFailure>)
        ensures
            r@.map_values(|f: MogrifyFailure| f@) == self@,
    {
        &self.failures
    }

    /// Condenses the errors of sibling conversions into one aggregate.  An
    /// empty input means no failure survived and yields success; otherwise
    /// all contained failures are concatenated, in input order, into one
    /// new aggregate.
    pub fn condense(errors: Vec<MogrificationError>) -> (r: Result<(), MogrificationError>)
        ensures
            errors@.len() == 0 <==> r is Ok,
            r matches Err(e) ==> e@ == flatten_failures(views_of(errors@)),
            r matches Err(e) ==> e@.len() == total_failures(views_of(errors@)),
            errors@.len() > 0 && (forall|i: int|
                0 <= i < errors@.len() ==> (#[trigger] errors@[i]).wf()) ==> (r matches Err(e)
                && e.wf()),
    {
        let ghost errors0 = errors@;
        if errors.len() == 0 {
            return Ok(());
        }
        let ghost all_views: Seq<Seq<FailureView>> = views_of(errors@);
        let mut rest = errors;
        let mut collected: Vec<MogrifyFailure> = Vec::new();
        let ghost done: Seq<Seq<FailureView>> = Seq::empty();
        proof {
            assert(done + views_of(rest@) =~= all_views);
            assert(collected@.map_values(|f: MogrifyFailure| f@) =~= flatten_failures(done));
        }
        while rest.len() > 0
            invariant
                all_views == done + views_of(rest@),
                collected@.map_values(|f: MogrifyFailure| f@) == flatten_failures(done),
            decreases rest@.len(),
        {
            let ghost pre_done = done;
            let ghost pre_rest = rest@;
            let ghost pre_collected = collected@;
            let mut e = rest.remove(0);
            let ghost e_view = e@;
            let ghost e_failures = e.failures@;
            collected.append(&mut e.failures);
            proof {
                done = pre_done.push(e_view);
                assert(pre_done + views_of(pre_rest) =~= pre_done.push(e_view) + views_of(rest@));
                assert(done.drop_last() =~= pre_done);
                assert(flatten_failures(done) == flatten_failures(pre_done) + e_view);
                assert(collected@.map_values(|f: MogrifyFailure| f@) =~= pre_collected.map_values(
                    |f: MogrifyFailure| f@,
                ) + e_failures.map_values(|f: MogrifyFailure| f@));
                assert(e_failures.map_values(|f: MogrifyFailure| f@) == e_view);
            }
        }
        proof {
            assert(views_of(rest@) =~= Seq::<Seq<FailureView>>::empty());
            assert(done + views_of(rest@) =~= done);
            lemma_condense_count(all_views);
            if forall|i: int| 0 <= i < errors0.len() ==> (#[trigger] errors0[i]).wf() {
                assert forall|i: int| 0 <= i < all_views.len() implies (#[trigger] all_views[i]).len()
                    > 0 by {
                    assert(all_views[i] == errors0[i]@);
                }
                lemma_condense_wf(all_views);
            }
        }
        Err(MogrificationError { failures: collected })
    }

    /// Appends every failure of `other` to this aggregate, keeping both
    /// encounter orders.
    pub fn collect(&mut self, other: MogrificationError)
        ensures
            final(self)@ == old(self)@ + other@,
    {
        let ghost other_failures = other.failures@;
        let ghost pre = self.failures@;
        let mut o = other;
        self.failures.append(&mut o.failures);
        proof {
            assert(self@ =~= pre.map_values(|f: MogrifyFailure| f@) + other_failures.map_values(
                |f: MogrifyFailure| f@,
            ));
        }
    }

    /// Appends one segment to the path of every failure this aggregate
    /// holds — every failure is "at" the new location, not just the first.
    pub fn stamp(self, part: PathPart) -> (r: MogrificationError)
        ensures
            r@ == stamp_all(self@, part@),
    {
        let ghost orig: Seq<FailureView> = self@;
        let ghost pv: PathPartView = part@;
        let mut src = self.failures;
        let mut dst: Vec<MogrifyFailure> = Vec::new();
        proof {
            assert(src@.map_values(|f: MogrifyFailure| f@) =~= orig);
            assert(dst@.map_values(|f: MogrifyFailure| f@) =~= stamp_all(orig.take(0), pv));
        }
        while src.len() > 0
            invariant
                part@ == pv,
                dst@.len() + src@.len() == orig.len(),
                src@.map_values(|f: MogrifyFailure| f@) == orig.skip(dst@.len() as int),
                dst@.map_values(|f: MogrifyFailure| f@) == stamp_all(orig.take(dst@.len() as int), pv),
            decreases src@.len(),
        {
            let ghost i = dst@.len() as int;
            let ghost pre_src = src@;
            let ghost pre_dst = dst@;
            let mut f = src.remove(0);
            proof {
                assert(pre_src.map_values(|g: MogrifyFailure| g@)[0] == pre_src[0]@);
                assert(orig.skip(i)[0] == orig[i]);
                assert(f@ == orig[i]);
                assert forall|j: int| #![trigger orig.skip(i + 1)[j]] 0 <= j < src@.len() implies src@.map_values(
                    |g: MogrifyFailure| g@,
                )[j] == orig.skip(i + 1)[j] by {
                    assert(src@[j] == pre_src[j + 1]);
                    assert(pre_src.map_values(|g: MogrifyFailure| g@)[j + 1] == pre_src[j + 1]@);
                    assert(orig.skip(i)[j + 1] == orig[i + 1 + j]);
                    assert(orig.skip(i + 1)[j] == orig[i + 1 + j]);
                }
                assert(src@.map_values(|g: MogrifyFailure| g@) =~= orig.skip(i + 1));
            }
            let ghost f0 = f@;
            f.path.push(part.duplicate());
            dst.push(f);
            proof {
                assert(f.path@ == f0.path.push(pv));
                assert(f@.message == f0.message);
                assert(f@.cause == f0.cause);
                assert(f@ == FailureView {
                    path: orig[i].path.push(pv),
                    message: orig[i].message,
                    cause: orig[i].cause,
                });
                assert forall|j: int| #![trigger orig.take(i + 1)[j]] 0 <= j < dst@.len() implies dst@.map_values(
                    |g: MogrifyFailure| g@,
                )[j] == stamp_all(orig.take(i + 1), pv)[j] by {
                    assert(dst@.map_values(|g: MogrifyFailure| g@)[j] == dst@[j]@);
                    if j < i {
                        assert(dst@[j] == pre_dst[j]);
                        assert(pre_dst.map_values(|g: MogrifyFailure| g@)[j] == pre_dst[j]@);
                        assert(stamp_all(orig.take(i), pv)[j] == FailureView {
                            path: orig.take(i)[j].path.push(pv),
                            message: orig.take(i)[j].message,
                            cause: orig.take(i)[j].cause,
                        });
                        assert(orig.take(i)[j] == orig[j]);
                        assert(orig.take(i + 1)[j] == orig[j]);
                    } else {
                        assert(dst@[j] == f);
                        assert(orig.take(i + 1)[j] == orig[i]);
                    }
                    assert(stamp_all(orig.take(i + 1), pv)[j] == FailureView {
                        path: orig.take(i + 1)[j].path.push(pv),
                        message: orig.take(i + 1)[j].message,
                        cause: orig.take(i + 1)[j].cause,
                    });
                }
                assert(dst@.map_values(|g: MogrifyFailure| g@) =~= stamp_all(
                    orig.take(i + 1),
                    pv,
                ));
            }
        }
        proof {
            assert(orig.take(orig.len() as int) =~= orig);
        }
        MogrificationError { failures: dst }
    }

    /// Stamps every failure with the given field name.
    pub fn at_field(self, field_name: &str) -> (r: MogrificationError)
        ensures
            r@ == stamp_all(self@, PathPartView::Field(field_name@)),
    {
        self.stamp(PathPart::Field(field_name.to_owned()))
    }

    /// Stamps every failure with the given list index.
    pub fn at_index(self, index: usize) -> (r: MogrificationError)
        ensures
            r@ == stamp_all(self@, PathPartView::Index(index as int)),
    {
        self.stamp(PathPart::Index(index))
    }

    /// Stamps every failure with the given map key.
    pub fn at_key(self, key_name: &str) -> (r: MogrificationError)
        ensures
            r@ == stamp_all(self@, PathPartView::Key(key_name@)),
    {
        self.stamp(PathPart::Key(key_name.to_owned()))
    }

    /// The display form of this aggregate: a one-failure aggregate renders
    /// as that failure; a larger one as a header reporting the count
    /// followed by one indented line per failure, in encounter order.
    pub fn render(&self) -> (s: String)
        ensures
            s@ == render_error(self@),
    {
        if self.failures.len() == 1 {
            let s = self.failures[0].render();
            proof {
                assert(self@[0] == self.failures@.map_values(|f: MogrifyFailure| f@)[0]);
            }
            s
        } else {
            let mut s = String::new();
            s.append("found ");
            let digits = dec_string(self.failures.len() as u64);
            s.append(digits.as_str());
            s.append(" mogrify failures\n");
            proof {
                assert(s@ == render_header(self@.len()));
                assert(self@.take(0) =~= Seq::<FailureView>::empty());
                assert(s@ + render_lines(self@.take(0)) =~= s@);
            }
            let ghost header = s@;
            let mut i: usize = 0;
            while i < self.failures.len()
                invariant
                    i <= self.failures.len(),
                    header == render_header(self@.len()),
                    s@ == header + render_lines(self@.take(i as int)),
                decreases self.failures@.len() - i,
            {
                let ghost pre = s@;
                s.append("    -> ");
                let line = self.failures[i].render();
                s.append(line.as_str());
                s.append("\n");
                proof {
                    assert(self.failures@[i as int]@ == self@[i as int]);
                    assert(s@ =~= pre + render_error_line(self@[i as int]));
                    assert(self@.take(i + 1).drop_last() =~= self@.take(i as int));
                    assert(self@.take(i + 1).last() == self@[i as int]);
                    assert(pre + render_error_line(self@[i as int]) =~= header + (render_lines(
                        self@.take(i as int),
                    ) + render_error_line(self@[i as int])));
                }
                i = i + 1;
            }
            proof {
                assert(self@.take(self.failures@.len() as int) =~= self@);
            }
            s
        }
    }
}

} // verus!
