//! One elementary conversion failure.

use vstd::prelude::*;
use vstd::string::*;

use crate::path::PathPartView;
use crate::path::PathTracker;
use crate::path::render_path;

verus! {

/// An opaque underlying error taken from outside this library, kept as its
/// descriptive text.  It is attached to a failure as the cause that
/// triggered it, for chained-error introspection.  This is a deliberate
/// narrowing: a cause is carried as one descriptive string, so a caller
/// who wants an outside error's own chain preserved renders it into the
/// description before handing it over.
#[derive(Debug)]
pub struct OpaqueError {
    pub description: String,
}

impl View for OpaqueError {
    type V = Seq<char>;

    open spec fn view(&self) -> Seq<char> {
        self.description@
    }
}

/// The mathematical form of a [`MogrifyFailure`].
pub struct FailureView {
    pub path: Seq<PathPartView>,
    pub message: Seq<char>,
    pub cause: Option<Seq<char>>,
}

/// One elementary error: a human-readable message, the path of the location
/// where it occurred, and an optional underlying cause.  A failure is never
/// merged with another failure, only grouped, and changes only by having
/// path segments appended as it propagates upward.
#[derive(Debug)]
pub struct MogrifyFailure {
    pub path: PathTracker,
    pub message: String,
    pub underlying: Option<OpaqueError>,
}

impl View for MogrifyFailure {
    type V = FailureView;

    open spec fn view(&self) -> FailureView {
        FailureView {
            path: self.path@,
            message: self.message@,
            cause: match self.underlying {
                Some(e) => Some(e@),
                None => None,
            },
        }
    }
}

/// The combined display form of a failure: the message alone when the path
/// is empty, else `{message} (at: {path})`.
pub open spec fn render_failure(f: FailureView) -> Seq<char> {
    if f.path.len() == 0 {
        f.message
    } else {
        f.message + " (at: "@ + render_path(f.path) + ")"@
    }
}

impl MogrifyFailure {
    /// The rendered path of this failure, read root-to-leaf.
    pub fn path(&self) -> (s: String)
        ensures
            s@ == render_path(self@.path),
    {
        self.path.render()
    }

    /// The message of this failure.
    pub fn message(&self) -> (m: &str)
        ensures
            m@ == self@.message,
    {
        self.message.as_str()
    }

    /// The underlying cause of this failure, if one was attached.
    pub fn cause(&self) -> (c: Option<&OpaqueError>)
        ensures
            c is Some <==> self@.cause is Some,
            c matches Some(e) ==> self@.cause == Some(e@),
    {
        self.underlying.as_ref()
    }

    /// The combined display form: `{message} (at: {path})` when the path is
    /// non-empty, else just the message.
    pub fn render(&self) -> (s: String)
        ensures
            s@ == render_failure(self@),
    {
        if self.path.parts.len() == 0 {
            proof {
                assert(self@.path.len() == 0);
            }
            self.message.clone()
        } else {
            let mut s = self.message.clone();
            s.append(" (at: ");
            let p = self.path.render();
            s.append(p.as_str());
            s.append(")");
            s
        }
    }
}

} // verus!
