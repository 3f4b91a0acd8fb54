//! Failures: what kinds there are, and failures that carry a chain of
//! messages, a root cause and the contexts laid over it on the way up.

use crate::text::texts;
use vstd::prelude::*;

verus! {

/// The kinds of failure.
#[derive(Debug, Clone, Copy, PartialEq, Eq, Structural)]
pub enum ErrorKind {
    /// A text, a tar header or a media type is malformed or unknown.
    Parse,
    /// The filesystem or the network failed.
    Io,
    /// The image proxy answered with a failure.
    Proxy,
    /// The commit writer exited with a failure.
    ChildProcess,
    /// Content was found that must not be there: files below `/var` in
    /// strict mode, a path with `..` or with components that are not portable.
    Validation,
    /// Both sides of a fetch failed, each on its own account.
    Pipeline,
}

/// A failure with its root cause and the contexts added since, innermost first.
#[derive(Debug, Clone, PartialEq, Eq)]
pub struct Failure {
    /// What kind of failure this is.
    pub kind: ErrorKind,
    /// What went wrong first.
    pub root: String,
    /// The contexts laid over the root cause, in the order they were added.
    pub contexts: Vec<String>,
}

/// The mathematical content of a [`Failure`].
pub struct FailureView {
    pub kind: ErrorKind,
    pub root: Seq<char>,
    pub contexts: Seq<Seq<char>>,
}

impl View for Failure {
    type V = FailureView;

    open spec fn view(&self) -> FailureView {
        FailureView { kind: self.kind, root: self.root@, contexts: texts(self.contexts@) }
    }
}

impl FailureView {
    /// This failure under one more context.
    pub open spec fn context(self, msg: Seq<char>) -> FailureView {
        FailureView { contexts: self.contexts.push(msg), ..self }
    }

    /// This failure as one of another kind.
    pub open spec fn of_kind(self, kind: ErrorKind) -> FailureView {
        FailureView { kind, ..self }
    }
}

impl Failure {
    /// A failure of the given kind with the given root cause and no context.
    pub fn new(kind: ErrorKind, msg: &str) -> (f: Failure)
        ensures
            f@ == (FailureView { kind, root: msg@, contexts: Seq::empty() }),
    {
        let f = Failure { kind, root: String::from_str(msg), contexts: Vec::new() };
        assert(texts(f.contexts@) =~= Seq::empty());
        f
    }

    /// Lays one more context over this failure.
    pub fn context(self, msg: &str) -> (f: Failure)
        ensures
            f@ == self@.context(msg@),
    {
        let mut f = self;
        let ghost before = f.contexts@;
        f.contexts.push(String::from_str(msg));
        assert(texts(f.contexts@) =~= texts(before).push(msg@));
        f
    }

    /// The message of the root cause.
    pub fn root_cause(&self) -> (r: &str)
        ensures
            r@ == self@.root,
    {
        self.root.as_str()
    }
}

} // verus!
