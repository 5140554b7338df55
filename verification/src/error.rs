//! Errors returned by this crate.

use vstd::prelude::*;

verus! {

/// The error type that this crate uses for wrapping errors.
#[derive(Debug)]
#[non_exhaustive]
pub enum Error {
    /// Identifies errors produced by the internal implementation that aren't
    /// expected to happen.
    Internal(Internal),
    /// Identifies invalid arguments passed to a function or method.
    InvalidArguments(Args),
}

impl Error {
    /// Creates an [`Internal` variant](Self::Internal) from the provided
    /// context message.
    pub fn new_internal(ctx_msg: &str) -> (r: Self)
        ensures
            r matches Error::Internal(i) && i.ctx_msg@ == ctx_msg@,
    {
        Error::Internal(Internal { ctx_msg: ctx_msg.to_owned() })
    }

    /// Convenient constructor for creating an
    /// [`InvalidArguments` variant](Self::InvalidArguments) error.
    pub fn new_invalid_arguments(names: &str, msg: &str) -> (r: Self)
        ensures
            r matches Error::InvalidArguments(a) && a.names@ == names@ && a.msg@ == msg@,
    {
        Error::InvalidArguments(Args::new(names, msg))
    }
}

/// Represents an invalid arguments error regarding the business domain.
#[derive(Debug)]
pub struct Args {
    /// One or several parameter names; when several parameters are invalid
    /// the names are wrapped in round brackets (e.g. `(p1,p3)`).
    pub names: String,
    /// A human friendly message that explains why the argument(s) are invalid.
    pub msg: String,
}

impl Args {
    /// Creates a new instance.
    pub fn new(names: &str, msg: &str) -> (r: Self)
        ensures
            r.names@ == names@,
            r.msg@ == msg@,
    {
        Args { names: names.to_owned(), msg: msg.to_owned() }
    }
}

/// Represents an error that happens because of the violation of an internal
/// assumption.
#[derive(Debug)]
pub struct Internal {
    /// A human friendly message to provide context of the error.
    pub ctx_msg: String,
}

/// One or more supplied match patterns failed to compile as regular
/// expressions.
///
/// Surfaced only when a filter build is finished, aggregated across the whole
/// chain: `entries` lists every offending pair of field name and pattern text,
/// in the order the predicates were supplied.
#[derive(Debug)]
pub struct InvalidPattern {
    /// The field name and pattern text of every predicate whose pattern
    /// failed to compile.
    pub entries: Vec<(String, String)>,
}

impl View for InvalidPattern {
    type V = Seq<(Seq<char>, Seq<char>)>;

    open spec fn view(&self) -> Seq<(Seq<char>, Seq<char>)> {
        self.entries@.map_values(|e: (String, String)| (e.0@, e.1@))
    }
}

} // verus!
