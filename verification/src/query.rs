//! The tri-state outcome of a catalog query, shared by the plain and the
//! suggestion-augmented entry points.

use vstd::prelude::*;
use vstd::pervasive::unreached;
use crate::method::Method;
use crate::pn::PnBlockParseError;

verus! {

/// The outcome of a title query.
///
/// `NotFound` carries `()` for the plain lookup and the ranked suggestion
/// list for the suggestion-augmented one.
#[derive(Debug, Clone)]
#[must_use]
pub enum QueryResult<T> {
    /// The title resolved to a stored method whose place notation parsed.
    Success(Method),
    /// The title was found but its stored place notation is malformed:
    /// catalog data corruption, not user error.
    PnParseErr { pn: String, error: PnBlockParseError },
    /// No stored method carries this title.
    NotFound(T),
}

impl<T> QueryResult<T> {
    /// Forced extraction of the method: a "caller has already proven this
    /// cannot fail" escape hatch, callable only on `Success`.
    pub fn unwrap(self) -> (m: Method)
        requires
            self is Success,
        ensures
            m == self->Success_0,
    {
        match self {
            QueryResult::Success(m) => m,
            QueryResult::PnParseErr { pn: _, error: _ } => unreached(),
            QueryResult::NotFound(_) => unreached(),
        }
    }

    /// Forced extraction of everything but a parse error: callable only
    /// when the place notation is known to have parsed.
    pub fn unwrap_parse_err(self) -> (r: Result<Method, T>)
        requires
            !(self is PnParseErr),
        ensures
            self is Success ==> (r matches Ok(m) && m == self->Success_0),
            self is NotFound ==> (r matches Err(v) && v == self->NotFound_0),
    {
        match self {
            QueryResult::Success(m) => Ok(m),
            QueryResult::PnParseErr { pn: _, error: _ } => unreached(),
            QueryResult::NotFound(v) => Err(v),
        }
    }

    /// Passes the `NotFound` payload through `f`, leaving `Success` and
    /// `PnParseErr` untouched.
    pub fn map_not_found<U, F: FnOnce(T) -> U>(self, f: F) -> (r: QueryResult<U>)
        requires
            self matches QueryResult::NotFound(v) ==> call_requires(f, (v,)),
        ensures
            self is Success ==> r is Success && r->Success_0 == self->Success_0,
            self is PnParseErr ==> r is PnParseErr && r->PnParseErr_pn == self->PnParseErr_pn
                && r->PnParseErr_error == self->PnParseErr_error,
            self is NotFound ==> r is NotFound && call_ensures(
                f,
                (self->NotFound_0,),
                r->NotFound_0,
            ),
    {
        match self {
            QueryResult::Success(m) => QueryResult::Success(m),
            QueryResult::PnParseErr { pn, error } => QueryResult::PnParseErr { pn, error },
            QueryResult::NotFound(v) => QueryResult::NotFound(f(v)),
        }
    }
}

} // verus!
